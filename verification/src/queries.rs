//! The points of a dataset, the queries that are drawn from them, and the
//! answers that are right.

use vstd::prelude::*;
use vstd::string::*;

use rand::rngs::StdRng;
use rand::seq::SliceRandom;
use rand::SeedableRng;
use rayon::slice::ParallelSliceMut;

use crate::recall::top;
use crate::single::Single;
use crate::text::{decimal, decimal_text};

verus! {

/// The seed that queries are drawn with.
pub const RNG_SEED: u64 = 42;

/// How many queries are drawn.
pub const QUERY_COUNT: usize = 100;

/// How many vectors are used where that is not the number that was asked for
/// of the dataset.
pub open spec fn used_instead(len: usize, count: usize) -> Option<usize> {
    if len == count {
        None
    } else if count < len {
        Some(count)
    } else {
        Some(len)
    }
}

/// The notice that so many vectors are used.
pub open spec fn usage_line(used: nat) -> Seq<char> {
    "\x1b[1m"@ + decimal(used) + "\x1b[0m vectors are used for this measure"@
}

/// The notice on the number of vectors that are used, where one is due.
pub fn usage_notice(len: usize, count: usize) -> (notice: Option<String>)
    ensures
        match used_instead(len, count) {
            None => notice is None,
            Some(used) => notice matches Some(text) && text@ == usage_line(used as nat),
        },
        notice is None <==> len == count,
        notice matches Some(text) ==> text@ == "\x1b[1m"@ + decimal(
            if count < len {
                count as nat
            } else {
                len as nat
            },
        ) + "\x1b[0m vectors are used for this measure"@,
{
    if len == count {
        return None;
    }
    let used: usize = if count < len {
        count
    } else {
        len
    };
    let mut text = String::from_str("\x1b[1m");
    text.append(decimal_text(used).as_str());
    text.append("\x1b[0m vectors are used for this measure");
    Some(text)
}

/// The first `count` rows, each with its number. Numbers start over after
/// the largest id.
pub fn number_points<'a, T>(rows: &[&'a [T]], count: usize) -> (points: Vec<(u32, &'a [T])>)
    ensures
        points@.len() == if count <= rows@.len() {
            count as nat
        } else {
            rows@.len()
        },
        forall|i: int|
            0 <= i < points@.len() ==> (#[trigger] points@[i]).0 == i % 0x1_0000_0000
                && points@[i].1 == rows@[i],
{
    let mut points: Vec<(u32, &'a [T])> = Vec::new();
    let mut i: usize = 0;
    while i < rows.len() && i < count
        invariant
            i <= rows@.len(),
            i <= count,
            points@.len() == i,
            forall|k: int|
                0 <= k < i ==> (#[trigger] points@[k]).0 == k % 0x1_0000_0000 && points@[k].1
                    == rows@[k],
        decreases rows@.len() - i,
    {
        let wide: u64 = i as u64;
        let id: u32 = (wide % 0x1_0000_0000) as u32;
        points.push((id, rows[i]));
        i += 1;
    }
    points
}

/// The ids of numbered points all differ, as long as there are no more points
/// than ids.
pub proof fn lemma_ids_differ<T>(points: Seq<(u32, T)>, i: int, j: int)
    requires
        forall|k: int| 0 <= k < points.len() ==> (#[trigger] points[k]).0 == k % 0x1_0000_0000,
        points.len() <= 0x1_0000_0000,
        0 <= i < j < points.len(),
    ensures
        points[i].0 != points[j].0,
{
}

/// A source of pseudo-random numbers.
#[verifier::external_type_specification]
#[verifier::external_body]
pub struct ExStdRng(StdRng);

/// The generator that a seed makes.
pub uninterp spec fn seeded_generator(seed: u64) -> StdRng;

/// `SeedableRng::seed_from_u64` makes a generator out of the seed alone. The
/// numbers that it will give are not described.
#[verifier::external_body]
fn seeded(seed: u64) -> (rng: StdRng)
    ensures
        rng == seeded_generator(seed),
{
    StdRng::seed_from_u64(seed)
}

/// The position that a generator picks out of so many, and the generator that
/// it then is.
pub uninterp spec fn choice(rng: StdRng, len: nat) -> (nat, StdRng);

/// `SliceRandom::choose` gives one of the items, and none only where there is
/// none. Which item it is, and what becomes of the generator, depends on the
/// generator and on the number of items alone; it is named and not described.
#[verifier::external_body]
fn choose_point<'a, 'b, T>(points: &'a [(u32, &'b [T])], rng: &mut StdRng) -> (point: Option<
    &'a (u32, &'b [T]),
>)
    ensures
        point is None <==> points@.len() == 0,
        point matches Some(p) ==> {
            &&& choice(*old(rng), points@.len()).0 < points@.len()
            &&& *p == points@[choice(*old(rng), points@.len()).0 as int]
        },
        *final(rng) == choice(*old(rng), points@.len()).1,
{
    points.choose(rng)
}

/// The generator that a seed makes, after `n` choices among `len` items.
pub open spec fn generator_after(seed: u64, len: nat, n: nat) -> StdRng
    decreases n,
{
    if n == 0 {
        seeded_generator(seed)
    } else {
        choice(generator_after(seed, len, (n - 1) as nat), len).1
    }
}

/// The position that is drawn at the `i`-th time, from zero.
pub open spec fn drawn_position(seed: u64, len: nat, i: nat) -> nat {
    choice(generator_after(seed, len, i), len).0
}

/// The point is the one that is drawn at the `i`-th time, from zero.
pub open spec fn is_draw<T>(point: (u32, T), points: Seq<(u32, T)>, seed: u64, i: nat) -> bool {
    let position = drawn_position(seed, points.len(), i);
    position < points.len() && point == points[position as int]
}

/// The queries are those that the seed draws among the points; none where no
/// recall is measured.
pub open spec fn are_drawn<T>(
    queries: Seq<(u32, T)>,
    points: Seq<(u32, T)>,
    max_recall: nat,
    seed: u64,
) -> bool {
    &&& queries.len() == if max_recall == 0 {
        0
    } else {
        QUERY_COUNT as nat
    }
    &&& forall|i: int|
        0 <= i < queries.len() ==> is_draw(#[trigger] queries[i], points, seed, i as nat)
}

/// Draws the queries among the points; none where no recall is measured.
pub fn draw_queries<'b, T>(points: &[(u32, &'b [T])], max_recall: usize, seed: u64) -> (queries:
    Vec<(u32, &'b [T])>)
    requires
        max_recall > 0 ==> points@.len() > 0,
    ensures
        are_drawn(queries@, points@, max_recall as nat, seed),
{
    let mut queries: Vec<(u32, &'b [T])> = Vec::new();
    if max_recall == 0 {
        return queries;
    }
    let mut rng = seeded(seed);
    let mut i: usize = 0;
    while i < QUERY_COUNT
        invariant
            i <= QUERY_COUNT,
            points@.len() > 0,
            rng == generator_after(seed, points@.len(), i as nat),
            queries@.len() == i,
            forall|k: int| 0 <= k < i ==> is_draw(#[trigger] queries@[k], points@, seed, k as nat),
        decreases QUERY_COUNT - i,
    {
        if let Some(point) = choose_point(points, &mut rng) {
            queries.push(*point);
        }
        i += 1;
    }
    queries
}

/// What is drawn: there are a hundred queries, or none where no recall is
/// measured. One generator, made out of the seed, chooses all of them, each
/// time as it was left the time before.
pub proof fn lemma_draws<T>(
    queries: Seq<(u32, T)>,
    points: Seq<(u32, T)>,
    max_recall: nat,
    seed: u64,
)
    requires
        are_drawn(queries, points, max_recall, seed),
    ensures
        max_recall == 0 ==> queries.len() == 0,
        max_recall > 0 ==> queries.len() == 100,
        exists|states: Seq<StdRng>|
            {
                &&& #[trigger] states.len() == queries.len() + 1
                &&& states[0] == seeded_generator(seed)
                &&& forall|i: int|
                    0 <= i < queries.len() ==> states[i + 1] == choice(
                        #[trigger] states[i],
                        points.len(),
                    ).1
                &&& forall|i: int|
                    0 <= i < queries.len() ==> choice(#[trigger] states[i], points.len()).0
                        < points.len() && queries[i] == points[choice(
                        states[i],
                        points.len(),
                    ).0 as int]
            },
{
    let states = Seq::new(
        queries.len() + 1,
        |i: int| generator_after(seed, points.len(), i as nat),
    );
    assert(states.len() == queries.len() + 1);
    assert forall|i: int| 0 <= i < queries.len() implies states[i + 1] == choice(
        #[trigger] states[i],
        points.len(),
    ).1 by {
        assert(((i + 1) as nat - 1) as nat == i as nat);
    }
    assert forall|i: int| 0 <= i < queries.len() implies choice(
        #[trigger] states[i],
        points.len(),
    ).0 < points.len() && queries[i] == points[choice(states[i], points.len()).0 as int] by {
        assert(is_draw(queries[i], points, seed, i as nat));
    }
}

/// Every query is one of the points, and the same seed draws the same queries
/// again.
pub proof fn lemma_draws_repeat<T>(
    queries: Seq<(u32, T)>,
    again: Seq<(u32, T)>,
    points: Seq<(u32, T)>,
    max_recall: nat,
    seed: u64,
)
    requires
        are_drawn(queries, points, max_recall, seed),
        are_drawn(again, points, max_recall, seed),
    ensures
        forall|i: int| 0 <= i < queries.len() ==> points.contains(#[trigger] queries[i]),
        queries == again,
{
    assert forall|i: int| 0 <= i < queries.len() implies queries[i] == again[i] by {
        assert(is_draw(again[i], points, seed, i as nat));
    }
    assert(queries =~= again);
}

/// Items in ascending order of their ranks.
pub open spec fn by_rank(items: Seq<(i32, u32)>) -> bool {
    forall|i: int, j: int|
        0 <= i < j < items.len() ==> (#[trigger] items[i]).0 <= (#[trigger] items[j]).0
}

/// `ParallelSliceMut::par_sort_unstable_by_key` orders the items by the key
/// that the closure picks: the same items, each as often as before, with
/// ascending keys. Where keys are equal the order is left open.
#[verifier::external_body]
fn sort_by_rank(items: &mut Vec<(i32, u32)>)
    ensures
        final(items)@.to_multiset() == old(items)@.to_multiset(),
        by_rank(final(items)@),
{
    items.par_sort_unstable_by_key(|item| item.0);
}

/// The points by the rank of their distance.
pub open spec fn ranked(distances: Seq<(Single, u32)>) -> Seq<(i32, u32)> {
    Seq::new(distances.len(), |i: int| (distances[i].0.order() as i32, distances[i].1))
}

/// The items are the points in the order of their distances, and the ids are
/// those of the first `max` of them.
pub open spec fn shows_nearest(
    items: Seq<(i32, u32)>,
    ids: Seq<u32>,
    distances: Seq<(Single, u32)>,
    max: nat,
) -> bool {
    &&& by_rank(items)
    &&& items.to_multiset() == ranked(distances).to_multiset()
    &&& ids == first_ids(items, max)
}

/// The ids are those of the `max` nearest points, nearest first.
pub open spec fn are_nearest(ids: Seq<u32>, distances: Seq<(Single, u32)>, max: nat) -> bool {
    exists|items: Seq<(i32, u32)>| #[trigger] shows_nearest(items, ids, distances, max)
}

/// The ids of the first `max` items.
pub open spec fn first_ids(items: Seq<(i32, u32)>, max: nat) -> Seq<u32> {
    Seq::new(
        if max <= items.len() {
            max
        } else {
            items.len()
        },
        |i: int| items[i].1,
    )
}

/// The ids of the first items.
pub fn take_ids(items: &Vec<(i32, u32)>, max: usize) -> (ids: Vec<u32>)
    ensures
        ids@ == first_ids(items@, max as nat),
        ids@ == items@.take(
            if max < items@.len() {
                max as int
            } else {
                items@.len() as int
            },
        ).map_values(|item: (i32, u32)| item.1),
{
    let mut ids: Vec<u32> = Vec::new();
    let mut i: usize = 0;
    while i < items.len() && i < max
        invariant
            i <= items@.len(),
            i <= max,
            ids@.len() == i,
            forall|k: int| 0 <= k < i ==> #[trigger] ids@[k] == items@[k].1,
        decreases items@.len() - i,
    {
        ids.push(items[i].1);
        i += 1;
    }
    assert(ids@ =~= first_ids(items@, max as nat));
    ids
}

/// The ids of the `max` nearest points, from the distances of all of them.
pub fn nearest_ids(distances: &Vec<(Single, u32)>, max: usize) -> (ids: Vec<u32>)
    ensures
        are_nearest(ids@, distances@, max as nat),
{
    let mut items: Vec<(i32, u32)> = Vec::new();
    let mut i: usize = 0;
    while i < distances.len()
        invariant
            i <= distances@.len(),
            items@.len() == i,
            forall|k: int| 0 <= k < i ==> #[trigger] items@[k] == ranked(distances@)[k],
        decreases distances@.len() - i,
    {
        items.push((distances[i].0.rank(), distances[i].1));
        i += 1;
    }
    assert(items@ =~= ranked(distances@));
    sort_by_rank(&mut items);
    let ids = take_ids(&items, max);
    assert(shows_nearest(items@, ids@, distances@, max as nat));
    ids
}

/// Sequences of the same items, each as often, are the same but for the places:
/// the places of the one in the other.
proof fn lemma_places_of(items: Seq<(i32, u32)>, all: Seq<(i32, u32)>) -> (places: Seq<int>)
    requires
        items.to_multiset() == all.to_multiset(),
    ensures
        places.len() == items.len(),
        items.len() == all.len(),
        places.no_duplicates(),
        forall|i: int|
            0 <= i < places.len() ==> 0 <= #[trigger] places[i] < all.len() && items[i]
                == all[places[i]],
    decreases items.len(),
{
    broadcast use vstd::seq_lib::group_to_multiset_ensures;

    assert(items.to_multiset().len() == items.len());
    assert(all.to_multiset().len() == all.len());
    if items.len() == 0 {
        seq![]
    } else {
        let last = items.last();
        let rest = items.drop_last();
        assert(items.contains(last));
        assert(all.to_multiset().count(last) > 0);
        assert(all.contains(last));
        let k = all.index_of(last);
        assert(items.remove(items.len() - 1) =~= rest);
        assert(rest.to_multiset() =~= all.remove(k).to_multiset());
        let inner = lemma_places_of(rest, all.remove(k));
        let places = Seq::new(
            items.len(),
            |i: int|
                if i == items.len() - 1 {
                    k
                } else if inner[i] < k {
                    inner[i]
                } else {
                    inner[i] + 1
                },
        );
        assert forall|i: int| 0 <= i < places.len() implies 0 <= #[trigger] places[i] < all.len()
            && items[i] == all[places[i]] by {
            if i < items.len() - 1 {
                assert(0 <= inner[i] < all.remove(k).len());
                assert(rest[i] == all.remove(k)[inner[i]]);
            }
        }
        assert forall|i: int, j: int|
            0 <= i < places.len() && 0 <= j < places.len() && i != j implies places[i]
            != places[j] by {
            if i < items.len() - 1 && j < items.len() - 1 {
                assert(inner[i] != inner[j]);
            }
        }
        places
    }
}

/// What is found: as many points as were asked for, or all of them. They are
/// different points, each given by its own id, from the nearest to the
/// farthest, and no point that was left out is nearer than one of them.
pub proof fn lemma_nearest_points(ids: Seq<u32>, distances: Seq<(Single, u32)>, max: nat)
    requires
        are_nearest(ids, distances, max),
    ensures
        exists|places: Seq<int>|
            {
                &&& #[trigger] places.no_duplicates()
                &&& places.len() == ids.len()
                &&& ids.len() == if max < distances.len() {
                    max
                } else {
                    distances.len()
                }
                &&& forall|i: int|
                    0 <= i < ids.len() ==> 0 <= #[trigger] places[i] < distances.len() && ids[i]
                        == distances[places[i]].1
                &&& forall|i: int, j: int|
                    0 <= i < j < ids.len() ==> distances[#[trigger] places[i]].0.order()
                        <= distances[#[trigger] places[j]].0.order()
                &&& forall|i: int, q: int|
                    0 <= i < ids.len() && 0 <= q < distances.len() && !places.contains(q)
                        ==> distances[#[trigger] places[i]].0.order() <= (
                    #[trigger] distances[q]).0.order()
            },
{
    let items = choose|items: Seq<(i32, u32)>| #[trigger]
        shows_nearest(items, ids, distances, max);
    let all = ranked(distances);
    let every = lemma_places_of(items, all);
    let places = every.take(ids.len() as int);
    assert(forall|a: Single| -0x8000_0000 <= #[trigger] a.order() < 0x8000_0000);
    assert forall|i: int, j: int|
        0 <= i < j < items.len() implies distances[#[trigger] every[i]].0.order()
        <= distances[#[trigger] every[j]].0.order() by {
        assert(items[i].0 <= items[j].0);
    }
    assert forall|i: int| 0 <= i < ids.len() implies 0 <= #[trigger] places[i] < distances.len()
        && ids[i] == distances[places[i]].1 by {
        assert(places[i] == every[i]);
    }
    assert forall|i: int, j: int|
        0 <= i < j < ids.len() implies distances[#[trigger] places[i]].0.order()
        <= distances[#[trigger] places[j]].0.order() by {
        assert(places[i] == every[i] && places[j] == every[j]);
    }
    assert forall|i: int, q: int|
        0 <= i < ids.len() && 0 <= q < distances.len() && !places.contains(
            q,
        ) implies distances[#[trigger] places[i]].0.order() <= (
    #[trigger] distances[q]).0.order() by {
        lemma_every_place(every, distances.len(), q);
        let j = every.index_of(q);
        if j < ids.len() {
            assert(places[j] == q);
        }
        assert(places[i] == every[i]);
    }
    assert(places.no_duplicates());
}

/// As many different places as there are, are all of them.
proof fn lemma_every_place(places: Seq<int>, len: nat, q: int)
    requires
        places.no_duplicates(),
        places.len() == len,
        forall|i: int| 0 <= i < places.len() ==> 0 <= #[trigger] places[i] < len,
        0 <= q < len,
    ensures
        places.contains(q),
{
    let range = vstd::set_lib::set_int_range(0, len as int);
    vstd::set_lib::lemma_int_range(0, len as int);
    places.unique_seq_to_set();
    assert(places.to_set().subset_of(range)) by {
        assert forall|x: int| places.to_set().contains(x) implies range.contains(x) by {
            let i = places.index_of(x);
            assert(0 <= places[i] < len);
        }
    }
    vstd::set_lib::lemma_subset_equality(places.to_set(), range);
    assert(range.contains(q));
}

/// Where the ids of the points all differ, the ids given all differ, and each
/// is the id of a point.
pub proof fn lemma_nearest_ids_differ(ids: Seq<u32>, distances: Seq<(Single, u32)>, max: nat)
    requires
        are_nearest(ids, distances, max),
        forall|i: int, j: int|
            0 <= i < j < distances.len() ==> (#[trigger] distances[i]).1 != (
            #[trigger] distances[j]).1,
    ensures
        ids.no_duplicates(),
        forall|i: int|
            0 <= i < ids.len() ==> distances.map_values(|d: (Single, u32)| d.1).contains(
                #[trigger] ids[i],
            ),
{
    lemma_nearest_points(ids, distances, max);
    let places = choose|places: Seq<int>|
        {
            &&& #[trigger] places.no_duplicates()
            &&& places.len() == ids.len()
            &&& forall|i: int|
                0 <= i < ids.len() ==> 0 <= #[trigger] places[i] < distances.len() && ids[i]
                    == distances[places[i]].1
        };
    assert forall|i: int, j: int| 0 <= i < ids.len() && 0 <= j < ids.len() && i != j implies ids[i]
        != ids[j] by {
        assert(places[i] != places[j]);
    }
    let known = distances.map_values(|d: (Single, u32)| d.1);
    assert forall|i: int| 0 <= i < ids.len() implies known.contains(#[trigger] ids[i]) by {
        assert(0 <= places[i] < distances.len());
        assert(known[places[i]] == ids[i]);
    }
}

/// As many ids are given as were asked for, or as there are points.
pub proof fn lemma_nearest_count(ids: Seq<u32>, distances: Seq<(Single, u32)>, max: nat)
    requires
        are_nearest(ids, distances, max),
    ensures
        ids.len() == if max <= distances.len() {
            max
        } else {
            distances.len()
        },
{
    broadcast use vstd::seq_lib::group_to_multiset_ensures;

    let items = choose|items: Seq<(i32, u32)>| #[trigger]
        shows_nearest(items, ids, distances, max);
    assert(items.to_multiset().len() == items.len());
    assert(ranked(distances).to_multiset().len() == distances.len());
}

/// The nearest ids for a smaller number are the first of those for a greater
/// one.
pub proof fn lemma_nearest_prefix(
    ids: Seq<u32>,
    distances: Seq<(Single, u32)>,
    max: nat,
    fewer: nat,
)
    requires
        are_nearest(ids, distances, max),
        fewer <= max,
    ensures
        are_nearest(top(ids, fewer), distances, fewer),
{
    let items = choose|items: Seq<(i32, u32)>| #[trigger]
        shows_nearest(items, ids, distances, max);
    assert(top(ids, fewer) =~= first_ids(items, fewer));
    assert(shows_nearest(items, top(ids, fewer), distances, fewer));
}

/// No point that was left out is nearer than one that was taken.
pub proof fn lemma_nearest_are_nearest(
    ids: Seq<u32>,
    distances: Seq<(Single, u32)>,
    max: nat,
    taken: int,
    left_out: int,
)
    requires
        are_nearest(ids, distances, max),
        forall|i: int, j: int|
            0 <= i < j < distances.len() ==> (#[trigger] distances[i]).1 != (
            #[trigger] distances[j]).1,
        0 <= taken < distances.len(),
        0 <= left_out < distances.len(),
        ids.contains(distances[taken].1),
        !ids.contains(distances[left_out].1),
    ensures
        distances[taken].0.order() <= distances[left_out].0.order(),
{
    broadcast use vstd::seq_lib::group_to_multiset_ensures;

    let items = choose|items: Seq<(i32, u32)>| #[trigger]
        shows_nearest(items, ids, distances, max);
    let all = ranked(distances);
    let p = ids.index_of(distances[taken].1);
    assert(items[p].1 == distances[taken].1);
    assert(items.contains(items[p]));
    assert(items.to_multiset().count(items[p]) > 0);
    assert(all.contains(items[p]));
    let m = all.index_of(items[p]);
    assert(all[m] == items[p]);
    assert(distances[m].1 == distances[taken].1);
    assert(m == taken);
    assert(all.contains(all[left_out]));
    assert(all.to_multiset().count(all[left_out]) > 0);
    assert(items.contains(all[left_out]));
    let q = items.index_of(all[left_out]);
    assert(items[q] == all[left_out]);
    if q < ids.len() {
        assert(ids[q] == distances[left_out].1);
    }
    assert(items[p].0 <= items[q].0);
    assert(-0x8000_0000 <= distances[taken].0.order() < 0x8000_0000);
    assert(-0x8000_0000 <= distances[left_out].0.order() < 0x8000_0000);
}

} // verus!
