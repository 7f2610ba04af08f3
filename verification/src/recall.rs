//! How the answers of an engine are scored, and how scores are shown.

use vstd::prelude::*;
use vstd::string::*;

use rayon::iter::{IntoParallelIterator, ParallelIterator};
use roaring::RoaringBitmap;

use crate::number::{lemma_list_is_split_back, lemma_lists_differ, pieces};
use crate::single::Single;
use crate::text::{join, joined, lemma_joined, texts};
use crate::time::{Span, MAX_NANOS};

verus! {

/// How a recall stands out.
#[derive(Debug, Clone, Copy, PartialEq, Eq, Structural)]
pub enum Shade {
    Red,
    Yellow,
    Green,
    Blue,
    Cyan,
    UnderlinedCyan,
    Plain,
}

impl Shade {
    /// The escape sequence that switches the shade on.
    pub open spec fn escape(self) -> Seq<char> {
        match self {
            Shade::Red => "\x1b[1;31m"@,
            Shade::Yellow => "\x1b[1;33m"@,
            Shade::Green => "\x1b[1;32m"@,
            Shade::Blue => "\x1b[1;34m"@,
            Shade::Cyan => "\x1b[1;36m"@,
            Shade::UnderlinedCyan => "\x1b[1;4;36m"@,
            Shade::Plain => ""@,
        }
    }

    /// The escape sequence that switches the shade on.
    pub fn escape_text(self) -> (text: &'static str)
        ensures
            text@ == self.escape(),
    {
        match self {
            Shade::Red => "\x1b[1;31m",
            Shade::Yellow => "\x1b[1;33m",
            Shade::Green => "\x1b[1;32m",
            Shade::Blue => "\x1b[1;34m",
            Shade::Cyan => "\x1b[1;36m",
            Shade::UnderlinedCyan => "\x1b[1;4;36m",
            Shade::Plain => "",
        }
    }
}

/// The bits of a quarter.
pub const QUARTER: u32 = 0x3e80_0000;

/// The bits of a half.
pub const HALF: u32 = 0x3f00_0000;

/// The bits of three quarters.
pub const THREE_QUARTERS: u32 = 0x3f40_0000;

/// The bits of the number nearest to 0.90.
pub const NINE_TENTHS: u32 = 0x3f66_6666;

/// The bits of the number nearest to 0.999.
pub const ALMOST_ALL: u32 = 0x3f7f_be77;

/// The share of the relevant items that were found, or a negative number
/// where an item came back that was filtered out.
#[derive(Debug, Clone, Copy, PartialEq, Eq, Structural)]
pub struct Recall(pub Single);

impl Recall {
    /// How the recall stands out: the better, the further from red.
    pub open spec fn shade(self) -> Shade {
        let order = self.0.order();
        if self.0.is_nan() {
            Shade::Plain
        } else if order <= QUARTER {
            Shade::Red
        } else if order <= HALF {
            Shade::Yellow
        } else if order <= THREE_QUARTERS {
            Shade::Green
        } else if order <= NINE_TENTHS {
            Shade::Blue
        } else if order <= ALMOST_ALL {
            Shade::Cyan
        } else {
            Shade::UnderlinedCyan
        }
    }

    /// How the recall stands out.
    pub fn shade_of(self) -> (shade: Shade)
        ensures
            shade == self.shade(),
    {
        let rank: i32 = self.0.rank();
        if self.0.nan() {
            Shade::Plain
        } else if rank <= QUARTER as i32 {
            Shade::Red
        } else if rank <= HALF as i32 {
            Shade::Yellow
        } else if rank <= THREE_QUARTERS as i32 {
            Shade::Green
        } else if rank <= NINE_TENTHS as i32 {
            Shade::Blue
        } else if rank <= ALMOST_ALL as i32 {
            Shade::Cyan
        } else {
            Shade::UnderlinedCyan
        }
    }

    /// The recall as reports write it, around its number in digits.
    pub open spec fn shown(self, number: Seq<char>) -> Seq<char> {
        self.shade().escape() + number + "\x1b[0m"@
    }

    /// The recall as reports write it, around its number in digits.
    pub fn to_text(self, number: &str) -> (text: String)
        ensures
            text@ == self.shown(number@),
            text@ == self.shade().escape() + number@ + "\x1b[0m"@,
    {
        let mut text = String::from_str(self.shade_of().escape_text());
        text.append(number);
        text.append("\x1b[0m");
        text
    }
}

/// Which shade a recall has, by its bits: red up to a quarter and below zero,
/// yellow up to a half, green up to three quarters, blue up to 0.90, cyan up to
/// 0.999, and underlined above.
pub proof fn lemma_shade_bounds(recall: Recall)
    ensures
        ({
            let bits = recall.0.bits;
            recall.shade() == if bits as int % 0x8000_0000 > 0x7f80_0000 {
                Shade::Plain
            } else if bits >= 0x8000_0000 || bits <= 0x3e80_0000 {
                Shade::Red
            } else if bits <= 0x3f00_0000 {
                Shade::Yellow
            } else if bits <= 0x3f40_0000 {
                Shade::Green
            } else if bits <= 0x3f66_6666 {
                Shade::Blue
            } else if bits <= 0x3f7f_be77 {
                Shade::Cyan
            } else {
                Shade::UnderlinedCyan
            }
        }),
        forall|number: Seq<char>| #[trigger]
            recall.shown(number) == recall.shade().escape() + number + "\x1b[0m"@,
{
}

/// How far a shade is from red.
pub open spec fn shade_level(shade: Shade) -> int {
    match shade {
        Shade::Red => 0,
        Shade::Yellow => 1,
        Shade::Green => 2,
        Shade::Blue => 3,
        Shade::Cyan => 4,
        Shade::UnderlinedCyan => 5,
        Shade::Plain => 6,
    }
}

/// A greater recall is never shown in a shade nearer to red, and every recall
/// that is a number has a shade.
pub proof fn lemma_shade_follows_recall(a: Recall, b: Recall)
    requires
        !a.0.is_nan(),
        !b.0.is_nan(),
        a.0.order() <= b.0.order(),
    ensures
        shade_level(a.shade()) <= shade_level(b.shade()),
        b.shade() != Shade::Plain,
{
}

/// The recalls of a search, in a list.
pub open spec fn recalls_list(recalls: Seq<Seq<char>>) -> Seq<char> {
    "["@ + joined(recalls, ", "@) + "]"@
}

/// The recalls of a search, in a list.
pub fn recalls_text(recalls: &Vec<String>) -> (text: String)
    ensures
        text@ == recalls_list(texts(recalls@)),
{
    let mut text = String::from_str("[");
    text.append(join(recalls, ", ").as_str());
    text.append("]");
    text
}

/// The list that is written holds every recall, in order: what stands between
/// the brackets is made of all of them, with a comma and a space before each but
/// the first.
pub proof fn lemma_recalls_list(recalls: Seq<Seq<char>>)
    ensures
        recalls_list(recalls).len() >= 2,
        recalls_list(recalls).first() == '[',
        recalls_list(recalls).last() == ']',
        recalls_list(recalls).subrange(1, recalls_list(recalls).len() - 1) == recalls.map(
            |i: int, recall: Seq<char>|
                if i == 0 {
                    recall
                } else {
                    ", "@ + recall
                },
        ).flatten(),
{
    reveal_strlit("[");
    reveal_strlit("]");
    lemma_joined(recalls, ", "@);
    let inner = joined(recalls, ", "@);
    assert(recalls_list(recalls).subrange(1, recalls_list(recalls).len() - 1) =~= inner);
}

/// Splitting what stands between the brackets at its commas gives back the
/// recalls, as many as there are: the first as it is, the others behind a
/// space.
pub proof fn lemma_recalls_are_split_back(recalls: Seq<Seq<char>>)
    requires
        recalls.len() > 0,
        forall|i: int| 0 <= i < recalls.len() ==> !(#[trigger] recalls[i]).contains(','),
    ensures
        pieces(
            recalls_list(recalls).subrange(1, recalls_list(recalls).len() - 1),
        ) == recalls.map(
            |i: int, recall: Seq<char>|
                if i == 0 {
                    recall
                } else {
                    seq![' '] + recall
                },
        ),
{
    lemma_recalls_list(recalls);
    lemma_joined(recalls, ", "@);
    lemma_list_is_split_back(recalls);
}

/// Lists of recalls that read alike are alike: none is lost, added or moved.
pub proof fn lemma_recalls_lists_differ(a: Seq<Seq<char>>, b: Seq<Seq<char>>)
    requires
        a.len() > 0,
        b.len() > 0,
        forall|i: int| 0 <= i < a.len() ==> !(#[trigger] a[i]).contains(','),
        forall|i: int| 0 <= i < b.len() ==> !(#[trigger] b[i]).contains(','),
        recalls_list(a) == recalls_list(b),
    ensures
        a == b,
{
    lemma_recalls_list(a);
    lemma_recalls_list(b);
    lemma_joined(a, ", "@);
    lemma_joined(b, ", "@);
    lemma_lists_differ(a, b);
}

/// A set of ids, as roaring holds it.
#[verifier::external_type_specification]
#[verifier::external_body]
pub struct ExRoaringBitmap(RoaringBitmap);

/// The ids that a bitmap holds.
pub uninterp spec fn bitmap_ids(bitmap: RoaringBitmap) -> Set<u32>;

/// `RoaringBitmap::contains` tells whether the bitmap holds an id.
pub assume_specification[ RoaringBitmap::contains ](bitmap: &RoaringBitmap, value: u32) -> (yes:
    bool)
    ensures
        yes == bitmap_ids(*bitmap).contains(value),
;

/// The first `count` items, or all where there are fewer.
pub open spec fn top(items: Seq<u32>, count: nat) -> Seq<u32> {
    if count <= items.len() {
        items.take(count as int)
    } else {
        items
    }
}

/// The first `count` items, or all where there are fewer.
pub fn top_of(items: &[u32], count: usize) -> (kept: &[u32])
    ensures
        kept@ == top(items@, count as nat),
        kept@ == items@.take(
            if count < items@.len() {
                count as int
            } else {
                items@.len() as int
            },
        ),
{
    assert(items@.take(items@.len() as int) =~= items@);
    if count <= items.len() {
        vstd::slice::slice_subrange(items, 0, count)
    } else {
        items
    }
}

/// Whether the items hold an id.
fn holds(items: &[u32], id: u32) -> (yes: bool)
    ensures
        yes == items@.contains(id),
{
    let mut i: usize = 0;
    while i < items.len()
        invariant
            i <= items@.len(),
            forall|k: int| 0 <= k < i ==> items@[k] != id,
        decreases items@.len() - i,
    {
        if items[i] == id {
            return true;
        }
        i += 1;
    }
    false
}

/// How many of the answered ids are relevant.
pub open spec fn hits(answer: Seq<u32>, relevant: Seq<u32>) -> nat
    decreases answer.len(),
{
    if answer.len() == 0 {
        0
    } else {
        hits(answer.drop_last(), relevant) + if relevant.contains(answer.last()) {
            1nat
        } else {
            0nat
        }
    }
}

/// An id was answered that is neither relevant nor a candidate.
pub open spec fn leaks(answer: Seq<u32>, relevant: Seq<u32>, candidates: Set<u32>) -> bool {
    exists|i: int|
        0 <= i < answer.len() && !relevant.contains(#[trigger] answer[i]) && !candidates.contains(
            answer[i],
        )
}

/// How many of the answered ids are relevant; none where an answered id had
/// been filtered out.
pub open spec fn score(
    answer: Seq<u32>,
    relevant: Seq<u32>,
    candidates: Option<Set<u32>>,
) -> Option<nat> {
    match candidates {
        Some(ids) if leaks(answer, relevant, ids) => None,
        _ => Some(hits(answer, relevant)),
    }
}

/// The ids of the candidates, if there is a filter.
pub open spec fn candidate_ids(candidates: Option<&RoaringBitmap>) -> Option<Set<u32>> {
    match candidates {
        Some(bitmap) => Some(bitmap_ids(*bitmap)),
        None => None,
    }
}

/// The score as a mathematical number.
pub open spec fn score_view(score: Option<u64>) -> Option<nat> {
    match score {
        Some(n) => Some(n as nat),
        None => None,
    }
}

/// Scores an answer to a search for `fetched` items against the relevant ones,
/// nearest first.
pub fn correctly_retrieved(
    answer: &[u32],
    relevants: &[u32],
    candidates: Option<&RoaringBitmap>,
    fetched: usize,
) -> (result: Option<u64>)
    ensures
        score_view(result) == score(
            answer@,
            top(relevants@, fetched as nat),
            candidate_ids(candidates),
        ),
        ({
            let wanted = relevants@.take(
                if fetched < relevants@.len() {
                    fetched as int
                } else {
                    relevants@.len() as int
                },
            );
            &&& result is None <==> (candidates matches Some(bitmap) && exists|i: int|
                0 <= i < answer@.len() && !wanted.contains(#[trigger] answer@[i]) && !bitmap_ids(
                    *bitmap,
                ).contains(answer@[i]))
            &&& result matches Some(n) ==> n == answer@.filter(
                |id: u32| wanted.contains(id),
            ).len()
        }),
{
    let relevants = top_of(relevants, fetched);
    proof {
        lemma_hits_are_positions(answer@, relevants@);
    }
    let mut count: u64 = 0;
    let mut leaked = false;
    let mut i: usize = 0;
    while i < answer.len()
        invariant
            i <= answer@.len(),
            count <= i,
            count == hits(answer@.take(i as int), relevants@),
            leaked == (candidate_ids(candidates) matches Some(ids) && leaks(
                answer@.take(i as int),
                relevants@,
                ids,
            )),
        decreases answer@.len() - i,
    {
        let id: u32 = answer[i];
        let ghost done = answer@.take(i as int);
        let ghost next = answer@.take(i + 1);
        proof {
            assert(next.drop_last() =~= done);
            assert(next.last() == id);
            if let Some(ids) = candidate_ids(candidates) {
                if leaks(done, relevants@, ids) {
                    let k = choose|k: int|
                        0 <= k < done.len() && !relevants@.contains(#[trigger] done[k])
                            && !ids.contains(done[k]);
                    assert(next[k] == done[k]);
                }
                if leaks(next, relevants@, ids) {
                    let k = choose|k: int|
                        0 <= k < next.len() && !relevants@.contains(#[trigger] next[k])
                            && !ids.contains(next[k]);
                    if k < i {
                        assert(done[k] == next[k]);
                    }
                }
            }
        }
        if holds(relevants, id) {
            count += 1;
        } else if let Some(bitmap) = candidates {
            if !bitmap.contains(id) {
                leaked = true;
                assert(next[i as int] == id);
            }
        }
        i += 1;
    }
    assert(answer@.take(answer@.len() as int) =~= answer@);
    if leaked {
        None
    } else {
        Some(count)
    }
}

/// The hits are the positions of the answer that hold a relevant id.
proof fn lemma_hits_are_positions(answer: Seq<u32>, relevant: Seq<u32>)
    ensures
        hits(answer, relevant) == answer.filter(|id: u32| relevant.contains(id)).len(),
    decreases answer.len(),
{
    reveal(Seq::filter);
    if answer.len() > 0 {
        lemma_hits_are_positions(answer.drop_last(), relevant);
    }
}

/// What a score is: there is none exactly if an id was answered that is neither
/// among the relevant ones that were fetched nor a candidate. Otherwise it is
/// the number of positions of the answer whose id is among these; where no id is
/// answered twice, it is the number of ids that the answer and they have in
/// common.
pub proof fn lemma_score_counts(
    answer: Seq<u32>,
    relevants: Seq<u32>,
    fetched: nat,
    candidates: Option<Set<u32>>,
    wanted: Seq<u32>,
)
    requires
        wanted == relevants.take(
            if fetched < relevants.len() {
                fetched as int
            } else {
                relevants.len() as int
            },
        ),
    ensures
        score(answer, top(relevants, fetched), candidates) is None <==> (candidates matches Some(
            ids,
        ) && exists|i: int|
            0 <= i < answer.len() && !wanted.contains(#[trigger] answer[i]) && !ids.contains(
                answer[i],
            )),
        score(answer, top(relevants, fetched), candidates) matches Some(n) ==> n == answer.filter(
            |id: u32| wanted.contains(id),
        ).len(),
        answer.no_duplicates() ==> (score(answer, top(relevants, fetched), candidates) matches Some(
            n,
        ) ==> n == answer.to_set().intersect(wanted.to_set()).len()),
{
    assert(wanted =~= top(relevants, fetched));
    lemma_hits_are_positions(answer, wanted);
    if answer.no_duplicates() {
        lemma_hits_is_intersection(answer, wanted);
    }
}

/// No more ids are found than are answered.
pub proof fn lemma_hits_bound(answer: Seq<u32>, relevant: Seq<u32>)
    ensures
        hits(answer, relevant) <= answer.len(),
    decreases answer.len(),
{
    if answer.len() > 0 {
        lemma_hits_bound(answer.drop_last(), relevant);
    }
}

/// An answer in which no id comes twice finds no more than the `fetched` ids
/// that it is scored against: a recall is at most one.
pub proof fn lemma_recall_at_most_one(answer: Seq<u32>, relevants: Seq<u32>, fetched: nat)
    requires
        answer.no_duplicates(),
    ensures
        hits(answer, top(relevants, fetched)) <= fetched,
{
    let relevant = top(relevants, fetched);
    let found = answer.to_set().intersect(relevant.to_set());
    lemma_hits_is_intersection(answer, relevant);
    vstd::set_lib::lemma_len_subset(found, relevant.to_set());
    relevant.lemma_cardinality_of_set();
}

/// An answer of relevant ids alone finds as many as it has: the recall of an
/// engine that answers with the nearest ids is one.
pub proof fn lemma_right_answer_scores_fully(answer: Seq<u32>, relevant: Seq<u32>)
    requires
        forall|i: int| 0 <= i < answer.len() ==> relevant.contains(#[trigger] answer[i]),
    ensures
        hits(answer, relevant) == answer.len(),
        forall|candidates: Option<Set<u32>>| #[trigger]
            score(answer, relevant, candidates) == Some(answer.len()),
    decreases answer.len(),
{
    if answer.len() > 0 {
        let rest = answer.drop_last();
        assert forall|i: int| 0 <= i < rest.len() implies relevant.contains(#[trigger] rest[i]) by {
            assert(rest[i] == answer[i]);
        }
        lemma_right_answer_scores_fully(rest, relevant);
        assert(relevant.contains(answer[answer.len() - 1]));
    }
}

proof fn lemma_hits_is_intersection(answer: Seq<u32>, relevant: Seq<u32>)
    requires
        answer.no_duplicates(),
    ensures
        answer.to_set().intersect(relevant.to_set()).finite(),
        hits(answer, relevant) == answer.to_set().intersect(relevant.to_set()).len(),
    decreases answer.len(),
{
    let set = relevant.to_set();
    if answer.len() == 0 {
        assert(answer.to_set().intersect(set) =~= Set::empty());
    } else {
        let rest = answer.drop_last();
        let last = answer.last();
        lemma_hits_is_intersection(rest, relevant);
        assert(!rest.to_set().contains(last)) by {
            if rest.contains(last) {
                let k = rest.index_of(last);
                assert(answer[k] == answer[answer.len() - 1]);
            }
        }
        assert(answer.to_set() =~= rest.to_set().insert(last)) by {
            assert(answer =~= rest.push(last));
            assert forall|x: u32| answer.to_set().contains(x) <==> rest.to_set().insert(
                last,
            ).contains(x) by {
                if answer.contains(x) && x != last {
                    let k = answer.index_of(x);
                    assert(rest[k] == x);
                }
                if rest.contains(x) {
                    let k = rest.index_of(x);
                    assert(answer[k] == x);
                }
                assert(answer[answer.len() - 1] == last);
            }
        }
        if relevant.contains(last) {
            assert(answer.to_set().intersect(set) =~= rest.to_set().intersect(set).insert(last));
        } else {
            assert(answer.to_set().intersect(set) =~= rest.to_set().intersect(set));
        }
    }
}

/// What one query, or several together, came to: the score and the time.
#[derive(Debug, Clone, Copy)]
pub struct QueryOutcome {
    pub retrieved: Option<u64>,
    pub time: Span,
}

impl View for QueryOutcome {
    type V = (Option<nat>, nat);

    open spec fn view(&self) -> (Option<nat>, nat) {
        (score_view(self.retrieved), self.time@)
    }
}

/// What no query comes to.
pub open spec fn nothing() -> (Option<nat>, nat) {
    (Some(0), 0)
}

/// What two parts come to together. A part without a score leaves the whole
/// without one.
pub open spec fn together(a: (Option<nat>, nat), b: (Option<nat>, nat)) -> (Option<nat>, nat) {
    let retrieved = match (a.0, b.0) {
        (Some(x), Some(y)) => Some(x + y),
        _ => None,
    };
    (retrieved, a.1 + b.1)
}

/// What all of the outcomes come to.
pub open spec fn all_together(outcomes: Seq<(Option<nat>, nat)>) -> (Option<nat>, nat)
    decreases outcomes.len(),
{
    if outcomes.len() == 0 {
        nothing()
    } else {
        together(all_together(outcomes.drop_last()), outcomes.last())
    }
}

/// It does not matter how parts are bracketed.
pub proof fn lemma_together_associative(
    a: (Option<nat>, nat),
    b: (Option<nat>, nat),
    c: (Option<nat>, nat),
)
    ensures
        together(together(a, b), c) == together(a, together(b, c)),
{
}

/// It does not matter in which order two parts come.
pub proof fn lemma_together_commutative(a: (Option<nat>, nat), b: (Option<nat>, nat))
    ensures
        together(a, b) == together(b, a),
{
}

/// What no query comes to changes nothing.
pub proof fn lemma_together_identity(a: (Option<nat>, nat))
    ensures
        together(nothing(), a) == a,
        together(a, nothing()) == a,
{
}

/// However the queries are split up among workers, the parts come to what all
/// of them come to.
pub proof fn lemma_split_work(a: Seq<(Option<nat>, nat)>, b: Seq<(Option<nat>, nat)>)
    ensures
        all_together(a + b) == together(all_together(a), all_together(b)),
    decreases b.len(),
{
    if b.len() == 0 {
        assert(a + b =~= a);
    } else {
        assert((a + b).drop_last() =~= a + b.drop_last());
        lemma_split_work(a, b.drop_last());
    }
}

/// A single query that returned a filtered item leaves all queries without a
/// score.
pub proof fn lemma_one_leak_spoils_all(outcomes: Seq<(Option<nat>, nat)>)
    ensures
        all_together(outcomes).0 is None <==> exists|i: int|
            0 <= i < outcomes.len() && (#[trigger] outcomes[i]).0 is None,
    decreases outcomes.len(),
{
    if outcomes.len() > 0 {
        let rest = outcomes.drop_last();
        lemma_one_leak_spoils_all(rest);
        if all_together(rest).0 is None {
            let k = choose|k: int| 0 <= k < rest.len() && (#[trigger] rest[k]).0 is None;
            assert(outcomes[k].0 is None);
        }
        if exists|i: int| 0 <= i < outcomes.len() && (#[trigger] outcomes[i]).0 is None {
            let k = choose|i: int| 0 <= i < outcomes.len() && (#[trigger] outcomes[i]).0 is None;
            if k < rest.len() {
                assert(rest[k].0 is None);
            }
        }
    }
}

/// The scores added up, those that are missing left out.
pub open spec fn score_sum(outcomes: Seq<(Option<nat>, nat)>) -> nat
    decreases outcomes.len(),
{
    if outcomes.len() == 0 {
        0
    } else {
        score_sum(outcomes.drop_last()) + match outcomes.last().0 {
            Some(n) => n,
            None => 0,
        }
    }
}

/// The outcomes as mathematical values.
pub open spec fn outcome_views(outcomes: Seq<QueryOutcome>) -> Seq<(Option<nat>, nat)> {
    Seq::new(outcomes.len(), |i: int| outcomes[i]@)
}

/// What the outcomes come to, and every part of it, can be held.
pub open spec fn can_be_held(outcomes: Seq<(Option<nat>, nat)>) -> bool {
    score_sum(outcomes) <= u64::MAX && all_together(outcomes).1 <= MAX_NANOS
}

/// What all outcomes come to, with one of them taken out and put back last.
proof fn lemma_taken_out(outcomes: Seq<(Option<nat>, nat)>, k: int)
    requires
        0 <= k < outcomes.len(),
    ensures
        all_together(outcomes) == together(all_together(outcomes.remove(k)), outcomes[k]),
        score_sum(outcomes) == score_sum(outcomes.remove(k)) + match outcomes[k].0 {
            Some(n) => n,
            None => 0,
        },
    decreases outcomes.len(),
{
    if k == outcomes.len() - 1 {
        assert(outcomes.remove(k) =~= outcomes.drop_last());
    } else {
        let rest = outcomes.drop_last();
        lemma_taken_out(rest, k);
        assert(outcomes.remove(k).drop_last() =~= rest.remove(k));
        assert(outcomes.remove(k).last() == outcomes.last());
    }
}

/// The order of the queries does not matter: the same outcomes in another
/// order come to the same, and can be held alike.
pub proof fn lemma_order_does_not_matter(
    a: Seq<(Option<nat>, nat)>,
    b: Seq<(Option<nat>, nat)>,
)
    requires
        a.to_multiset() == b.to_multiset(),
    ensures
        a.len() == b.len(),
        all_together(a) == all_together(b),
        score_sum(a) == score_sum(b),
        can_be_held(a) == can_be_held(b),
    decreases b.len(),
{
    broadcast use vstd::seq_lib::group_to_multiset_ensures;

    assert(a.to_multiset().len() == a.len());
    assert(b.to_multiset().len() == b.len());
    if b.len() > 0 {
        let last = b.last();
        assert(b.contains(last));
        assert(a.to_multiset().count(last) > 0);
        assert(a.contains(last));
        let k = a.index_of(last);
        let rest = b.drop_last();
        assert(b.remove(b.len() - 1) =~= rest);
        assert(a.remove(k).to_multiset() =~= rest.to_multiset());
        lemma_order_does_not_matter(a.remove(k), rest);
        lemma_taken_out(a, k);
    }
}

/// What all queries come to: their times added up; no score where one of them
/// has none, and otherwise their scores added up. It can be held if both sums
/// can.
pub proof fn lemma_all_together(outcomes: Seq<QueryOutcome>)
    ensures
        all_together(outcome_views(outcomes)).1 == outcomes.fold_left(
            0int,
            |sum: int, outcome: QueryOutcome| sum + outcome.time@,
        ),
        all_together(outcome_views(outcomes)).0 is None <==> exists|i: int|
            0 <= i < outcomes.len() && (#[trigger] outcomes[i]).retrieved is None,
        all_together(outcome_views(outcomes)).0 matches Some(n) ==> n == outcomes.fold_left(
            0int,
            |sum: int, outcome: QueryOutcome| sum + outcome.retrieved->0,
        ),
        can_be_held(outcome_views(outcomes)) <==> {
            &&& outcomes.fold_left(0int, |sum: int, outcome: QueryOutcome| sum + outcome.time@)
                <= MAX_NANOS
            &&& outcomes.fold_left(
                0int,
                |sum: int, outcome: QueryOutcome|
                    if outcome.retrieved is Some {
                        sum + outcome.retrieved->0
                    } else {
                        sum
                    },
            ) <= u64::MAX
        },
{
    lemma_sums(outcomes);
}

proof fn lemma_sums(outcomes: Seq<QueryOutcome>)
    ensures
        all_together(outcome_views(outcomes)).1 == outcomes.fold_left(
            0int,
            |sum: int, outcome: QueryOutcome| sum + outcome.time@,
        ),
        all_together(outcome_views(outcomes)).0 is None <==> exists|i: int|
            0 <= i < outcomes.len() && (#[trigger] outcomes[i]).retrieved is None,
        all_together(outcome_views(outcomes)).0 matches Some(n) ==> n == outcomes.fold_left(
            0int,
            |sum: int, outcome: QueryOutcome| sum + outcome.retrieved->0,
        ),
        score_sum(outcome_views(outcomes)) == outcomes.fold_left(
            0int,
            |sum: int, outcome: QueryOutcome|
                if outcome.retrieved is Some {
                    sum + outcome.retrieved->0
                } else {
                    sum
                },
        ),
    decreases outcomes.len(),
{
    reveal_with_fuel(Seq::fold_left, 1);
    if outcomes.len() > 0 {
        let rest = outcomes.drop_last();
        let last = outcomes.last();
        lemma_sums(rest);
        assert(outcome_views(outcomes).drop_last() =~= outcome_views(rest));
        assert(outcome_views(outcomes).last() == last@);
        if exists|i: int| 0 <= i < outcomes.len() && (#[trigger] outcomes[i]).retrieved is None {
            let k = choose|i: int|
                0 <= i < outcomes.len() && (#[trigger] outcomes[i]).retrieved is None;
            if k < rest.len() {
                assert(rest[k].retrieved is None);
            }
        }
        if exists|i: int| 0 <= i < rest.len() && (#[trigger] rest[i]).retrieved is None {
            let k = choose|i: int| 0 <= i < rest.len() && (#[trigger] rest[i]).retrieved is None;
            assert(outcomes[k].retrieved is None);
        }
        if last.retrieved is None {
            assert(outcomes[outcomes.len() - 1].retrieved is None);
        }
    }
}

impl QueryOutcome {
    /// What no query comes to.
    pub fn none() -> (outcome: QueryOutcome)
        ensures
            outcome@ == nothing(),
            outcome.retrieved == Some(0u64),
            outcome.time@ == 0,
    {
        QueryOutcome { retrieved: Some(0), time: Span::zero() }
    }

    /// What two parts come to together.
    pub fn and(self, other: QueryOutcome) -> (outcome: QueryOutcome)
        requires
            self@.0 matches Some(a) ==> (other@.0 matches Some(b) ==> a + b <= u64::MAX),
            self@.1 + other@.1 <= MAX_NANOS,
        ensures
            outcome@ == together(self@, other@),
            outcome.time@ == self.time@ + other.time@,
            outcome.retrieved is Some <==> self.retrieved is Some && other.retrieved is Some,
            outcome.retrieved is Some ==> outcome.retrieved->0 == self.retrieved->0
                + other.retrieved->0,
    {
        let retrieved = match (self.retrieved, other.retrieved) {
            (Some(a), Some(b)) => Some(a + b),
            _ => None,
        };
        QueryOutcome { retrieved, time: self.time.plus(other.time) }
    }
}

/// The time of all queries, if what they come to can be held.
pub fn time_if_held(outcomes: &Vec<QueryOutcome>) -> (time: Option<Span>)
    ensures
        time is Some <==> can_be_held(outcome_views(outcomes@)),
        time matches Some(t) ==> t@ == all_together(outcome_views(outcomes@)).1,
{
    let ghost all = outcome_views(outcomes@);
    let mut scores: u64 = 0;
    let mut time = Span::zero();
    let mut i: usize = 0;
    while i < outcomes.len()
        invariant
            i <= outcomes@.len(),
            all == outcome_views(outcomes@),
            scores == score_sum(all.take(i as int)),
            time@ == all_together(all.take(i as int)).1,
            time@ <= MAX_NANOS,
        decreases outcomes@.len() - i,
    {
        let outcome = outcomes[i];
        proof {
            assert(all.take(i + 1).drop_last() =~= all.take(i as int));
            assert(all.take(i + 1).last() == outcome@);
            lemma_sums_grow(all, i + 1);
        }
        let own: u64 = match outcome.retrieved {
            Some(n) => n,
            None => 0,
        };
        if own > u64::MAX - scores {
            return None;
        }
        if !time.can_add(outcome.time) {
            return None;
        }
        scores += own;
        time = time.plus(outcome.time);
        i += 1;
    }
    assert(all.take(all.len() as int) =~= all);
    Some(time)
}

/// More queries have no smaller sums.
proof fn lemma_sums_grow(outcomes: Seq<(Option<nat>, nat)>, n: int)
    requires
        0 <= n <= outcomes.len(),
    ensures
        score_sum(outcomes.take(n)) <= score_sum(outcomes),
        all_together(outcomes.take(n)).1 <= all_together(outcomes).1,
    decreases outcomes.len(),
{
    if n == outcomes.len() {
        assert(outcomes.take(n) =~= outcomes);
    } else {
        assert(outcomes.drop_last().take(n) =~= outcomes.take(n));
        lemma_sums_grow(outcomes.drop_last(), n);
    }
}

/// `ParallelIterator::reduce` puts the items together with the given
/// operation, neighbours with neighbours, in an order that is left open, and
/// may put the given identity between them. `QueryOutcome::and` is associative
/// and `QueryOutcome::none` its identity, so that every order comes to the
/// same. The sums of all items can be held, and so can those of a part.
#[verifier::external_body]
fn reduce_in_parallel(outcomes: Vec<QueryOutcome>) -> (outcome: QueryOutcome)
    requires
        can_be_held(outcome_views(outcomes@)),
    ensures
        outcome@ == all_together(outcome_views(outcomes@)),
{
    outcomes.into_par_iter().reduce(|| QueryOutcome::none(), |a, b| a.and(b))
}

/// What all of the queries come to.
pub fn reduce_outcomes(outcomes: Vec<QueryOutcome>) -> (outcome: QueryOutcome)
    requires
        can_be_held(outcome_views(outcomes@)),
    ensures
        outcome@ == all_together(outcome_views(outcomes@)),
        outcome.time@ == outcomes@.fold_left(
            0int,
            |sum: int, outcome: QueryOutcome| sum + outcome.time@,
        ),
        outcome.retrieved is None <==> exists|i: int|
            0 <= i < outcomes@.len() && (#[trigger] outcomes@[i]).retrieved is None,
        outcome.retrieved matches Some(n) ==> n == outcomes@.fold_left(
            0int,
            |sum: int, outcome: QueryOutcome| sum + outcome.retrieved->0,
        ),
{
    proof {
        lemma_all_together(outcomes@);
    }
    reduce_in_parallel(outcomes)
}

} // verus!
