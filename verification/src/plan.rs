//! Which dataset is run with which distance, in which order.

use vstd::prelude::*;

use itertools::Itertools;
use slice_group_by::GroupBy;

use crate::scenarios::{all_datasets, all_distances, Dataset, ScenarioDistance};

verus! {

/// What was chosen, or everything where nothing was.
pub fn set_or_all<S>(chosen: Vec<S>, all: Vec<S>) -> (list: Vec<S>)
    ensures
        list@ == if chosen@.len() == 0 {
            all@
        } else {
            chosen@
        },
{
    if chosen.is_empty() {
        all
    } else {
        chosen
    }
}

/// The datasets to run: all of them where none was chosen.
pub fn datasets_to_run(chosen: Vec<Dataset>) -> (list: Vec<Dataset>)
    ensures
        list@ == if chosen@.len() == 0 {
            all_datasets()
        } else {
            chosen@
        },
{
    set_or_all(chosen, Dataset::all())
}

/// The distances to run: all of them where none was chosen.
pub fn distances_to_run(chosen: Vec<ScenarioDistance>) -> (list: Vec<ScenarioDistance>)
    ensures
        list@ == if chosen@.len() == 0 {
            all_distances()
        } else {
            chosen@
        },
{
    set_or_all(chosen, ScenarioDistance::all())
}

/// One run: a dataset and a distance.
#[derive(Debug, Clone, Copy, PartialEq, Eq, Structural)]
pub struct PlannedRun {
    pub dataset: Dataset,
    pub distance: ScenarioDistance,
    /// Whether the dataset is to be announced first.
    pub header: bool,
}

impl PlannedRun {
    /// The places of the dataset and of the distance.
    pub open spec fn key(self) -> (usize, usize) {
        (self.dataset.place(), self.distance.place())
    }
}

/// One pair of places comes before another.
pub open spec fn before(a: (usize, usize), b: (usize, usize)) -> bool {
    a.0 < b.0 || (a.0 == b.0 && a.1 < b.1)
}

/// The plan for the chosen datasets and distances: every pair once, in order,
/// and a header wherever the dataset changes.
pub open spec fn is_plan(
    datasets: Seq<Dataset>,
    distances: Seq<ScenarioDistance>,
    runs: Seq<PlannedRun>,
) -> bool {
    &&& forall|i: int, j: int|
        0 <= i < j < runs.len() ==> before(#[trigger] runs[i].key(), #[trigger] runs[j].key())
    &&& forall|i: int|
        0 <= i < runs.len() ==> datasets.contains((#[trigger] runs[i]).dataset)
            && distances.contains(runs[i].distance)
    &&& forall|dataset: Dataset, distance: ScenarioDistance|
        datasets.contains(dataset) && distances.contains(distance) ==> exists|i: int|
            0 <= i < runs.len() && (#[trigger] runs[i]).dataset == dataset && runs[i].distance
                == distance
    &&& forall|i: int| 0 <= i < runs.len() ==> runs[i].header == #[trigger] dataset_changes(runs, i)
}

/// The dataset of run `i` is not that of the run before.
pub open spec fn dataset_changes(runs: Seq<PlannedRun>, i: int) -> bool {
    i == 0 || runs[i - 1].dataset != runs[i].dataset
}

/// Pairs of places in ascending order, the datasets first.
pub open spec fn ascending(pairs: Seq<(usize, usize)>) -> bool {
    forall|i: int, j: int|
        0 <= i < j < pairs.len() ==> #[trigger] pairs[i] == #[trigger] pairs[j] || before(
            pairs[i],
            pairs[j],
        )
}

/// `Itertools::sorted` hands the items out in ascending order: the same pairs,
/// each as often as before, ordered as tuples are.
#[verifier::external_body]
fn sorted_pairs(pairs: Vec<(usize, usize)>) -> (sorted: Vec<(usize, usize)>)
    ensures
        sorted@.to_multiset() == pairs@.to_multiset(),
        ascending(sorted@),
{
    pairs.into_iter().sorted().collect()
}

/// Whether two runs are the same.
fn same_run(a: &(usize, usize), b: &(usize, usize)) -> (same: bool)
    ensures
        same == (*a == *b),
{
    a.0 == b.0 && a.1 == b.1
}

/// The length of the first `n` groups together.
pub open spec fn group_start(lengths: Seq<usize>, n: nat) -> nat
    decreases n,
{
    if n == 0 {
        0
    } else {
        group_start(lengths, (n - 1) as nat) + lengths[n - 1] as nat
    }
}

/// The groups of equal neighbours have these lengths: none is empty, together
/// they are all pairs, and one starts behind each two neighbours that differ.
pub open spec fn grouped(pairs: Seq<(usize, usize)>, lengths: Seq<usize>) -> bool {
    &&& forall|k: int| 0 <= k < lengths.len() ==> #[trigger] lengths[k] > 0
    &&& group_start(lengths, lengths.len()) == pairs.len()
    &&& forall|p: int|
        0 < p < pairs.len() ==> (pairs[p] != pairs[p - 1] <==> #[trigger] starts_group(lengths, p))
}

/// A group starts at position `p`.
pub open spec fn starts_group(lengths: Seq<usize>, p: int) -> bool {
    exists|k: nat| k < lengths.len() && #[trigger] group_start(lengths, k) == p
}

/// `GroupBy::linear_group_by` cuts a slice into groups that are not empty and
/// together make up the slice, and puts a cut between two neighbours exactly
/// where the predicate does not hold of them. The groups are given by their
/// lengths.
#[verifier::external_body]
fn group_lengths(pairs: &Vec<(usize, usize)>) -> (lengths: Vec<usize>)
    ensures
        grouped(pairs@, lengths@),
{
    pairs.linear_group_by(|a, b| same_run(a, b)).map(|group| group.len()).collect()
}

/// Later groups start later.
proof fn lemma_group_starts(lengths: Seq<usize>, a: nat, b: nat)
    requires
        a <= b <= lengths.len(),
        forall|k: int| 0 <= k < lengths.len() ==> #[trigger] lengths[k] > 0,
    ensures
        group_start(lengths, a) <= group_start(lengths, b),
        a < b ==> group_start(lengths, a) < group_start(lengths, b),
    decreases b - a,
{
    if a < b {
        lemma_group_starts(lengths, a, (b - 1) as nat);
        assert(lengths[b - 1] > 0);
    }
}

/// Within a group all items are the same.
proof fn lemma_group_same(pairs: Seq<(usize, usize)>, lengths: Seq<usize>, g: nat, q: int)
    requires
        g < lengths.len(),
        grouped(pairs, lengths),
        group_start(lengths, g) <= q < group_start(lengths, g + 1),
    ensures
        q < pairs.len(),
        pairs[q] == pairs[group_start(lengths, g) as int],
    decreases q,
{
    lemma_group_starts(lengths, g + 1, lengths.len());
    if q > group_start(lengths, g) {
        lemma_group_same(pairs, lengths, g, q - 1);
        if starts_group(lengths, q) {
            let k = choose|k: nat| k < lengths.len() && #[trigger] group_start(lengths, k) == q;
            if k <= g {
                lemma_group_starts(lengths, k, g);
            } else {
                lemma_group_starts(lengths, g + 1, k);
            }
        }
    }
}

/// Every position lies in a group.
proof fn lemma_group_of(lengths: Seq<usize>, n: nat, q: int) -> (g: nat)
    requires
        n <= lengths.len(),
        0 <= q < group_start(lengths, n),
    ensures
        g < n,
        group_start(lengths, g) <= q < group_start(lengths, g + 1),
    decreases n,
{
    let last = (n - 1) as nat;
    if q >= group_start(lengths, last) {
        last
    } else {
        lemma_group_of(lengths, last, q)
    }
}

/// What comes before the start of a group comes before it in the order.
proof fn lemma_group_ascends(pairs: Seq<(usize, usize)>, lengths: Seq<usize>, a: nat, b: nat)
    requires
        a < b < lengths.len(),
        grouped(pairs, lengths),
        ascending(pairs),
    ensures
        group_start(lengths, a) < group_start(lengths, b) < pairs.len(),
        before(
            pairs[group_start(lengths, a) as int],
            pairs[group_start(lengths, b) as int],
        ),
{
    lemma_group_starts(lengths, a, b);
    lemma_group_starts(lengths, b, lengths.len());
    let s = group_start(lengths, a) as int;
    let t = group_start(lengths, b) as int;
    assert(starts_group(lengths, t));
    assert(pairs[t] != pairs[t - 1]);
    assert(before(pairs[t - 1], pairs[t]));
    assert(s < t - 1 ==> pairs[s] == pairs[t - 1] || before(pairs[s], pairs[t - 1]));
}

/// The places of a chosen dataset and a chosen distance.
pub open spec fn is_choice(
    datasets: Seq<Dataset>,
    distances: Seq<ScenarioDistance>,
    pair: (usize, usize),
) -> bool {
    exists|dataset: Dataset, distance: ScenarioDistance| #[trigger]
        datasets.contains(dataset) && #[trigger] distances.contains(distance) && pair == (
            dataset.place(),
            distance.place(),
        )
}

/// The pairs are the choices.
spec fn covers(
    datasets: Seq<Dataset>,
    distances: Seq<ScenarioDistance>,
    pairs: Seq<(usize, usize)>,
) -> bool {
    forall|pair: (usize, usize)| #[trigger]
        pairs.contains(pair) <==> is_choice(datasets, distances, pair)
}

/// All pairs of a chosen dataset and a chosen distance.
fn product(datasets: &Vec<Dataset>, distances: &Vec<ScenarioDistance>) -> (pairs: Vec<
    (usize, usize),
>)
    ensures
        covers(datasets@, distances@, pairs@),
{
    let mut pairs: Vec<(usize, usize)> = Vec::new();
    let mut i: usize = 0;
    while i < datasets.len()
        invariant
            i <= datasets@.len(),
            forall|k: int|
                0 <= k < pairs@.len() ==> is_choice(datasets@, distances@, #[trigger] pairs@[k]),
            forall|a: int, b: int|
                0 <= a < i && 0 <= b < distances@.len() ==> pairs@.contains(
                    ((#[trigger] datasets@[a]).place(), (#[trigger] distances@[b]).place()),
                ),
        decreases datasets@.len() - i,
    {
        let mut j: usize = 0;
        while j < distances.len()
            invariant
                i < datasets@.len(),
                j <= distances@.len(),
                forall|k: int|
                    0 <= k < pairs@.len() ==> is_choice(
                        datasets@,
                        distances@,
                        #[trigger] pairs@[k],
                    ),
                forall|a: int, b: int|
                    0 <= a < datasets@.len() && 0 <= b < distances@.len() && (a < i || (a == i && b
                        < j)) ==> pairs@.contains(
                        ((#[trigger] datasets@[a]).place(), (#[trigger] distances@[b]).place()),
                    ),
            decreases distances@.len() - j,
        {
            let ghost earlier = pairs@;
            let pair = (datasets[i].rank(), distances[j].rank());
            pairs.push(pair);
            proof {
                assert(datasets@.contains(datasets@[i as int]));
                assert(distances@.contains(distances@[j as int]));
                assert(is_choice(datasets@, distances@, pair));
                assert forall|a: int, b: int|
                    0 <= a < datasets@.len() && 0 <= b < distances@.len() && (a < i || (a == i && b
                        < j + 1)) implies pairs@.contains(
                    ((#[trigger] datasets@[a]).place(), (#[trigger] distances@[b]).place()),
                ) by {
                    let wanted = (datasets@[a].place(), distances@[b].place());
                    if a == i && b == j {
                        assert(pairs@[earlier.len() as int] == wanted);
                    } else {
                        assert(earlier.contains(wanted));
                        assert(pairs@[earlier.index_of(wanted)] == wanted);
                    }
                }
            }
            j += 1;
        }
        i += 1;
    }
    proof {
        assert forall|pair: (usize, usize)| #[trigger] pairs@.contains(pair) <==> is_choice(
            datasets@,
            distances@,
            pair,
        ) by {
            if is_choice(datasets@, distances@, pair) {
                let (dataset, distance) = choose|dataset: Dataset, distance: ScenarioDistance|
                    #[trigger] datasets@.contains(dataset) && #[trigger] distances@.contains(
                        distance,
                    ) && pair == (dataset.place(), distance.place());
                let a = datasets@.index_of(dataset);
                let b = distances@.index_of(distance);
                assert(pairs@.contains((datasets@[a].place(), distances@[b].place())));
            }
        }
    }
    pairs
}

/// A dataset and a distance are known by their places.
proof fn lemma_places(a: Dataset, b: Dataset, c: ScenarioDistance, d: ScenarioDistance)
    ensures
        a.place() == b.place() <==> a == b,
        c.place() == d.place() <==> c == d,
        a.place() < 6,
        c.place() < 7,
{
}

/// The first run of each group, with a header wherever the dataset changes.
fn first_runs(
    datasets: &Vec<Dataset>,
    distances: &Vec<ScenarioDistance>,
    pairs: &Vec<(usize, usize)>,
    lengths: &Vec<usize>,
) -> (runs: Vec<PlannedRun>)
    requires
        covers(datasets@, distances@, pairs@),
        ascending(pairs@),
        grouped(pairs@, lengths@),
    ensures
        is_plan(datasets@, distances@, runs@),
{
    let mut runs: Vec<PlannedRun> = Vec::new();
    let mut previous: Option<Dataset> = None;
    let count: usize = pairs.len();
    let mut start: usize = 0;
    let mut g: usize = 0;
    while g < lengths.len()
        invariant
            g <= lengths@.len(),
            count == pairs@.len(),
            start == group_start(lengths@, g as nat),
            runs@.len() == g,
            covers(datasets@, distances@, pairs@),
            ascending(pairs@),
            grouped(pairs@, lengths@),
            previous == if g == 0 {
                None
            } else {
                Some(runs@[g - 1].dataset)
            },
            forall|i: int|
                0 <= i < g ==> (#[trigger] runs@[i]).key() == pairs@[group_start(
                    lengths@,
                    i as nat,
                ) as int],
            forall|i: int|
                0 <= i < g ==> datasets@.contains((#[trigger] runs@[i]).dataset)
                    && distances@.contains(runs@[i].distance),
            forall|i: int| 0 <= i < g ==> runs@[i].header == #[trigger] dataset_changes(runs@, i),
        decreases lengths@.len() - g,
    {
        let ghost pair = pairs@[start as int];
        let ghost (chosen, by) = choose|dataset: Dataset, distance: ScenarioDistance|
            #[trigger] datasets@.contains(dataset) && #[trigger] distances@.contains(distance)
                && pair == (dataset.place(), distance.place());
        proof {
            lemma_group_starts(lengths@, g as nat, lengths@.len());
            lemma_group_starts(lengths@, (g + 1) as nat, lengths@.len());
            assert(pairs@.contains(pair));
            assert(is_choice(datasets@, distances@, pair));
            lemma_places(chosen, chosen, by, by);
        }
        let dataset = Dataset::at_rank(pairs[start].0);
        let distance = ScenarioDistance::at_rank(pairs[start].1);
        if let (Some(dataset), Some(distance)) = (dataset, distance) {
            proof {
                lemma_places(chosen, dataset, by, distance);
            }
            let header = match previous {
                None => true,
                Some(last) => last != dataset,
            };
            let ghost earlier = runs@;
            runs.push(PlannedRun { dataset, distance, header });
            previous = Some(dataset);
            assert forall|i: int| 0 <= i < g + 1 implies runs@[i].header
                == #[trigger] dataset_changes(runs@, i) by {
                if i < g {
                    assert(earlier[i].header == dataset_changes(earlier, i));
                }
            }
        }
        assert(group_start(lengths@, (g + 1) as nat) == start + lengths@[g as int]);
        start += lengths[g];
        g += 1;
    }
    proof {
        assert forall|i: int, j: int| 0 <= i < j < runs@.len() implies before(
            #[trigger] runs@[i].key(),
            #[trigger] runs@[j].key(),
        ) by {
            lemma_group_ascends(pairs@, lengths@, i as nat, j as nat);
        }
        assert forall|dataset: Dataset, distance: ScenarioDistance|
            datasets@.contains(dataset) && distances@.contains(distance) implies exists|i: int|
            0 <= i < runs@.len() && (#[trigger] runs@[i]).dataset == dataset && runs@[i].distance
                == distance by {
            let wanted = (dataset.place(), distance.place());
            assert(is_choice(datasets@, distances@, wanted));
            assert(pairs@.contains(wanted));
            let q = pairs@.index_of(wanted);
            let i = lemma_group_of(lengths@, lengths@.len(), q);
            lemma_group_same(pairs@, lengths@, i, q);
            assert(runs@[i as int].key() == wanted);
            lemma_places(runs@[i as int].dataset, dataset, runs@[i as int].distance, distance);
        }
    }
    runs
}

/// Plans the runs.
pub fn plan_runs(datasets: &Vec<Dataset>, distances: &Vec<ScenarioDistance>) -> (runs: Vec<
    PlannedRun,
>)
    ensures
        is_plan(datasets@, distances@, runs@),
{
    let pairs = product(datasets, distances);
    let ghost unsorted = pairs@;
    let pairs = sorted_pairs(pairs);
    proof {
        broadcast use vstd::seq_lib::group_to_multiset_ensures;

        assert forall|pair: (usize, usize)| #[trigger] pairs@.contains(pair) <==> is_choice(
            datasets@,
            distances@,
            pair,
        ) by {
            assert(pairs@.contains(pair) <==> pairs@.to_multiset().count(pair) > 0);
            assert(unsorted.contains(pair) <==> unsorted.to_multiset().count(pair) > 0);
        }
    }
    let lengths = group_lengths(&pairs);
    first_runs(datasets, distances, &pairs, &lengths)
}

/// What a plan is: every pair of a chosen dataset and a chosen distance is run
/// once, and nothing else is. Datasets come in their order, and for each of them
/// the distances in theirs. A dataset is announced with its first run, and only
/// then.
pub proof fn lemma_plan(
    datasets: Seq<Dataset>,
    distances: Seq<ScenarioDistance>,
    runs: Seq<PlannedRun>,
)
    requires
        is_plan(datasets, distances, runs),
    ensures
        forall|dataset: Dataset, distance: ScenarioDistance|
            #![trigger datasets.contains(dataset), distances.contains(distance)]
            datasets.contains(dataset) && distances.contains(distance) <==> runs.map_values(
                |run: PlannedRun| (run.dataset, run.distance),
            ).contains((dataset, distance)),
        runs.map_values(|run: PlannedRun| (run.dataset, run.distance)).no_duplicates(),
        forall|i: int, j: int|
            0 <= i < j < runs.len() ==> {
                ||| (#[trigger] runs[i]).dataset.place() < (#[trigger] runs[j]).dataset.place()
                ||| runs[i].dataset == runs[j].dataset && runs[i].distance.place()
                    < runs[j].distance.place()
            },
        runs.len() > 0 ==> runs[0].header,
        forall|i: int, j: int|
            0 <= i && j == i + 1 && j < runs.len() ==> ((#[trigger] runs[j]).header <==> (
            #[trigger] runs[i]).dataset != runs[j].dataset),
{
    let pairs = runs.map_values(|run: PlannedRun| (run.dataset, run.distance));
    assert forall|i: int, j: int| 0 <= i < j < runs.len() implies {
        ||| (#[trigger] runs[i]).dataset.place() < (#[trigger] runs[j]).dataset.place()
        ||| runs[i].dataset == runs[j].dataset && runs[i].distance.place()
            < runs[j].distance.place()
    } by {
        assert(before(runs[i].key(), runs[j].key()));
        lemma_places(runs[i].dataset, runs[j].dataset, runs[i].distance, runs[j].distance);
    }
    assert forall|i: int, j: int|
        0 <= i < pairs.len() && 0 <= j < pairs.len() && i != j implies pairs[i] != pairs[j] by {
        if i < j {
            assert(before(runs[i].key(), runs[j].key()));
        } else {
            assert(before(runs[j].key(), runs[i].key()));
        }
    }
    assert forall|dataset: Dataset, distance: ScenarioDistance|
        #![trigger datasets.contains(dataset), distances.contains(distance)]
        datasets.contains(dataset) && distances.contains(distance) <==> pairs.contains(
            (dataset, distance),
        ) by {
        if datasets.contains(dataset) && distances.contains(distance) {
            let i = choose|i: int|
                0 <= i < runs.len() && (#[trigger] runs[i]).dataset == dataset && runs[i].distance
                    == distance;
            assert(pairs[i] == (dataset, distance));
        }
        if pairs.contains((dataset, distance)) {
            let i = pairs.index_of((dataset, distance));
            assert(pairs[i] == (runs[i].dataset, runs[i].distance));
        }
    }
    if runs.len() > 0 {
        assert(dataset_changes(runs, 0));
    }
    assert forall|i: int, j: int| 0 <= i && j == i + 1 && j < runs.len() implies ((
    #[trigger] runs[j]).header <==> (#[trigger] runs[i]).dataset != runs[j].dataset) by {
        assert(runs[j].header == dataset_changes(runs, j));
    }
}

/// The dataset of run `i` was announced, with that run or before it.
pub open spec fn announced(runs: Seq<PlannedRun>, i: int) -> bool {
    exists|h: int| 0 <= h <= i && #[trigger] runs[h].header && runs[h].dataset == runs[i].dataset
}

/// A dataset is announced once: no two headers are of the same dataset, and
/// every dataset that is run has one, before its first run.
pub proof fn lemma_one_header_per_dataset(
    datasets: Seq<Dataset>,
    distances: Seq<ScenarioDistance>,
    runs: Seq<PlannedRun>,
)
    requires
        is_plan(datasets, distances, runs),
    ensures
        forall|i: int, j: int|
            0 <= i < j < runs.len() && (#[trigger] runs[i]).header && (#[trigger] runs[j]).header
                ==> runs[i].dataset != runs[j].dataset,
        forall|i: int| 0 <= i < runs.len() ==> #[trigger] announced(runs, i),
{
    assert forall|i: int, j: int|
        0 <= i < j < runs.len() && (#[trigger] runs[i]).header && (
        #[trigger] runs[j]).header implies runs[i].dataset != runs[j].dataset by {
        assert(dataset_changes(runs, j));
        assert(before(runs[j - 1].key(), runs[j].key()));
        assert(i < j - 1 ==> before(runs[i].key(), runs[j - 1].key()));
        lemma_places(
            runs[j - 1].dataset,
            runs[j].dataset,
            runs[j].distance,
            runs[j].distance,
        );
    }
    assert forall|i: int| 0 <= i < runs.len() implies #[trigger] announced(runs, i) by {
        lemma_header_before(runs, i);
    }
}

proof fn lemma_header_before(runs: Seq<PlannedRun>, i: int)
    requires
        0 <= i < runs.len(),
        forall|i: int| 0 <= i < runs.len() ==> runs[i].header == #[trigger] dataset_changes(runs, i),
    ensures
        announced(runs, i),
    decreases i,
{
    if !dataset_changes(runs, i) {
        lemma_header_before(runs, i - 1);
        let h = choose|h: int|
            0 <= h <= i - 1 && #[trigger] runs[h].header && runs[h].dataset == runs[i - 1].dataset;
        assert(runs[h].header && runs[h].dataset == runs[i].dataset);
    } else {
        assert(runs[i].header);
    }
}

/// The plan depends only on which datasets and distances are chosen: neither
/// their order nor repetitions change it.
pub proof fn lemma_plan_unique(
    datasets: Seq<Dataset>,
    distances: Seq<ScenarioDistance>,
    runs: Seq<PlannedRun>,
    other_datasets: Seq<Dataset>,
    other_distances: Seq<ScenarioDistance>,
    other_runs: Seq<PlannedRun>,
)
    requires
        is_plan(datasets, distances, runs),
        is_plan(other_datasets, other_distances, other_runs),
        forall|d: Dataset| #[trigger] datasets.contains(d) <==> other_datasets.contains(d),
        forall|d: ScenarioDistance| #[trigger]
            distances.contains(d) <==> other_distances.contains(d),
    ensures
        runs == other_runs,
{
    let shorter = if runs.len() < other_runs.len() {
        runs.len()
    } else {
        other_runs.len()
    };
    lemma_plan_prefix(
        datasets,
        distances,
        runs,
        other_datasets,
        other_distances,
        other_runs,
        shorter,
    );
    if runs.len() < other_runs.len() {
        let next = other_runs[runs.len() as int];
        assert(datasets.contains(next.dataset) && distances.contains(next.distance));
        let k = choose|k: int|
            0 <= k < runs.len() && (#[trigger] runs[k]).dataset == next.dataset && runs[k].distance
                == next.distance;
        assert(runs[k] == other_runs[k]);
        assert(before(other_runs[k].key(), next.key()));
    } else if other_runs.len() < runs.len() {
        let next = runs[other_runs.len() as int];
        assert(datasets.contains(next.dataset) && distances.contains(next.distance));
        let k = choose|k: int|
            0 <= k < other_runs.len() && (#[trigger] other_runs[k]).dataset == next.dataset
                && other_runs[k].distance == next.distance;
        assert(runs[k] == other_runs[k]);
        assert(before(runs[k].key(), next.key()));
    }
    assert(runs =~= other_runs);
}

proof fn lemma_plan_prefix(
    datasets: Seq<Dataset>,
    distances: Seq<ScenarioDistance>,
    runs: Seq<PlannedRun>,
    other_datasets: Seq<Dataset>,
    other_distances: Seq<ScenarioDistance>,
    other_runs: Seq<PlannedRun>,
    n: nat,
)
    requires
        is_plan(datasets, distances, runs),
        is_plan(other_datasets, other_distances, other_runs),
        forall|d: Dataset| #[trigger] datasets.contains(d) <==> other_datasets.contains(d),
        forall|d: ScenarioDistance| #[trigger]
            distances.contains(d) <==> other_distances.contains(d),
        n <= runs.len(),
        n <= other_runs.len(),
    ensures
        forall|i: int| 0 <= i < n ==> #[trigger] runs[i] == other_runs[i],
    decreases n,
{
    if n > 0 {
        lemma_plan_prefix(
            datasets,
            distances,
            runs,
            other_datasets,
            other_distances,
            other_runs,
            (n - 1) as nat,
        );
        let a = runs[n - 1];
        let b = other_runs[n - 1];
        assert(datasets.contains(a.dataset) && distances.contains(a.distance));
        assert(datasets.contains(b.dataset) && distances.contains(b.distance));
        let k = choose|k: int|
            0 <= k < runs.len() && (#[trigger] runs[k]).dataset == b.dataset && runs[k].distance
                == b.distance;
        let l = choose|l: int|
            0 <= l < other_runs.len() && (#[trigger] other_runs[l]).dataset == a.dataset
                && other_runs[l].distance == a.distance;
        if k < n - 1 {
            assert(before(other_runs[k].key(), b.key()));
        }
        if l < n - 1 {
            assert(before(runs[l].key(), a.key()));
        }
        assert(k == n - 1 || before(a.key(), runs[k].key()));
        assert(l == n - 1 || before(b.key(), other_runs[l].key()));
        lemma_places(a.dataset, b.dataset, a.distance, b.distance);
        assert(dataset_changes(runs, n - 1) == dataset_changes(other_runs, n - 1)) by {
            if n > 1 {
                assert(runs[n - 2] == other_runs[n - 2]);
            }
        }
    }
}

} // verus!
