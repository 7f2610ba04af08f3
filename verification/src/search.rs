//! What is reported of one way to search.

use vstd::prelude::*;
use vstd::string::*;

use crate::recall::{
    all_together, can_be_held, lemma_all_together, lemma_order_does_not_matter, outcome_views,
    recalls_list, recalls_text, reduce_outcomes, score_view, time_if_held, QueryOutcome, Recall,
};
use crate::scenarios::{ScenarioContender, ScenarioDistance, ScenarioSearch};
use crate::single::Single;
use crate::text::{decimal, texts};
use crate::time::{span_text, Span, MAX_NANOS};

verus! {

/// What a search report holds.
#[verifier::ext_equal]
pub struct SearchView {
    /// The time that the searches took, in nanoseconds.
    pub time: nat,
    /// The recalls, as reports write them.
    pub recalls: Seq<Seq<char>>,
}

/// The time and the recalls of one way to search, batch by batch.
#[derive(Debug)]
pub struct SearchReport {
    time_to_search: Span,
    recalls: Vec<String>,
}

impl View for SearchReport {
    type V = SearchView;

    closed spec fn view(&self) -> SearchView {
        SearchView { time: self.time_to_search@, recalls: texts(self.recalls@) }
    }
}

/// The line that reports a search, from its parts in words.
pub open spec fn search_line(
    contender: ScenarioContender,
    distance: ScenarioDistance,
    search: ScenarioSearch,
    recalls: Seq<Seq<char>>,
    time: Seq<char>,
) -> Seq<char> {
    let oversampling = match contender {
        ScenarioContender::Arroy => search.oversampling.label() + ": "@,
        ScenarioContender::Hannoy => Seq::empty(),
    };
    contender.label() + distance.variant() + " "@ + oversampling + recalls_list(recalls)
        + ", searched for: "@ + time + ", searched in "@ + search.filtering.percentage() + "%"@
}

/// The line that reports a search, from its parts in words.
pub fn search_line_of(
    contender: ScenarioContender,
    distance: ScenarioDistance,
    search: &ScenarioSearch,
    recalls: &Vec<String>,
    time: &str,
) -> (line: String)
    ensures
        line@ == search_line(contender, distance, *search, texts(recalls@), time@),
{
    let mut line = String::from_str(contender.tag());
    line.append(distance.variant_name());
    line.append(" ");
    match contender {
        ScenarioContender::Arroy => {
            line.append(search.oversampling.to_text());
            line.append(": ");
        },
        ScenarioContender::Hannoy => {},
    }
    line.append(recalls_text(recalls).as_str());
    line.append(", searched for: ");
    line.append(time);
    line.append(", searched in ");
    line.append(search.filtering.percentage_text().as_str());
    line.append("%");
    assert(line@ =~= search_line(contender, distance, *search, texts(recalls@), time@));
    line
}

/// What a line says: the engine and the distance, for arroy the oversampling,
/// every recall, the time, and the share of the items that is searched.
pub proof fn lemma_search_line(
    contender: ScenarioContender,
    distance: ScenarioDistance,
    search: ScenarioSearch,
    recalls: Seq<Seq<char>>,
    time: Seq<char>,
)
    ensures
        contender is Arroy ==> search_line(contender, distance, search, recalls, time)
            == "[arroy]  "@ + distance.variant() + " "@ + search.oversampling.label() + ": "@
            + recalls_list(recalls) + ", searched for: "@ + time + ", searched in "@ + decimal(
            search.filtering.hundredths() as nat,
        ) + ".00"@ + "%"@,
        contender is Hannoy ==> search_line(contender, distance, search, recalls, time)
            == "[hannoy]  "@ + distance.variant() + " "@ + recalls_list(recalls)
            + ", searched for: "@ + time + ", searched in "@ + decimal(
            search.filtering.hundredths() as nat,
        ) + ".00"@ + "%"@,
{
    let line = search_line(contender, distance, search, recalls, time);
    let share = decimal(search.filtering.hundredths() as nat);
    if contender is Arroy {
        assert(line =~= "[arroy]  "@ + distance.variant() + " "@ + search.oversampling.label()
            + ": "@ + recalls_list(recalls) + ", searched for: "@ + time + ", searched in "@ + share
            + ".00"@ + "%"@);
    } else {
        assert(line =~= "[hannoy]  "@ + distance.variant() + " "@ + recalls_list(recalls)
            + ", searched for: "@ + time + ", searched in "@ + share + ".00"@ + "%"@);
    }
}

/// The share of a batch's time that the report counts: arroy's searches are
/// counted as a whole, hannoy's by the mean of a query. The number of queries
/// is taken in 32 bits.
pub open spec fn counted_time(contender: ScenarioContender, batch: nat, queries: nat) -> nat {
    match contender {
        ScenarioContender::Arroy => batch,
        ScenarioContender::Hannoy => batch / (queries % 0x1_0000_0000),
    }
}

/// The time that a batch adds: for arroy all of it; for hannoy the mean of a
/// query, rounded down.
pub proof fn lemma_mean_time(batch: nat, queries: nat)
    requires
        queries % 0x1_0000_0000 != 0,
    ensures
        counted_time(ScenarioContender::Arroy, batch, queries) == batch,
        counted_time(ScenarioContender::Hannoy, batch, queries) * (queries % 0x1_0000_0000)
            <= batch,
        batch < (counted_time(ScenarioContender::Hannoy, batch, queries) + 1) * (queries
            % 0x1_0000_0000),
{
    let parts = (queries % 0x1_0000_0000) as int;
    let mean = counted_time(ScenarioContender::Hannoy, batch, queries) as int;
    vstd::arithmetic::div_mod::lemma_fundamental_div_mod(batch as int, parts);
    assert(mean * parts <= batch < (mean + 1) * parts) by (nonlinear_arith)
        requires
            batch == parts * mean + batch as int % parts,
            0 <= batch as int % parts < parts,
    ;
}

/// A batch in which every query took the same time adds just that time for
/// hannoy, however many queries there are, and that time once for each of them
/// for arroy.
pub proof fn lemma_equal_times(outcomes: Seq<QueryOutcome>, each: nat)
    requires
        0 < outcomes.len() < 0x1_0000_0000,
        forall|i: int| 0 <= i < outcomes.len() ==> (#[trigger] outcomes[i]).time@ == each,
    ensures
        counted_time(
            ScenarioContender::Hannoy,
            all_together(outcome_views(outcomes)).1,
            outcomes.len(),
        ) == each,
        counted_time(
            ScenarioContender::Arroy,
            all_together(outcome_views(outcomes)).1,
            outcomes.len(),
        ) == outcomes.len() * each,
{
    let queries = outcomes.len();
    let batch = all_together(outcome_views(outcomes)).1;
    lemma_all_together(outcomes);
    lemma_equal_sum(outcomes, each);
    lemma_mean_time(batch, queries);
    let mean = counted_time(ScenarioContender::Hannoy, batch, queries);
    assert(mean == each) by (nonlinear_arith)
        requires
            batch == queries * each,
            mean * queries <= batch < (mean + 1) * queries,
            queries > 0,
    ;
}

proof fn lemma_equal_sum(outcomes: Seq<QueryOutcome>, each: nat)
    requires
        forall|i: int| 0 <= i < outcomes.len() ==> (#[trigger] outcomes[i]).time@ == each,
    ensures
        outcomes.fold_left(0int, |sum: int, outcome: QueryOutcome| sum + outcome.time@)
            == outcomes.len() * each,
    decreases outcomes.len(),
{
    reveal_with_fuel(Seq::fold_left, 1);
    if outcomes.len() > 0 {
        let rest = outcomes.drop_last();
        assert forall|i: int| 0 <= i < rest.len() implies (#[trigger] rest[i]).time@ == each by {
            assert(rest[i] == outcomes[i]);
        }
        lemma_equal_sum(rest, each);
        assert(outcomes.last().time@ == each) by {
            assert(outcomes[outcomes.len() - 1].time@ == each);
        }
        let n = rest.len();
        assert((n + 1) * each == n * each + each) by (nonlinear_arith);
    }
}

/// The time of a batch can be added to a report.
pub open spec fn can_count(
    contender: ScenarioContender,
    time: nat,
    outcomes: Seq<(Option<nat>, nat)>,
) -> bool {
    &&& can_be_held(outcomes)
    &&& contender is Hannoy ==> outcomes.len() % 0x1_0000_0000 != 0
    &&& time + counted_time(contender, all_together(outcomes).1, outcomes.len()) <= MAX_NANOS
}

impl SearchReport {
    /// A report before the first batch.
    pub fn new() -> (report: SearchReport)
        ensures
            report@ == (SearchView { time: 0, recalls: seq![] }),
    {
        let report = SearchReport { time_to_search: Span::zero(), recalls: Vec::new() };
        assert(report@ =~= SearchView { time: 0, recalls: seq![] });
        report
    }

    /// Whether a batch can be added.
    pub fn can_add_batch(&self, contender: ScenarioContender, outcomes: &Vec<QueryOutcome>) -> (yes:
        bool)
        ensures
            yes == can_count(contender, self@.time, outcome_views(outcomes@)),
    {
        match time_if_held(outcomes) {
            None => false,
            Some(time) => match contender {
                ScenarioContender::Arroy => self.time_to_search.can_add(time),
                ScenarioContender::Hannoy => {
                    let queries: u32 = (outcomes.len() as u64 % 0x1_0000_0000) as u32;
                    queries != 0 && self.time_to_search.can_add(time.divided_by(queries))
                },
            },
        }
    }

    /// Adds the time of a batch of queries, and gives the score of all of
    /// them.
    pub fn add_batch(&mut self, contender: ScenarioContender, outcomes: Vec<QueryOutcome>) -> (
    retrieved: Option<u64>)
        requires
            can_count(contender, old(self)@.time, outcome_views(outcomes@)),
        ensures
            score_view(retrieved) == all_together(outcome_views(outcomes@)).0,
            final(self)@ == (SearchView {
                time: old(self)@.time + counted_time(
                    contender,
                    all_together(outcome_views(outcomes@)).1,
                    outcomes@.len(),
                ),
                ..old(self)@
            }),
            final(self)@.recalls == old(self)@.recalls,
            ({
                let added = final(self)@.time - old(self)@.time;
                let total = outcomes@.fold_left(
                    0int,
                    |sum: int, outcome: QueryOutcome| sum + outcome.time@,
                );
                let queries = outcomes@.len() as int % 0x1_0000_0000;
                match contender {
                    ScenarioContender::Arroy => added == total,
                    ScenarioContender::Hannoy => added * queries <= total < (added + 1) * queries,
                }
            }),
            retrieved is None <==> exists|i: int|
                0 <= i < outcomes@.len() && (#[trigger] outcomes@[i]).retrieved is None,
            retrieved matches Some(n) ==> n == outcomes@.fold_left(
                0int,
                |sum: int, outcome: QueryOutcome| sum + outcome.retrieved->0,
            ),
    {
        proof {
            lemma_all_together(outcomes@);
            if contender is Hannoy {
                lemma_mean_time(all_together(outcome_views(outcomes@)).1, outcomes@.len());
            }
        }
        let queries: u32 = (outcomes.len() as u64 % 0x1_0000_0000) as u32;
        let outcome = reduce_outcomes(outcomes);
        let counted = match contender {
            ScenarioContender::Arroy => outcome.time,
            ScenarioContender::Hannoy => outcome.time.divided_by(queries),
        };
        self.time_to_search = self.time_to_search.plus(counted);
        outcome.retrieved
    }

    /// Adds a recall, around its number in digits.
    pub fn add_recall(&mut self, recall: Recall, number: &str)
        ensures
            final(self)@ == (SearchView {
                recalls: old(self)@.recalls.push(recall.shown(number@)),
                ..old(self)@
            }),
    {
        self.recalls.push(recall.to_text(number));
        assert(texts(self.recalls@) =~= old(self)@.recalls.push(recall.shown(number@)));
    }

    /// The line that reports the search.
    pub fn to_line(
        &self,
        contender: ScenarioContender,
        distance: ScenarioDistance,
        search: &ScenarioSearch,
    ) -> (line: String)
        ensures
            line@ == search_line(
                contender,
                distance,
                *search,
                self@.recalls,
                span_text(self@.time),
            ),
    {
        search_line_of(
            contender,
            distance,
            search,
            &self.recalls,
            self.time_to_search.to_text().as_str(),
        )
    }
}

/// The bits of minus one, which stands for a recall where an item came back
/// that had been filtered out.
pub const LEAKED: u32 = 0xbf80_0000;

/// The recall to show, from the score of a batch and the share that it makes.
pub open spec fn recall_of(retrieved: Option<u64>, share: Single) -> Recall {
    match retrieved {
        Some(_) => Recall(share),
        None => Recall(Single { bits: LEAKED }),
    }
}

/// The recall to show, from the score of a batch and the share that it makes.
pub fn shown_recall(retrieved: Option<u64>, share: Single) -> (recall: Recall)
    ensures
        recall == recall_of(retrieved, share),
        retrieved is Some ==> recall.0 == share,
        retrieved is None ==> recall.0.bits == 0xbf80_0000,
        retrieved is None ==> recall.shade() is Red,
{
    match retrieved {
        Some(_) => Recall(share),
        None => Recall(Single { bits: LEAKED }),
    }
}

/// The digits to show: those of the share, or of minus one where there is no
/// score.
pub open spec fn digits_of(retrieved: Option<u64>, number: Seq<char>) -> Seq<char> {
    match retrieved {
        Some(_) => number,
        None => "-1.00"@,
    }
}

/// The digits to show, from the score of a batch and those of the share.
pub fn shown_digits(retrieved: Option<u64>, number: &str) -> (digits: &str)
    ensures
        digits@ == digits_of(retrieved, number@),
        retrieved is Some ==> digits@ == number@,
        retrieved is None ==> digits@ == "-1.00"@,
{
    match retrieved {
        Some(_) => number,
        None => "-1.00",
    }
}

/// What is handed to an engine with a query: the oversampling factor, if one
/// is set, and whether the candidates are set. Only arroy is told of either.
pub fn search_options(
    contender: ScenarioContender,
    search: &ScenarioSearch,
    filtered: bool,
) -> (options: (Option<usize>, bool))
    ensures
        options.0 == match contender {
            ScenarioContender::Arroy => search.oversampling.factor(),
            ScenarioContender::Hannoy => None,
        },
        options.1 == (contender is Arroy && filtered),
{
    match contender {
        ScenarioContender::Arroy => (search.oversampling.to_non_zero_usize(), filtered),
        ScenarioContender::Hannoy => (None, false),
    }
}

/// The number of queries that the items fetched are counted for: arroy's are
/// counted for a hundred, hannoy's for as many as there were.
pub open spec fn counted_queries(contender: ScenarioContender, queries: usize) -> usize {
    match contender {
        ScenarioContender::Arroy => 100,
        ScenarioContender::Hannoy => queries,
    }
}

/// The number of queries that the items fetched are counted for.
pub fn queries_counted(contender: ScenarioContender, queries: usize) -> (count: usize)
    ensures
        count == counted_queries(contender, queries),
        contender is Arroy ==> count == 100,
        contender is Hannoy ==> count == queries,
{
    match contender {
        ScenarioContender::Arroy => 100,
        ScenarioContender::Hannoy => queries,
    }
}

/// When a batch can be added: if its scores and its times can be added up, and
/// so can the time that is counted with what was counted before; for hannoy the
/// number of queries, taken in 32 bits, must not be zero.
pub proof fn lemma_can_count(
    contender: ScenarioContender,
    time: nat,
    outcomes: Seq<QueryOutcome>,
)
    ensures
        can_count(contender, time, outcome_views(outcomes)) <==> {
            let total = outcomes.fold_left(
                0int,
                |sum: int, outcome: QueryOutcome| sum + outcome.time@,
            );
            &&& total <= MAX_NANOS
            &&& outcomes.fold_left(
                0int,
                |sum: int, outcome: QueryOutcome|
                    if outcome.retrieved is Some {
                        sum + outcome.retrieved->0
                    } else {
                        sum
                    },
            ) <= u64::MAX
            &&& match contender {
                ScenarioContender::Arroy => time + total <= MAX_NANOS,
                ScenarioContender::Hannoy => outcomes.len() as int % 0x1_0000_0000 != 0 && time
                    + total / (outcomes.len() as int % 0x1_0000_0000) <= MAX_NANOS,
            }
        },
{
    lemma_all_together(outcomes);
}

/// In which order the queries of a batch are answered does not matter: the
/// batch can be added alike, has the same score, and counts for the same time.
pub proof fn lemma_batch_order_does_not_matter(
    contender: ScenarioContender,
    time: nat,
    a: Seq<(Option<nat>, nat)>,
    b: Seq<(Option<nat>, nat)>,
)
    requires
        a.to_multiset() == b.to_multiset(),
    ensures
        can_count(contender, time, a) == can_count(contender, time, b),
        all_together(a).0 == all_together(b).0,
        counted_time(contender, all_together(a).1, a.len()) == counted_time(
            contender,
            all_together(b).1,
            b.len(),
        ),
{
    lemma_order_does_not_matter(a, b);
}

/// What a run of searches asks for next.
#[derive(Debug, Clone, Copy, PartialEq, Eq, Structural)]
pub enum SearchAction {
    /// Answer all queries in the way to search at this position, with so many
    /// items fetched.
    Answer { search: usize, fetched: usize },
    /// Compute the share that the score makes of the items fetched for so many
    /// queries.
    Score { retrieved: Option<u64>, fetched: usize, counted: usize },
    /// Write the line of the way to search at this position.
    Report { search: usize },
    /// Nothing more.
    Finish,
}

/// The state of a run of searches, as its contracts speak of it.
#[verifier::ext_equal]
pub struct RunView {
    /// The engine that is searched.
    pub contender: ScenarioContender,
    /// The distance that it searches by.
    pub distance: ScenarioDistance,
    /// The ways to search.
    pub searches: Seq<ScenarioSearch>,
    /// The numbers of items to fetch.
    pub recall_tested: Seq<usize>,
    /// How many lines were written.
    pub lines: nat,
    /// The score that no recall was added for yet, and the number of queries
    /// that it is counted for.
    pub pending: Option<(Option<u64>, usize)>,
    /// What the next line reports.
    pub report: SearchView,
}

impl RunView {
    /// The state is one that a run can be in.
    pub open spec fn consistent(self) -> bool {
        &&& self.lines <= self.searches.len() <= usize::MAX
        &&& self.report.recalls.len() <= self.recall_tested.len()
        &&& self.pending is Some ==> self.lines < self.searches.len() && self.report.recalls.len()
            < self.recall_tested.len()
    }

    /// What is to be done: in each way to search, one batch for every number
    /// of items, then the line.
    pub open spec fn action(self) -> SearchAction {
        let tested = self.report.recalls.len() as int;
        if self.lines >= self.searches.len() {
            SearchAction::Finish
        } else if let Some((retrieved, counted)) = self.pending {
            SearchAction::Score { retrieved, fetched: self.recall_tested[tested], counted }
        } else if tested < self.recall_tested.len() {
            SearchAction::Answer {
                search: self.lines as usize,
                fetched: self.recall_tested[tested],
            }
        } else {
            SearchAction::Report { search: self.lines as usize }
        }
    }
}

/// A run of searches on one index, in every way to search and with every
/// number of items.
#[derive(Debug)]
pub struct SearchRun<'a> {
    contender: ScenarioContender,
    distance: ScenarioDistance,
    searches: &'a [&'a ScenarioSearch],
    recall_tested: &'a [usize],
    lines: usize,
    pending: Option<(Option<u64>, usize)>,
    report: SearchReport,
}

impl<'a> View for SearchRun<'a> {
    type V = RunView;

    closed spec fn view(&self) -> RunView {
        RunView {
            contender: self.contender,
            distance: self.distance,
            searches: Seq::new(self.searches@.len(), |i: int| *self.searches@[i]),
            recall_tested: self.recall_tested@,
            lines: self.lines as nat,
            pending: self.pending,
            report: self.report@,
        }
    }
}

impl<'a> SearchRun<'a> {
    /// A run before the first batch.
    pub fn new(
        contender: ScenarioContender,
        distance: ScenarioDistance,
        searches: &'a [&'a ScenarioSearch],
        recall_tested: &'a [usize],
    ) -> (run: SearchRun<'a>)
        ensures
            run@.consistent(),
            run@ == (RunView {
                contender,
                distance,
                searches: Seq::new(searches@.len(), |i: int| *searches@[i]),
                recall_tested: recall_tested@,
                lines: 0,
                pending: None,
                report: SearchView { time: 0, recalls: seq![] },
            }),
    {
        assert(searches.len() == searches@.len());
        SearchRun {
            contender,
            distance,
            searches,
            recall_tested,
            lines: 0,
            pending: None,
            report: SearchReport::new(),
        }
    }

    /// What is to be done.
    pub fn action(&self) -> (action: SearchAction)
        requires
            self@.consistent(),
        ensures
            action == self@.action(),
    {
        let tested: usize = self.report.recalls.len();
        if self.lines >= self.searches.len() {
            SearchAction::Finish
        } else if let Some((retrieved, counted)) = self.pending {
            SearchAction::Score { retrieved, fetched: self.recall_tested[tested], counted }
        } else if tested < self.recall_tested.len() {
            SearchAction::Answer { search: self.lines, fetched: self.recall_tested[tested] }
        } else {
            SearchAction::Report { search: self.lines }
        }
    }

    /// Whether a batch can be added.
    pub fn can_answer(&self, outcomes: &Vec<QueryOutcome>) -> (yes: bool)
        ensures
            yes == can_count(self@.contender, self@.report.time, outcome_views(outcomes@)),
    {
        self.report.can_add_batch(self.contender, outcomes)
    }

    /// Goes on after the queries are answered.
    pub fn answered(&mut self, outcomes: Vec<QueryOutcome>)
        requires
            old(self)@.consistent(),
            old(self)@.action() is Answer,
            can_count(old(self)@.contender, old(self)@.report.time, outcome_views(outcomes@)),
        ensures
            final(self)@.consistent(),
            final(self)@.pending matches Some(pending) && score_view(pending.0) == all_together(
                outcome_views(outcomes@),
            ).0 && pending.1 == counted_queries(old(self)@.contender, outcomes.len()),
            final(self)@ == (RunView {
                pending: final(self)@.pending,
                report: SearchView {
                    time: old(self)@.report.time + counted_time(
                        old(self)@.contender,
                        all_together(outcome_views(outcomes@)).1,
                        outcomes@.len(),
                    ),
                    ..old(self)@.report
                },
                ..old(self)@
            }),
            ({
                let added = final(self)@.report.time - old(self)@.report.time;
                let total = outcomes@.fold_left(
                    0int,
                    |sum: int, outcome: QueryOutcome| sum + outcome.time@,
                );
                let queries = outcomes@.len() as int % 0x1_0000_0000;
                match old(self)@.contender {
                    ScenarioContender::Arroy => added == total && (final(self)@.pending->0).1
                        == 100,
                    ScenarioContender::Hannoy => added * queries <= total < (added + 1) * queries
                        && (final(self)@.pending->0).1 == outcomes@.len(),
                }
            }),
            (final(self)@.pending->0).0 is None <==> exists|i: int|
                0 <= i < outcomes@.len() && (#[trigger] outcomes@[i]).retrieved is None,
            (final(self)@.pending->0).0 matches Some(n) ==> n == outcomes@.fold_left(
                0int,
                |sum: int, outcome: QueryOutcome| sum + outcome.retrieved->0,
            ),
    {
        let counted: usize = queries_counted(self.contender, outcomes.len());
        let retrieved = self.report.add_batch(self.contender, outcomes);
        self.pending = Some((retrieved, counted));
    }

    /// Goes on after the share is computed, with its number in digits. Where
    /// there is no score, neither matters.
    pub fn scored(&mut self, share: Single, number: &str)
        requires
            old(self)@.consistent(),
            old(self)@.action() is Score,
        ensures
            final(self)@.consistent(),
            old(self)@.pending matches Some(pending) && final(self)@ == (RunView {
                pending: None,
                report: SearchView {
                    recalls: old(self)@.report.recalls.push(
                        recall_of(pending.0, share).shown(digits_of(pending.0, number@)),
                    ),
                    ..old(self)@.report
                },
                ..old(self)@
            }),
            final(self)@.report.recalls.drop_last() == old(self)@.report.recalls,
            (old(self)@.pending->0).0 is Some ==> final(self)@.report.recalls.last() == Recall(
                share,
            ).shown(number@),
            (old(self)@.pending->0).0 is None ==> final(self)@.report.recalls.last()
                == "\x1b[1;31m"@ + "-1.00"@ + "\x1b[0m"@,
    {
        proof {
            lemma_leak_is_shown_as_minus_one(share, number@);
        }
        if let Some((retrieved, _counted)) = self.pending {
            self.report.add_recall(
                shown_recall(retrieved, share),
                shown_digits(retrieved, number),
            );
            self.pending = None;
        }
    }

    /// Gives the line that is due, and goes on to the next way to search.
    pub fn report(&mut self) -> (line: String)
        requires
            old(self)@.consistent(),
            old(self)@.action() is Report,
        ensures
            final(self)@.consistent(),
            line@ == search_line(
                old(self)@.contender,
                old(self)@.distance,
                old(self)@.searches[old(self)@.lines as int],
                old(self)@.report.recalls,
                span_text(old(self)@.report.time),
            ),
            final(self)@ == (RunView {
                lines: old(self)@.lines + 1,
                report: SearchView { time: 0, recalls: seq![] },
                ..old(self)@
            }),
    {
        let line = self.report.to_line(self.contender, self.distance, self.searches[self.lines]);
        self.report = SearchReport::new();
        self.lines = self.lines + 1;
        line
    }
}

/// A batch without a score is always shown as minus one, in red, whatever
/// share and digits are handed in.
pub proof fn lemma_leak_is_shown_as_minus_one(share: Single, number: Seq<char>)
    ensures
        recall_of(None, share).shown(digits_of(None, number)) == "\x1b[1;31m"@ + "-1.00"@
            + "\x1b[0m"@,
{
}

/// A run gives one line for each way to search, in order, and each line has
/// one recall for each number of items, in order.
pub proof fn lemma_run_is_in_order(run: RunView)
    requires
        run.consistent(),
    ensures
        run.action() is Finish <==> run.lines == run.searches.len(),
        run.lines < run.searches.len() ==> {
            &&& run.action() is Score <==> run.pending is Some
            &&& run.action() is Answer <==> run.pending is None && run.report.recalls.len()
                < run.recall_tested.len()
            &&& run.action() is Report <==> run.pending is None && run.report.recalls.len()
                == run.recall_tested.len()
        },
        run.action() matches SearchAction::Score { retrieved, counted, .. } ==> run.pending == Some(
            (retrieved, counted),
        ),
        run.action() matches SearchAction::Answer { search, fetched } ==> search == run.lines
            && fetched == run.recall_tested[run.report.recalls.len() as int],
        run.action() matches SearchAction::Score { fetched, .. } ==> fetched
            == run.recall_tested[run.report.recalls.len() as int],
        run.action() matches SearchAction::Report { search } ==> search == run.lines
            && run.report.recalls.len() == run.recall_tested.len(),
{
}

} // verus!
