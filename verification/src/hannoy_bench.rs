//! The measure of hannoy: what is recorded while its graph is built.

use vstd::prelude::*;

use std::time::Instant;

use crate::load::{all_fit, first_misfit, is_first_misfit, LoadAction};
use crate::metrics::{lemma_notes, lemma_step_within, Record, RecordView};
use crate::report::{columns, columns_of};
use crate::time::{clock_starts, read_after, Stopwatch, MAX_NANOS};

verus! {

/// What is measured while a graph is built. Every note of a moment reads the
/// clock.
#[derive(Debug)]
pub struct IndexingMetrics {
    watch: Stopwatch,
    record: Record,
}

impl IndexingMetrics {
    /// What was measured so far.
    pub closed spec fn record(&self) -> RecordView {
        self.record@
    }

    /// The moment that everything is counted from.
    pub closed spec fn started(&self) -> Instant {
        self.watch.started()
    }

    /// The moment that the clock showed last, in nanoseconds from the start.
    pub closed spec fn latest(&self) -> nat {
        self.watch.latest()
    }

    /// Nothing that was measured lies behind the latest moment.
    pub open spec fn in_order(&self) -> bool {
        self.latest() <= MAX_NANOS && self.record().noted_until(self.latest())
    }

    /// Starts the clock.
    pub fn new() -> (metrics: IndexingMetrics)
        ensures
            metrics.record() == RecordView::empty(metrics.latest()),
            clock_starts(metrics.started()),
            read_after(metrics.started(), 0, metrics.latest()),
            metrics.in_order(),
    {
        let mut watch = Stopwatch::start();
        let end = watch.read();
        IndexingMetrics { watch, record: Record::new(end) }
    }

    /// Notes that an insertion begins.
    pub fn start_insertion(&mut self)
        ensures
            exists|begun: nat|
                {
                    &&& old(self).latest() <= begun <= final(self).latest()
                    &&& read_after(old(self).started(), old(self).latest(), begun)
                    &&& read_after(old(self).started(), begun, final(self).latest())
                    &&& final(self).record() == #[trigger] old(self).record().with_insertion(
                        begun,
                        final(self).latest(),
                    )
                },
            final(self).started() == old(self).started(),
            old(self).in_order() ==> final(self).in_order(),
    {
        let begun = self.watch.read();
        let ended = self.watch.read();
        self.record.start_insertion(begun, ended);
        assert(self.record() == old(self).record().with_insertion(begun@, self.latest()));
    }

    /// Notes that the last insertion ends.
    pub fn end_insertion(&mut self)
        requires
            old(self).record().inserts.len() > 0,
        ensures
            final(self).record() == old(self).record().with_insertion_end(final(self).latest()),
            old(self).latest() <= final(self).latest(),
            read_after(old(self).started(), old(self).latest(), final(self).latest()),
            final(self).started() == old(self).started(),
            old(self).in_order() ==> final(self).in_order(),
    {
        let ended = self.watch.read();
        self.record.end_insertion(ended);
    }

    /// Notes that a building begins.
    pub fn start_building(&mut self)
        ensures
            exists|begun: nat|
                {
                    &&& old(self).latest() <= begun <= final(self).latest()
                    &&& read_after(old(self).started(), old(self).latest(), begun)
                    &&& read_after(old(self).started(), begun, final(self).latest())
                    &&& final(self).record() == #[trigger] old(self).record().with_building(
                        begun,
                        final(self).latest(),
                    )
                },
            final(self).started() == old(self).started(),
            old(self).in_order() ==> final(self).in_order(),
    {
        let begun = self.watch.read();
        let ended = self.watch.read();
        self.record.start_building(begun, ended);
        assert(self.record() == old(self).record().with_building(begun@, self.latest()));
    }

    /// Notes that the last building ends.
    pub fn end_building(&mut self)
        requires
            old(self).record().builds.len() > 0,
        ensures
            final(self).record() == old(self).record().with_building_end(final(self).latest()),
            old(self).latest() <= final(self).latest(),
            read_after(old(self).started(), old(self).latest(), final(self).latest()),
            final(self).started() == old(self).started(),
            old(self).in_order() ==> final(self).in_order(),
    {
        let ended = self.watch.read();
        self.record.end_building(ended);
    }

    /// Notes how many vectors there are.
    pub fn new_nb_vectors(&mut self, nb_vectors: usize)
        ensures
            final(self).record() == old(self).record().with_nb_vectors(nb_vectors),
            final(self).latest() == old(self).latest(),
            final(self).started() == old(self).started(),
            old(self).in_order() ==> final(self).in_order(),
    {
        self.record.new_nb_vectors(nb_vectors);
    }

    /// Notes how large the database is.
    pub fn new_database_size(&mut self, size: usize)
        ensures
            final(self).record() == old(self).record().with_database_size(size),
            final(self).latest() == old(self).latest(),
            final(self).started() == old(self).started(),
            old(self).in_order() ==> final(self).in_order(),
    {
        self.record.new_database_size(size);
    }

    /// Notes that everything ends.
    pub fn end(&mut self)
        ensures
            final(self).record() == old(self).record().with_end(final(self).latest()),
            old(self).latest() <= final(self).latest(),
            read_after(old(self).started(), old(self).latest(), final(self).latest()),
            final(self).started() == old(self).started(),
            old(self).in_order() ==> final(self).in_order(),
    {
        let end = self.watch.read();
        self.record.end(end);
    }

    /// Whether the time of every step can be held.
    pub fn is_reportable(&self) -> (yes: bool)
        ensures
            yes == self.record().reportable(),
    {
        self.record.is_reportable()
    }

    /// The report.
    pub fn to_text(&self) -> (text: String)
        requires
            self.record().reportable(),
        ensures
            text@ == self.record().report(),
    {
        self.record.to_text()
    }
}

/// Into how many chunks the points are cut.
pub const CHUNK_COUNT: usize = 1;

/// What was done.
#[derive(Debug, Clone, Copy, PartialEq, Eq, Structural)]
pub enum LoadEvent {
    /// The transaction is open.
    Begun,
    /// The points are inserted.
    Inserted,
    /// All is ready to build.
    Prepared,
    /// The index is built.
    Built,
    /// The transaction is committed, and the database has this size.
    Committed { database_size: usize },
}

/// The state of a load, as its contracts speak of it.
pub struct LoadView {
    /// How many points there are.
    pub points: nat,
    /// The size of a chunk.
    pub chunk: nat,
    /// What is being done.
    pub action: LoadAction,
    /// The first position behind the chunk that is being done.
    pub reached: nat,
    /// What was measured.
    pub record: RecordView,
    /// The moment that the time is counted from.
    pub started: Instant,
    /// The moment that the clock showed last, in nanoseconds from the start.
    pub latest: nat,
}

/// The smaller of two numbers.
pub open spec fn smaller(a: nat, b: nat) -> nat {
    if a < b {
        a
    } else {
        b
    }
}

impl LoadView {
    /// The numbers of vectors that the first `n` chunks lead to.
    pub open spec fn running_totals(self, n: nat) -> Seq<usize> {
        Seq::new(n, |i: int| smaller(((i + 1) * self.chunk) as nat, self.points) as usize)
    }

    /// The state is one that a load can be in: what was measured is in step
    /// with what was done.
    pub open spec fn consistent(self) -> bool {
        let done = self.record.nb_vectors.len();
        let chunks = if self.action is Finish {
            done
        } else {
            done + 1
        };
        &&& 0 < self.chunk <= self.points <= usize::MAX
        &&& self.reached == smaller(chunks * self.chunk, self.points)
        &&& done * self.chunk < self.points || self.action is Finish
        &&& self.record.database_size.len() == done
        &&& self.record.inserts.len() == if self.action is Begin {
            done
        } else {
            chunks
        }
        &&& self.record.builds.len() == if self.action is Begin || self.action is Insert
            || self.action is Prepare {
            done
        } else {
            chunks
        }
        &&& self.record.nb_vectors == self.running_totals(done)
        &&& self.latest <= MAX_NANOS
        &&& self.record.noted_until(self.latest)
        &&& self.record.sequential()
        &&& self.action is Finish ==> self.record.end == self.latest
        &&& self.action is Finish ==> done > 0 && self.reached == self.points && (done - 1)
            * self.chunk < self.points
        &&& self.action matches LoadAction::Begin { from, to } ==> from == done * self.chunk && to
            == self.reached
        &&& self.action matches LoadAction::Insert { from, to } ==> from == done * self.chunk && to
            == self.reached
    }

    /// The event is one that can follow what is being done.
    pub open spec fn expects(self, event: LoadEvent) -> bool {
        match event {
            LoadEvent::Begun => self.action is Begin,
            LoadEvent::Inserted => self.action is Insert,
            LoadEvent::Prepared => self.action is Prepare,
            LoadEvent::Built => self.action is Build,
            LoadEvent::Committed { .. } => self.action is Commit,
        }
    }

    /// The state `next` can follow this state when the event comes. Moments
    /// are whatever the clock shows, and it never goes back.
    pub open spec fn leads_to(self, event: LoadEvent, next: LoadView) -> bool {
        &&& next.points == self.points
        &&& next.chunk == self.chunk
        &&& next.started == self.started
        &&& self.latest <= next.latest
        &&& match event {
            LoadEvent::Begun => {
                &&& self.action matches LoadAction::Begin { from, to } ==> next.action
                    == LoadAction::Insert { from, to }
                &&& next.reached == self.reached
                &&& exists|a: nat|
                    {
                        &&& self.latest <= a <= next.latest
                        &&& read_after(self.started, self.latest, a)
                        &&& read_after(self.started, a, next.latest)
                        &&& next.record == #[trigger] self.record.with_insertion(a, next.latest)
                    }
            },
            LoadEvent::Inserted => {
                &&& next.action is Prepare
                &&& next.reached == self.reached
                &&& next.record == self.record.with_insertion_end(next.latest)
                &&& read_after(self.started, self.latest, next.latest)
            },
            LoadEvent::Prepared => {
                &&& next.action is Build
                &&& next.reached == self.reached
                &&& exists|a: nat|
                    {
                        &&& self.latest <= a <= next.latest
                        &&& read_after(self.started, self.latest, a)
                        &&& read_after(self.started, a, next.latest)
                        &&& next.record == #[trigger] self.record.with_building(a, next.latest)
                    }
            },
            LoadEvent::Built => {
                &&& next.action is Commit
                &&& next.reached == self.reached
                &&& next.record == self.record.with_building_end(next.latest)
                &&& read_after(self.started, self.latest, next.latest)
            },
            LoadEvent::Committed { database_size } => {
                let measured = self.record.with_nb_vectors(
                    self.reached as usize,
                ).with_database_size(database_size);
                if self.reached < self.points {
                    &&& next.reached == smaller(self.reached + self.chunk, self.points)
                    &&& next.action == LoadAction::Begin {
                        from: self.reached as usize,
                        to: next.reached as usize,
                    }
                    &&& next.record == measured
                    &&& next.latest == self.latest
                } else {
                    &&& next.action is Finish
                    &&& next.reached == self.reached
                    &&& next.record == measured.with_end(next.latest)
                    &&& read_after(self.started, self.latest, next.latest)
                }
            },
        }
    }
}

/// A load of points into an index, chunk by chunk.
#[derive(Debug)]
pub struct Load {
    metrics: IndexingMetrics,
    points: usize,
    chunk: usize,
    action: LoadAction,
    reached: usize,
}

impl View for Load {
    type V = LoadView;

    closed spec fn view(&self) -> LoadView {
        LoadView {
            points: self.points as nat,
            chunk: self.chunk as nat,
            action: self.action,
            reached: self.reached as nat,
            record: self.metrics.record(),
            started: self.metrics.started(),
            latest: self.metrics.latest(),
        }
    }
}

impl Load {
    /// Begins a load of so many points.
    pub fn begin(points: usize) -> (load: Load)
        requires
            points > 0,
        ensures
            load@.consistent(),
            load@.points == points,
            load@.chunk == points,
            load@.action == (LoadAction::Begin { from: 0, to: points }),
            load@.record == RecordView::empty(load@.latest),
            read_after(load@.started, 0, load@.latest),
    {
        let metrics = IndexingMetrics::new();
        let chunk: usize = points / CHUNK_COUNT;
        let load = Load {
            metrics,
            points,
            chunk,
            action: LoadAction::Begin { from: 0, to: points },
            reached: points,
        };
        assert(load@.record.nb_vectors =~= load@.running_totals(0));
        proof {
            lemma_next_chunk(chunk as nat, 0);
        }
        load
    }

    /// Begins a load of points that must all have so many components, or else
    /// gives the position of the first that has not.
    pub fn begin_with<T>(points: &[(u32, &[T])], dimensions: usize) -> (load: Result<Load, usize>)
        requires
            points@.len() > 0,
        ensures
            match load {
                Err(p) => is_first_misfit(points@, dimensions, p as int),
                Ok(load) => {
                    &&& all_fit(points@, dimensions)
                    &&& load@.consistent()
                    &&& load@.points == points@.len()
                    &&& load@.chunk == points@.len()
                    &&& load@.action == LoadAction::Begin { from: 0, to: points@.len() as usize }
                    &&& load@.record == RecordView::empty(load@.latest)
                    &&& read_after(load@.started, 0, load@.latest)
                },
            },
    {
        match first_misfit(points, dimensions) {
            Some(p) => Err(p),
            None => Ok(Load::begin(points.len())),
        }
    }

    /// What is to be done.
    pub fn action(&self) -> (action: LoadAction)
        ensures
            action == self@.action,
    {
        self.action
    }

    /// Goes on after what was to be done is done.
    pub fn advance(&mut self, event: LoadEvent)
        requires
            old(self)@.consistent(),
            old(self)@.expects(event),
        ensures
            final(self)@.consistent(),
            old(self)@.leads_to(event, final(self)@),
    {
        let ghost before = self@;
        let ghost done = before.record.nb_vectors.len();
        match event {
            LoadEvent::Begun => {
                self.metrics.start_insertion();
                if let LoadAction::Begin { from, to } = self.action {
                    self.action = LoadAction::Insert { from, to };
                }
                let ghost a = choose|a: nat|
                    {
                        &&& before.latest <= a <= self@.latest
                        &&& read_after(before.started, before.latest, a)
                        &&& read_after(before.started, a, self@.latest)
                        &&& self@.record == #[trigger] before.record.with_insertion(a, self@.latest)
                    };
                assert(self@.record == before.record.with_insertion(a, self@.latest));
            },
            LoadEvent::Inserted => {
                self.metrics.end_insertion();
                self.action = LoadAction::Prepare;
            },
            LoadEvent::Prepared => {
                self.metrics.start_building();
                self.action = LoadAction::Build;
                let ghost a = choose|a: nat|
                    {
                        &&& before.latest <= a <= self@.latest
                        &&& read_after(before.started, before.latest, a)
                        &&& read_after(before.started, a, self@.latest)
                        &&& self@.record == #[trigger] before.record.with_building(a, self@.latest)
                    };
                assert(self@.record == before.record.with_building(a, self@.latest));
            },
            LoadEvent::Built => {
                self.metrics.end_building();
                self.action = LoadAction::Commit;
            },
            LoadEvent::Committed { database_size } => {
                self.metrics.new_nb_vectors(self.reached);
                self.metrics.new_database_size(database_size);
                let ghost measured = before.record.with_nb_vectors(
                    before.reached as usize,
                ).with_database_size(database_size);
                assert(self.metrics.record() == measured);
                proof {
                    assert(measured.nb_vectors =~= before.running_totals(done + 1));
                    lemma_next_chunk(before.chunk, done);
                }
                if self.reached < self.points {
                    let from: usize = self.reached;
                    let to: usize = if self.points - from < self.chunk {
                        self.points
                    } else {
                        from + self.chunk
                    };
                    self.action = LoadAction::Begin { from, to };
                    self.reached = to;
                } else {
                    self.metrics.end();
                    self.action = LoadAction::Finish;
                }
                assert(self@.running_totals(done + 1) =~= before.running_totals(done + 1));
            },
        }
        assert(self@.running_totals(done) =~= before.running_totals(done));
    }

    /// What was measured.
    pub fn into_metrics(self) -> (metrics: IndexingMetrics)
        ensures
            metrics.record() == self@.record,
            metrics.started() == self@.started,
            metrics.latest() == self@.latest,
    {
        self.metrics
    }
}

/// Where the next chunk ends.
proof fn lemma_next_chunk(chunk: nat, done: nat)
    ensures
        0 * chunk == 0,
        (done + 1) * chunk == done * chunk + chunk,
        (done + 2) * chunk == done * chunk + 2 * chunk,
{
    assert((done + 1) * chunk == done * chunk + chunk) by (nonlinear_arith);
    assert((done + 2) * chunk == done * chunk + 2 * chunk) by (nonlinear_arith);
}

/// What each event changes: the beginning of an insertion or of a building adds
/// a pair of moments that the clock shows, its end moves the second of them to
/// the moment that the clock shows then, and a commit adds what was measured.
/// All else stays, and the moment that is counted from stays in any case.
pub proof fn lemma_load_moves(load: LoadView, event: LoadEvent, next: LoadView)
    requires
        load.consistent(),
        load.expects(event),
        load.leads_to(event, next),
    ensures
        next.points == load.points,
        next.chunk == load.chunk,
        next.started == load.started,
        load.latest <= next.latest,
        match event {
            LoadEvent::Begun => {
                &&& load.action matches LoadAction::Begin { from, to } ==> next.action
                    == LoadAction::Insert { from, to }
                &&& next.reached == load.reached
                &&& next.record.inserts.len() == load.record.inserts.len() + 1
                &&& next.record.inserts.drop_last() == load.record.inserts
                &&& next.record.inserts.last().1 == next.latest
                &&& read_after(load.started, load.latest, next.record.inserts.last().0)
                &&& read_after(load.started, next.record.inserts.last().0, next.latest)
                &&& next.record.builds == load.record.builds
                &&& next.record.nb_vectors == load.record.nb_vectors
                &&& next.record.database_size == load.record.database_size
                &&& next.record.end == load.record.end
            },
            LoadEvent::Inserted => {
                &&& next.action is Prepare
                &&& next.reached == load.reached
                &&& next.record.inserts == load.record.inserts.drop_last() + seq![
                    (load.record.inserts.last().0, next.latest),
                ]
                &&& read_after(load.started, load.latest, next.latest)
                &&& next.record.builds == load.record.builds
                &&& next.record.nb_vectors == load.record.nb_vectors
                &&& next.record.database_size == load.record.database_size
                &&& next.record.end == load.record.end
            },
            LoadEvent::Prepared => {
                &&& next.action is Build
                &&& next.reached == load.reached
                &&& next.record.builds.len() == load.record.builds.len() + 1
                &&& next.record.builds.drop_last() == load.record.builds
                &&& next.record.builds.last().1 == next.latest
                &&& read_after(load.started, load.latest, next.record.builds.last().0)
                &&& read_after(load.started, next.record.builds.last().0, next.latest)
                &&& next.record.inserts == load.record.inserts
                &&& next.record.nb_vectors == load.record.nb_vectors
                &&& next.record.database_size == load.record.database_size
                &&& next.record.end == load.record.end
            },
            LoadEvent::Built => {
                &&& next.action is Commit
                &&& next.reached == load.reached
                &&& next.record.builds == load.record.builds.drop_last() + seq![
                    (load.record.builds.last().0, next.latest),
                ]
                &&& read_after(load.started, load.latest, next.latest)
                &&& next.record.inserts == load.record.inserts
                &&& next.record.nb_vectors == load.record.nb_vectors
                &&& next.record.database_size == load.record.database_size
                &&& next.record.end == load.record.end
            },
            LoadEvent::Committed { database_size } => {
                &&& next.record.nb_vectors == load.record.nb_vectors + seq![load.reached as usize]
                &&& next.record.database_size == load.record.database_size + seq![database_size]
                &&& next.record.inserts == load.record.inserts
                &&& next.record.builds == load.record.builds
                &&& load.reached < load.points ==> {
                    &&& next.action == LoadAction::Begin {
                        from: load.reached as usize,
                        to: next.reached as usize,
                    }
                    &&& next.reached <= load.points
                    &&& next.reached == load.points || next.reached == load.reached + load.chunk
                    &&& next.record.end == load.record.end
                }
                &&& load.reached >= load.points ==> {
                    &&& next.action is Finish
                    &&& next.record.end == next.latest
                    &&& read_after(load.started, load.latest, next.latest)
                }
            },
        },
{
    lemma_notes(load.record, 0, next.latest, 0);
    match event {
        LoadEvent::Begun => {
            assert(next.record.inserts.drop_last() =~= load.record.inserts);
        },
        LoadEvent::Prepared => {
            assert(next.record.builds.drop_last() =~= load.record.builds);
        },
        _ => {},
    }
}

/// When a load is finished, there is one of each measure for every chunk, and
/// the last number of vectors is that of the points: no row of the report
/// lacks a cell, and none has a cell too many. A load in one chunk has one.
pub proof fn lemma_finished_load_is_complete(load: LoadView)
    requires
        load.consistent(),
        load.action is Finish,
    ensures
        load.record.inserts.len() == load.record.nb_vectors.len(),
        load.record.builds.len() == load.record.nb_vectors.len(),
        load.record.database_size.len() == load.record.nb_vectors.len(),
        load.record.nb_vectors.last() == load.points,
        forall|i: int|
            0 <= i < load.record.nb_vectors.len() ==> #[trigger] load.record.nb_vectors[i] == if (i
                + 1) * load.chunk < load.points {
                ((i + 1) * load.chunk) as nat
            } else {
                load.points
            },
        load.chunk == load.points ==> load.record.nb_vectors.len() == 1,
        columns(load.record.rows()) == load.record.nb_vectors.len(),
{
    reveal_with_fuel(columns_of, 5);
    let done = load.record.nb_vectors.len();
    if done > 1 {
        assert((done - 1) * load.chunk >= load.chunk) by (nonlinear_arith)
            requires
                done > 1,
                load.chunk > 0,
        ;
    }
}

/// The moments of a finished load are in order: every insertion ends before
/// its building begins, every building before the next insertion, and all of
/// them before the end. So no step takes longer than the whole, and the report
/// can always be written.
pub proof fn lemma_finished_load_is_in_order(load: LoadView)
    requires
        load.consistent(),
        load.action is Finish,
    ensures
        forall|i: int|
            0 <= i < load.record.nb_vectors.len() ==> (#[trigger] load.record.inserts[i]).0
                <= load.record.inserts[i].1 <= load.record.builds[i].0 <= load.record.builds[i].1
                <= load.record.end,
        forall|i: int, j: int|
            0 <= i < j < load.record.nb_vectors.len() ==> (#[trigger] load.record.builds[i]).1 <= (
            #[trigger] load.record.inserts[j]).0,
        forall|i: int|
            0 <= i < load.record.nb_vectors.len() ==> #[trigger] load.record.step_time(i)
                <= load.record.end,
        load.record.reportable(),
{
    let record = load.record;
    assert forall|i: int| 0 <= i < record.nb_vectors.len() implies #[trigger] record.step_time(i)
        <= record.end by {
        lemma_step_within(record, load.latest, i);
    }
}

} // verus!
