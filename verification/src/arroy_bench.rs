//! The measure of arroy: what is recorded while its trees are built, and what
//! is told of the progress.

use vstd::prelude::*;

use std::time::Instant;

use crate::load::{all_fit, first_misfit, is_first_misfit, LoadAction};
use crate::metrics::{lemma_notes, lemma_step_within, IndexingMetrics, RecordView};
use crate::report::{columns, columns_of};
use crate::time::{read_after, MAX_NANOS};

verus! {

/// What was done.
#[derive(Debug, Clone, Copy, PartialEq, Eq, Structural)]
pub enum LoadEvent {
    /// The transaction is open.
    Begun,
    /// The points are inserted.
    Inserted,
    /// All is ready to build.
    Prepared,
    /// The trees are built.
    Built,
    /// The transaction is committed; there are so many trees, and the database
    /// has this size.
    Committed { nb_trees: usize, database_size: usize },
}

/// The state of a load, as its contracts speak of it.
pub struct LoadView {
    /// How many points there are.
    pub points: usize,
    /// What is being done.
    pub action: LoadAction,
    /// What was measured.
    pub record: RecordView,
    /// The moment that the time is counted from.
    pub started: Instant,
    /// The moment that the clock showed last, in nanoseconds from the start.
    pub latest: nat,
    /// The numbers of trees.
    pub trees: Seq<usize>,
}

impl LoadView {
    /// The state is one that a load can be in: what was measured is in step
    /// with what was done.
    pub open spec fn consistent(self) -> bool {
        let done = if self.action is Finish {
            1nat
        } else {
            0
        };
        &&& self.action matches LoadAction::Begin { from, to } ==> from == 0 && to == self.points
        &&& self.action matches LoadAction::Insert { from, to } ==> from == 0 && to == self.points
        &&& self.record.inserts.len() == if self.action is Begin {
            0nat
        } else {
            1
        }
        &&& self.record.builds.len() == if self.action is Begin || self.action is Insert
            || self.action is Prepare {
            0nat
        } else {
            1
        }
        &&& self.record.nb_vectors == Seq::new(done, |i: int| self.points)
        &&& self.record.database_size.len() == done
        &&& self.trees.len() == done
        &&& self.latest <= MAX_NANOS
        &&& self.record.noted_until(self.latest)
        &&& self.record.sequential()
        &&& self.action is Finish ==> self.record.end == self.latest
    }

    /// The event is one that can follow what is being done.
    pub open spec fn expects(self, event: LoadEvent) -> bool {
        match event {
            LoadEvent::Begun => self.action is Begin,
            LoadEvent::Inserted => self.action is Insert,
            LoadEvent::Prepared => self.action is Prepare,
            LoadEvent::Built => self.action is Build,
            LoadEvent::Committed { .. } => self.action is Commit,
        }
    }

    /// The state `next` can follow this state when the event comes. Moments
    /// are whatever the clock shows, and it never goes back.
    pub open spec fn leads_to(self, event: LoadEvent, next: LoadView) -> bool {
        &&& next.points == self.points
        &&& next.started == self.started
        &&& self.latest <= next.latest
        &&& match event {
            LoadEvent::Begun => {
                &&& next.action == LoadAction::Insert { from: 0, to: self.points }
                &&& next.trees == self.trees
                &&& exists|a: nat|
                    {
                        &&& self.latest <= a <= next.latest
                        &&& read_after(self.started, self.latest, a)
                        &&& read_after(self.started, a, next.latest)
                        &&& next.record == #[trigger] self.record.with_insertion(a, next.latest)
                    }
            },
            LoadEvent::Inserted => {
                &&& next.action is Prepare
                &&& next.trees == self.trees
                &&& next.record == self.record.with_insertion_end(next.latest)
                &&& read_after(self.started, self.latest, next.latest)
            },
            LoadEvent::Prepared => {
                &&& next.action is Build
                &&& next.trees == self.trees
                &&& exists|a: nat|
                    {
                        &&& self.latest <= a <= next.latest
                        &&& read_after(self.started, self.latest, a)
                        &&& read_after(self.started, a, next.latest)
                        &&& next.record == #[trigger] self.record.with_building(a, next.latest)
                    }
            },
            LoadEvent::Built => {
                &&& next.action is Commit
                &&& next.trees == self.trees
                &&& next.record == self.record.with_building_end(next.latest)
                &&& read_after(self.started, self.latest, next.latest)
            },
            LoadEvent::Committed { nb_trees, database_size } => {
                &&& next.action is Finish
                &&& next.trees == self.trees.push(nb_trees)
                &&& next.record == self.record.with_nb_vectors(self.points).with_database_size(
                    database_size,
                ).with_end(next.latest)
                &&& read_after(self.started, self.latest, next.latest)
            },
        }
    }
}

/// A load of points into an index, all at once.
#[derive(Debug)]
pub struct Load {
    metrics: IndexingMetrics,
    points: usize,
    action: LoadAction,
}

impl View for Load {
    type V = LoadView;

    closed spec fn view(&self) -> LoadView {
        LoadView {
            points: self.points,
            action: self.action,
            record: self.metrics.record(),
            started: self.metrics.started(),
            latest: self.metrics.latest(),
            trees: self.metrics.trees(),
        }
    }
}

impl Load {
    /// Begins a load of so many points.
    pub fn begin(points: usize) -> (load: Load)
        ensures
            load@.consistent(),
            load@.points == points,
            load@.action == (LoadAction::Begin { from: 0, to: points }),
            load@.trees == Seq::<usize>::empty(),
            load@.record == RecordView::empty(load@.latest),
            read_after(load@.started, 0, load@.latest),
    {
        let metrics = IndexingMetrics::new();
        let load = Load { metrics, points, action: LoadAction::Begin { from: 0, to: points } };
        assert(load@.record.nb_vectors =~= Seq::new(0, |i: int| points));
        load
    }

    /// Begins a load of points that must all have so many components, or else
    /// gives the position of the first that has not.
    pub fn begin_with<T>(points: &[(u32, &[T])], dimensions: usize) -> (load: Result<Load, usize>)
        ensures
            match load {
                Err(p) => is_first_misfit(points@, dimensions, p as int),
                Ok(load) => {
                    &&& all_fit(points@, dimensions)
                    &&& load@.consistent()
                    &&& load@.points == points@.len()
                    &&& load@.trees == Seq::<usize>::empty()
                    &&& load@.action == LoadAction::Begin { from: 0, to: points@.len() as usize }
                    &&& load@.record == RecordView::empty(load@.latest)
                    &&& read_after(load@.started, 0, load@.latest)
                },
            },
    {
        match first_misfit(points, dimensions) {
            Some(p) => Err(p),
            None => Ok(Load::begin(points.len())),
        }
    }

    /// What is to be done.
    pub fn action(&self) -> (action: LoadAction)
        ensures
            action == self@.action,
    {
        self.action
    }

    /// Goes on after what was to be done is done.
    pub fn advance(&mut self, event: LoadEvent)
        requires
            old(self)@.consistent(),
            old(self)@.expects(event),
        ensures
            final(self)@.consistent(),
            old(self)@.leads_to(event, final(self)@),
    {
        let ghost before = self@;
        match event {
            LoadEvent::Begun => {
                self.metrics.start_insertion();
                self.action = LoadAction::Insert { from: 0, to: self.points };
                let ghost a = choose|a: nat|
                    {
                        &&& before.latest <= a <= self@.latest
                        &&& read_after(before.started, before.latest, a)
                        &&& read_after(before.started, a, self@.latest)
                        &&& self@.record == #[trigger] before.record.with_insertion(a, self@.latest)
                    };
                assert(self@.record == before.record.with_insertion(a, self@.latest));
            },
            LoadEvent::Inserted => {
                self.metrics.end_insertion();
                self.action = LoadAction::Prepare;
            },
            LoadEvent::Prepared => {
                self.metrics.start_building();
                self.action = LoadAction::Build;
                let ghost a = choose|a: nat|
                    {
                        &&& before.latest <= a <= self@.latest
                        &&& read_after(before.started, before.latest, a)
                        &&& read_after(before.started, a, self@.latest)
                        &&& self@.record == #[trigger] before.record.with_building(a, self@.latest)
                    };
                assert(self@.record == before.record.with_building(a, self@.latest));
            },
            LoadEvent::Built => {
                self.metrics.end_building();
                self.action = LoadAction::Commit;
            },
            LoadEvent::Committed { nb_trees, database_size } => {
                self.metrics.new_nb_trees(nb_trees);
                self.metrics.new_nb_vectors(self.points);
                self.metrics.new_database_size(database_size);
                self.metrics.end();
                self.action = LoadAction::Finish;
                assert(self@.record.nb_vectors =~= Seq::new(1, |i: int| before.points));
            },
        }
    }

    /// What was measured.
    pub fn into_metrics(self) -> (metrics: IndexingMetrics)
        ensures
            metrics.record() == self@.record,
            metrics.started() == self@.started,
            metrics.latest() == self@.latest,
            metrics.trees() == self@.trees,
    {
        self.metrics
    }
}

/// What each event changes: the beginning of an insertion or of a building adds
/// a pair of moments that the clock shows, its end moves the second of them to
/// the moment that the clock shows then, and a commit adds what was measured.
/// All else stays, and the moment that is counted from stays in any case.
pub proof fn lemma_load_moves(load: LoadView, event: LoadEvent, next: LoadView)
    requires
        load.consistent(),
        load.expects(event),
        load.leads_to(event, next),
    ensures
        next.points == load.points,
        next.started == load.started,
        load.latest <= next.latest,
        match event {
            LoadEvent::Begun => {
                &&& next.action == LoadAction::Insert { from: 0, to: load.points }
                &&& next.trees == load.trees
                &&& next.record.inserts.len() == load.record.inserts.len() + 1
                &&& next.record.inserts.drop_last() == load.record.inserts
                &&& next.record.inserts.last().1 == next.latest
                &&& read_after(load.started, load.latest, next.record.inserts.last().0)
                &&& read_after(load.started, next.record.inserts.last().0, next.latest)
                &&& next.record.builds == load.record.builds
                &&& next.record.nb_vectors == load.record.nb_vectors
                &&& next.record.database_size == load.record.database_size
                &&& next.record.end == load.record.end
            },
            LoadEvent::Inserted => {
                &&& next.action is Prepare
                &&& next.trees == load.trees
                &&& next.record.inserts == load.record.inserts.drop_last() + seq![
                    (load.record.inserts.last().0, next.latest),
                ]
                &&& read_after(load.started, load.latest, next.latest)
                &&& next.record.builds == load.record.builds
                &&& next.record.nb_vectors == load.record.nb_vectors
                &&& next.record.database_size == load.record.database_size
                &&& next.record.end == load.record.end
            },
            LoadEvent::Prepared => {
                &&& next.action is Build
                &&& next.trees == load.trees
                &&& next.record.builds.len() == load.record.builds.len() + 1
                &&& next.record.builds.drop_last() == load.record.builds
                &&& next.record.builds.last().1 == next.latest
                &&& read_after(load.started, load.latest, next.record.builds.last().0)
                &&& read_after(load.started, next.record.builds.last().0, next.latest)
                &&& next.record.inserts == load.record.inserts
                &&& next.record.nb_vectors == load.record.nb_vectors
                &&& next.record.database_size == load.record.database_size
                &&& next.record.end == load.record.end
            },
            LoadEvent::Built => {
                &&& next.action is Commit
                &&& next.trees == load.trees
                &&& next.record.builds == load.record.builds.drop_last() + seq![
                    (load.record.builds.last().0, next.latest),
                ]
                &&& read_after(load.started, load.latest, next.latest)
                &&& next.record.inserts == load.record.inserts
                &&& next.record.nb_vectors == load.record.nb_vectors
                &&& next.record.database_size == load.record.database_size
                &&& next.record.end == load.record.end
            },
            LoadEvent::Committed { nb_trees, database_size } => {
                &&& next.action is Finish
                &&& next.trees == load.trees + seq![nb_trees]
                &&& next.record.nb_vectors == load.record.nb_vectors + seq![load.points]
                &&& next.record.database_size == load.record.database_size + seq![database_size]
                &&& next.record.inserts == load.record.inserts
                &&& next.record.builds == load.record.builds
                &&& next.record.end == next.latest
                &&& read_after(load.started, load.latest, next.latest)
            },
        },
{
    lemma_notes(load.record, 0, next.latest, 0);
    match event {
        LoadEvent::Begun => {
            assert(next.record.inserts.drop_last() =~= load.record.inserts);
        },
        LoadEvent::Prepared => {
            assert(next.record.builds.drop_last() =~= load.record.builds);
        },
        _ => {},
    }
}

/// When a load is finished, there is one of each measure, and the number of
/// vectors is that of the points: no row of the report lacks a cell, and none
/// has a cell too many.
pub proof fn lemma_finished_load_is_complete(load: LoadView)
    requires
        load.consistent(),
        load.action is Finish,
    ensures
        load.record.inserts.len() == 1,
        load.record.builds.len() == 1,
        load.record.database_size.len() == 1,
        load.trees.len() == 1,
        load.record.nb_vectors == seq![load.points],
        columns(load.record.rows_with_trees(load.trees)) == 1,
{
    reveal_with_fuel(columns_of, 6);
    assert(load.record.nb_vectors =~= seq![load.points]);
}

/// The moments of a finished load are in order: the insertion ends before the
/// building begins, and that before the end. So the step does not take longer
/// than the whole, and the report can always be written.
pub proof fn lemma_finished_load_is_in_order(load: LoadView)
    requires
        load.consistent(),
        load.action is Finish,
    ensures
        load.record.inserts[0].0 <= load.record.inserts[0].1 <= load.record.builds[0].0
            <= load.record.builds[0].1 <= load.record.end,
        load.record.step_time(0) <= load.record.end,
        load.record.reportable(),
{
    lemma_step_within(load.record, load.latest, 0);
}

/// What a worker hears while trees are built.
#[derive(Debug, Clone, Copy, PartialEq, Eq, Structural)]
pub enum ProgressEvent {
    /// A step begins; it may be one whose own progress is counted.
    Step { counted: bool },
    /// Nothing more will come.
    Disconnected,
    /// Nothing came for a while.
    Timeout,
}

/// What a worker tells.
#[derive(Debug, Clone, Copy, PartialEq, Eq, Structural)]
pub enum ProgressAction {
    /// Name the step that begins, and how long the one before it took.
    ReportStep,
    /// Name the step that goes on, and how far it is.
    ReportRunning,
    /// Say nothing.
    Wait,
    /// Leave.
    Stop,
}

/// What a worker remembers: whether the progress of the last step is counted,
/// once there was a step.
#[derive(Debug, Clone, Copy, PartialEq, Eq, Structural)]
pub struct ProgressLog {
    pub last: Option<bool>,
}

impl ProgressLog {
    /// A worker that has heard nothing yet.
    pub fn new() -> (log: ProgressLog)
        ensures
            log.last is None,
    {
        ProgressLog { last: None }
    }

    /// Takes in an event and says what to tell.
    pub fn advance(&mut self, event: ProgressEvent) -> (action: ProgressAction)
        ensures
            match event {
                ProgressEvent::Step { counted } => {
                    &&& action is ReportStep
                    &&& final(self).last == Some(counted)
                },
                ProgressEvent::Disconnected => {
                    &&& action is Stop
                    &&& *final(self) == *old(self)
                },
                ProgressEvent::Timeout => {
                    &&& action is ReportRunning || action is Wait
                    &&& action is ReportRunning <==> old(self).last == Some(true)
                    &&& *final(self) == *old(self)
                },
            },
    {
        match event {
            ProgressEvent::Step { counted } => {
                self.last = Some(counted);
                ProgressAction::ReportStep
            },
            ProgressEvent::Disconnected => ProgressAction::Stop,
            ProgressEvent::Timeout => match self.last {
                Some(true) => ProgressAction::ReportRunning,
                _ => ProgressAction::Wait,
            },
        }
    }
}

} // verus!
