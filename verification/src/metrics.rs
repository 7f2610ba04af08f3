//! What is measured while an index is built.

use vstd::prelude::*;
use vstd::string::*;

use std::time::Instant;

use crate::report::{row_texts, table, table_text, Row, RowText};
use crate::size::{format_size, size_text};
use crate::text::{decimal, decimal_text, join, joined, texts};
use crate::time::{clock_starts, read_after, span_text, Span, Stopwatch, MAX_NANOS};

verus! {

/// What a record holds. Moments are counted in nanoseconds from the start.
#[verifier::ext_equal]
pub struct RecordView {
    /// The moment of the end.
    pub end: nat,
    /// When each insertion began and ended.
    pub inserts: Seq<(nat, nat)>,
    /// When each building began and ended.
    pub builds: Seq<(nat, nat)>,
    /// How many vectors there were, after each step.
    pub nb_vectors: Seq<usize>,
    /// How large the database was, after each step.
    pub database_size: Seq<usize>,
}

impl RecordView {
    /// A record of nothing but its end.
    pub open spec fn empty(end: nat) -> RecordView {
        RecordView {
            end,
            inserts: seq![],
            builds: seq![],
            nb_vectors: seq![],
            database_size: seq![],
        }
    }

    /// The record with one more insertion.
    pub open spec fn with_insertion(self, begun: nat, ended: nat) -> RecordView {
        RecordView { inserts: self.inserts.push((begun, ended)), ..self }
    }

    /// The record with another end of the last insertion.
    pub open spec fn with_insertion_end(self, ended: nat) -> RecordView {
        RecordView {
            inserts: self.inserts.update(
                self.inserts.len() - 1,
                (self.inserts.last().0, ended),
            ),
            ..self
        }
    }

    /// The record with one more building.
    pub open spec fn with_building(self, begun: nat, ended: nat) -> RecordView {
        RecordView { builds: self.builds.push((begun, ended)), ..self }
    }

    /// The record with another end of the last building.
    pub open spec fn with_building_end(self, ended: nat) -> RecordView {
        RecordView {
            builds: self.builds.update(self.builds.len() - 1, (self.builds.last().0, ended)),
            ..self
        }
    }

    /// The record with one more number of vectors.
    pub open spec fn with_nb_vectors(self, nb_vectors: usize) -> RecordView {
        RecordView { nb_vectors: self.nb_vectors.push(nb_vectors), ..self }
    }

    /// The record with one more size of the database.
    pub open spec fn with_database_size(self, size: usize) -> RecordView {
        RecordView { database_size: self.database_size.push(size), ..self }
    }

    /// The record with another end.
    pub open spec fn with_end(self, end: nat) -> RecordView {
        RecordView { end, ..self }
    }

    /// How many steps have both an insertion and a building.
    pub open spec fn steps(self) -> nat {
        if self.inserts.len() < self.builds.len() {
            self.inserts.len()
        } else {
            self.builds.len()
        }
    }

    /// How long step `i` took.
    pub open spec fn step_time(self, i: int) -> nat {
        interval(self.inserts[i]) + interval(self.builds[i])
    }

    /// The time of every step can be held.
    pub open spec fn reportable(self) -> bool {
        forall|i: int| 0 <= i < self.steps() ==> #[trigger] self.step_time(i) <= MAX_NANOS
    }

    /// No moment is later than `latest`, and nothing ends before it begins.
    pub open spec fn noted_until(self, latest: nat) -> bool {
        &&& self.end <= latest
        &&& forall|i: int|
            0 <= i < self.inserts.len() ==> (#[trigger] self.inserts[i]).0 <= self.inserts[i].1
                <= latest
        &&& forall|i: int|
            0 <= i < self.builds.len() ==> (#[trigger] self.builds[i]).0 <= self.builds[i].1
                <= latest
    }

    /// The insertion of a step ends before its building begins, and its
    /// building ends before the next insertion begins.
    pub open spec fn sequential(self) -> bool {
        &&& forall|i: int|
            0 <= i < self.steps() ==> (#[trigger] self.inserts[i]).1 <= self.builds[i].0
        &&& forall|i: int, j: int|
            0 <= i < j < self.inserts.len() && i < self.builds.len() ==> (
            #[trigger] self.builds[i]).1 <= (#[trigger] self.inserts[j]).0
    }

    /// The first line of the report: the whole time, and that of each step.
    pub open spec fn head(self) -> Seq<char> {
        head_line(
            span_text(self.end),
            Seq::new(self.steps(), |i: int| span_text(self.step_time(i))),
        )
    }

    /// The row of the numbers of vectors.
    pub open spec fn vectors_row(self) -> RowText {
        RowText { label: "  => Vectors:    "@, cells: number_texts(self.nb_vectors) }
    }

    /// The row of the lengths of the insertions.
    pub open spec fn insertions_row(self) -> RowText {
        RowText { label: "  => Insertions: "@, cells: interval_texts(self.inserts) }
    }

    /// The row of the lengths of the buildings.
    pub open spec fn builds_row(self) -> RowText {
        RowText { label: "  => Builds:     "@, cells: interval_texts(self.builds) }
    }

    /// The row of the sizes of the database.
    pub open spec fn sizes_row(self) -> RowText {
        RowText { label: "  => Db size:    "@, cells: size_texts(self.database_size) }
    }

    /// The rows of the report.
    pub open spec fn rows(self) -> Seq<RowText> {
        seq![self.vectors_row(), self.insertions_row(), self.builds_row(), self.sizes_row()]
    }

    /// The rows of the report, with the numbers of trees.
    pub open spec fn rows_with_trees(self, nb_trees: Seq<usize>) -> Seq<RowText> {
        seq![
            self.vectors_row(),
            self.insertions_row(),
            self.builds_row(),
            RowText { label: "  => Trees:      "@, cells: number_texts(nb_trees) },
            self.sizes_row(),
        ]
    }

    /// The report on the record.
    pub open spec fn report(self) -> Seq<char> {
        self.head() + table(self.rows())
    }

    /// The report on the record and on the numbers of trees.
    pub open spec fn report_with_trees(self, nb_trees: Seq<usize>) -> Seq<char> {
        self.head() + table(self.rows_with_trees(nb_trees))
    }
}

/// What a note changes: it adds one pair of moments, moves the end of the last
/// pair, or adds one number, and leaves everything else as it was.
pub proof fn lemma_notes(record: RecordView, a: nat, b: nat, n: usize)
    ensures
        RecordView::empty(a).end == a && RecordView::empty(a).inserts.len() == 0
            && RecordView::empty(a).builds.len() == 0 && RecordView::empty(a).nb_vectors.len() == 0
            && RecordView::empty(a).database_size.len() == 0,
        record.with_insertion(a, b) == (RecordView {
            end: record.end,
            inserts: record.inserts + seq![(a, b)],
            builds: record.builds,
            nb_vectors: record.nb_vectors,
            database_size: record.database_size,
        }),
        record.inserts.len() > 0 ==> record.with_insertion_end(b) == (RecordView {
            end: record.end,
            inserts: record.inserts.drop_last() + seq![(record.inserts.last().0, b)],
            builds: record.builds,
            nb_vectors: record.nb_vectors,
            database_size: record.database_size,
        }),
        record.with_building(a, b) == (RecordView {
            end: record.end,
            inserts: record.inserts,
            builds: record.builds + seq![(a, b)],
            nb_vectors: record.nb_vectors,
            database_size: record.database_size,
        }),
        record.builds.len() > 0 ==> record.with_building_end(b) == (RecordView {
            end: record.end,
            inserts: record.inserts,
            builds: record.builds.drop_last() + seq![(record.builds.last().0, b)],
            nb_vectors: record.nb_vectors,
            database_size: record.database_size,
        }),
        record.with_nb_vectors(n) == (RecordView {
            end: record.end,
            inserts: record.inserts,
            builds: record.builds,
            nb_vectors: record.nb_vectors + seq![n],
            database_size: record.database_size,
        }),
        record.with_database_size(n) == (RecordView {
            end: record.end,
            inserts: record.inserts,
            builds: record.builds,
            nb_vectors: record.nb_vectors,
            database_size: record.database_size + seq![n],
        }),
        record.with_end(a) == (RecordView {
            end: a,
            inserts: record.inserts,
            builds: record.builds,
            nb_vectors: record.nb_vectors,
            database_size: record.database_size,
        }),
{
    assert(record.with_insertion(a, b).inserts =~= record.inserts + seq![(a, b)]);
    assert(record.with_building(a, b).builds =~= record.builds + seq![(a, b)]);
    assert(record.with_nb_vectors(n).nb_vectors =~= record.nb_vectors + seq![n]);
    assert(record.with_database_size(n).database_size =~= record.database_size + seq![n]);
    if record.inserts.len() > 0 {
        assert(record.with_insertion_end(b).inserts =~= record.inserts.drop_last() + seq![
            (record.inserts.last().0, b),
        ]);
    }
    if record.builds.len() > 0 {
        assert(record.with_building_end(b).builds =~= record.builds.drop_last() + seq![
            (record.builds.last().0, b),
        ]);
    }
}

/// How long things took: from the first moment of a pair to the second, and no
/// time where they are the wrong way round. A step takes as long as its
/// insertion and its building together, and a report can be written if each of
/// these sums can be held.
pub proof fn lemma_lengths(record: RecordView, moments: (nat, nat))
    ensures
        moments.0 <= moments.1 ==> interval(moments) + moments.0 == moments.1,
        moments.0 > moments.1 ==> interval(moments) == 0,
        record.steps() <= record.inserts.len(),
        record.steps() <= record.builds.len(),
        record.steps() == record.inserts.len() || record.steps() == record.builds.len(),
        forall|i: int| #[trigger]
            record.step_time(i) == interval(record.inserts[i]) + interval(record.builds[i]),
        record.reportable() <==> forall|i: int|
            0 <= i < record.inserts.len() && i < record.builds.len() ==> interval(
                #[trigger] record.inserts[i],
            ) + interval(#[trigger] record.builds[i]) <= MAX_NANOS,
{
    if record.reportable() {
        assert forall|i: int|
            0 <= i < record.inserts.len() && i < record.builds.len() implies interval(
            #[trigger] record.inserts[i],
        ) + interval(#[trigger] record.builds[i]) <= MAX_NANOS by {
            assert(record.step_time(i) <= MAX_NANOS);
        }
    }
    if forall|i: int|
        0 <= i < record.inserts.len() && i < record.builds.len() ==> interval(
            #[trigger] record.inserts[i],
        ) + interval(#[trigger] record.builds[i]) <= MAX_NANOS {
        assert forall|i: int| 0 <= i < record.steps() implies #[trigger] record.step_time(i)
            <= MAX_NANOS by {
            assert(interval(record.inserts[i]) + interval(record.builds[i]) <= MAX_NANOS);
        }
    }
}

/// What a report says: the whole time, then that of each step, then a table of
/// all that was measured, with the numbers of trees where there are any.
pub proof fn lemma_report(record: RecordView, nb_trees: Seq<usize>)
    ensures
        ({
            let steps = Seq::new(
                record.steps(),
                |i: int| span_text(interval(record.inserts[i]) + interval(record.builds[i])),
            );
            let head = "Total time to index: "@ + span_text(record.end) + " ("@ + joined(
                steps,
                " + "@,
            ) + ")\n"@;
            let vectors = RowText {
                label: "  => Vectors:    "@,
                cells: record.nb_vectors.map_values(|n: usize| decimal(n as nat)),
            };
            let insertions = RowText {
                label: "  => Insertions: "@,
                cells: record.inserts.map_values(|m: (nat, nat)| span_text(interval(m))),
            };
            let builds = RowText {
                label: "  => Builds:     "@,
                cells: record.builds.map_values(|m: (nat, nat)| span_text(interval(m))),
            };
            let trees = RowText {
                label: "  => Trees:      "@,
                cells: nb_trees.map_values(|n: usize| decimal(n as nat)),
            };
            let sizes = RowText {
                label: "  => Db size:    "@,
                cells: record.database_size.map_values(|n: usize| size_text(n)),
            };
            &&& record.report() == head + table(seq![vectors, insertions, builds, sizes])
            &&& record.report_with_trees(nb_trees) == head + table(
                seq![vectors, insertions, builds, trees, sizes],
            )
        }),
{
    assert(record.vectors_row().cells =~= record.nb_vectors.map_values(
        |n: usize| decimal(n as nat),
    ));
    assert(number_texts(nb_trees) =~= nb_trees.map_values(|n: usize| decimal(n as nat)));
    assert(record.insertions_row().cells =~= record.inserts.map_values(
        |m: (nat, nat)| span_text(interval(m)),
    ));
    assert(record.builds_row().cells =~= record.builds.map_values(
        |m: (nat, nat)| span_text(interval(m)),
    ));
    assert(record.sizes_row().cells =~= record.database_size.map_values(|n: usize| size_text(n)));
    assert(Seq::new(record.steps(), |i: int| span_text(record.step_time(i))) =~= Seq::new(
        record.steps(),
        |i: int| span_text(interval(record.inserts[i]) + interval(record.builds[i])),
    ));
}

/// No step takes longer than from the start to the latest moment, if each
/// building follows its insertion.
pub proof fn lemma_step_within(record: RecordView, latest: nat, i: int)
    requires
        record.noted_until(latest),
        record.sequential(),
        0 <= i < record.steps(),
    ensures
        record.inserts[i].0 <= record.inserts[i].1 <= record.builds[i].0 <= record.builds[i].1
            <= latest,
        record.step_time(i) <= latest,
{
}

/// The first line of a report, from the whole time and that of each step.
pub open spec fn head_line(total: Seq<char>, steps: Seq<Seq<char>>) -> Seq<char> {
    "Total time to index: "@ + total + " ("@ + joined(steps, " + "@) + ")\n"@
}

/// The first line of a report, from the whole time and that of each step.
pub fn head_line_of(total: &str, steps: &Vec<String>) -> (text: String)
    ensures
        text@ == head_line(total@, texts(steps@)),
        text@ == "Total time to index: "@ + total@ + " ("@ + joined(texts(steps@), " + "@) + ")\n"@,
{
    let mut text = String::from_str("Total time to index: ");
    text.append(total);
    text.append(" (");
    text.append(join(steps, " + ").as_str());
    text.append(")\n");
    text
}

/// The time between two moments; none where the first is the later one.
pub open spec fn interval(moments: (nat, nat)) -> nat {
    if moments.1 >= moments.0 {
        (moments.1 - moments.0) as nat
    } else {
        0
    }
}

/// The lengths of time between the moments, as reports write them.
pub open spec fn interval_texts(moments: Seq<(nat, nat)>) -> Seq<Seq<char>> {
    Seq::new(moments.len(), |i: int| span_text(interval(moments[i])))
}

/// The numerals of the numbers.
pub open spec fn number_texts(numbers: Seq<usize>) -> Seq<Seq<char>> {
    Seq::new(numbers.len(), |i: int| decimal(numbers[i] as nat))
}

/// The sizes as reports write them.
pub open spec fn size_texts(sizes: Seq<usize>) -> Seq<Seq<char>> {
    Seq::new(sizes.len(), |i: int| size_text(sizes[i]))
}

/// The moments in nanoseconds.
pub open spec fn moments_view(moments: Seq<(Span, Span)>) -> Seq<(nat, nat)> {
    Seq::new(moments.len(), |i: int| (moments[i].0@, moments[i].1@))
}

/// What was measured, with moments counted from the start.
#[derive(Debug)]
pub struct Record {
    end: Span,
    insert_durations: Vec<(Span, Span)>,
    build_durations: Vec<(Span, Span)>,
    nb_vectors: Vec<usize>,
    database_size: Vec<usize>,
}

impl View for Record {
    type V = RecordView;

    closed spec fn view(&self) -> RecordView {
        RecordView {
            end: self.end@,
            inserts: moments_view(self.insert_durations@),
            builds: moments_view(self.build_durations@),
            nb_vectors: self.nb_vectors@,
            database_size: self.database_size@,
        }
    }
}

/// Moves the end of the last pair of moments.
fn set_last_end(moments: &mut Vec<(Span, Span)>, ended: Span)
    requires
        old(moments)@.len() > 0,
    ensures
        moments_view(final(moments)@) == moments_view(old(moments)@).update(
            old(moments)@.len() - 1,
            (moments_view(old(moments)@).last().0, ended@),
        ),
{
    let ghost before = moments_view(moments@);
    let last: usize = moments.len() - 1;
    let begun = moments[last].0;
    moments[last] = (begun, ended);
    assert(moments_view(moments@) =~= before.update(last as int, (before.last().0, ended@)));
}

/// The lengths of time between the moments, as reports write them.
fn interval_cells(moments: &Vec<(Span, Span)>) -> (cells: Vec<String>)
    ensures
        texts(cells@) == interval_texts(moments_view(moments@)),
{
    let mut cells: Vec<String> = Vec::new();
    let mut i: usize = 0;
    while i < moments.len()
        invariant
            i <= moments@.len(),
            cells@.len() == i,
            forall|k: int|
                0 <= k < i ==> (#[trigger] cells@[k])@ == interval_texts(
                    moments_view(moments@),
                )[k],
        decreases moments@.len() - i,
    {
        cells.push(moments[i].1.since(moments[i].0).to_text());
        i += 1;
    }
    assert(texts(cells@) =~= interval_texts(moments_view(moments@)));
    cells
}

/// The numerals of the numbers.
fn number_cells(numbers: &Vec<usize>) -> (cells: Vec<String>)
    ensures
        texts(cells@) == number_texts(numbers@),
{
    let mut cells: Vec<String> = Vec::new();
    let mut i: usize = 0;
    while i < numbers.len()
        invariant
            i <= numbers@.len(),
            cells@.len() == i,
            forall|k: int| 0 <= k < i ==> (#[trigger] cells@[k])@ == number_texts(numbers@)[k],
        decreases numbers@.len() - i,
    {
        cells.push(decimal_text(numbers[i]));
        i += 1;
    }
    assert(texts(cells@) =~= number_texts(numbers@));
    cells
}

/// The sizes as reports write them.
fn size_cells(sizes: &Vec<usize>) -> (cells: Vec<String>)
    ensures
        texts(cells@) == size_texts(sizes@),
{
    let mut cells: Vec<String> = Vec::new();
    let mut i: usize = 0;
    while i < sizes.len()
        invariant
            i <= sizes@.len(),
            cells@.len() == i,
            forall|k: int| 0 <= k < i ==> (#[trigger] cells@[k])@ == size_texts(sizes@)[k],
        decreases sizes@.len() - i,
    {
        cells.push(format_size(sizes[i]));
        i += 1;
    }
    assert(texts(cells@) =~= size_texts(sizes@));
    cells
}

impl Record {
    /// A record of nothing but its end.
    pub fn new(end: Span) -> (record: Record)
        ensures
            record@ == RecordView::empty(end@),
    {
        let record = Record {
            end,
            insert_durations: Vec::new(),
            build_durations: Vec::new(),
            nb_vectors: Vec::new(),
            database_size: Vec::new(),
        };
        assert(record@ =~= RecordView::empty(end@));
        record
    }

    /// Notes an insertion.
    pub fn start_insertion(&mut self, begun: Span, ended: Span)
        ensures
            final(self)@ == old(self)@.with_insertion(begun@, ended@),
    {
        self.insert_durations.push((begun, ended));
        assert(self@ =~= old(self)@.with_insertion(begun@, ended@));
    }

    /// Notes when the last insertion ended.
    pub fn end_insertion(&mut self, ended: Span)
        requires
            old(self)@.inserts.len() > 0,
        ensures
            final(self)@ == old(self)@.with_insertion_end(ended@),
    {
        set_last_end(&mut self.insert_durations, ended);
    }

    /// Notes a building.
    pub fn start_building(&mut self, begun: Span, ended: Span)
        ensures
            final(self)@ == old(self)@.with_building(begun@, ended@),
    {
        self.build_durations.push((begun, ended));
        assert(self@ =~= old(self)@.with_building(begun@, ended@));
    }

    /// Notes when the last building ended.
    pub fn end_building(&mut self, ended: Span)
        requires
            old(self)@.builds.len() > 0,
        ensures
            final(self)@ == old(self)@.with_building_end(ended@),
    {
        set_last_end(&mut self.build_durations, ended);
    }

    /// Notes how many vectors there are.
    pub fn new_nb_vectors(&mut self, nb_vectors: usize)
        ensures
            final(self)@ == old(self)@.with_nb_vectors(nb_vectors),
    {
        self.nb_vectors.push(nb_vectors);
    }

    /// Notes how large the database is.
    pub fn new_database_size(&mut self, size: usize)
        ensures
            final(self)@ == old(self)@.with_database_size(size),
    {
        self.database_size.push(size);
    }

    /// Notes when everything ended.
    pub fn end(&mut self, end: Span)
        ensures
            final(self)@ == old(self)@.with_end(end@),
    {
        self.end = end;
    }

    /// How long the insertion of step `i` took.
    fn insertion_time(&self, i: usize) -> (span: Span)
        requires
            i < self@.inserts.len(),
        ensures
            span@ == interval(self@.inserts[i as int]),
    {
        self.insert_durations[i].1.since(self.insert_durations[i].0)
    }

    /// How long the building of step `i` took.
    fn building_time(&self, i: usize) -> (span: Span)
        requires
            i < self@.builds.len(),
        ensures
            span@ == interval(self@.builds[i as int]),
    {
        self.build_durations[i].1.since(self.build_durations[i].0)
    }

    /// How many steps have both an insertion and a building.
    fn step_count(&self) -> (count: usize)
        ensures
            count == self@.steps(),
    {
        let inserts: usize = self.insert_durations.len();
        let builds: usize = self.build_durations.len();
        if inserts < builds {
            inserts
        } else {
            builds
        }
    }

    /// Whether the time of every step can be held.
    pub fn is_reportable(&self) -> (yes: bool)
        ensures
            yes == self@.reportable(),
    {
        let count: usize = self.step_count();
        let mut i: usize = 0;
        while i < count
            invariant
                i <= count,
                count == self@.steps(),
                forall|k: int| 0 <= k < i ==> #[trigger] self@.step_time(k) <= MAX_NANOS,
            decreases count - i,
        {
            if !self.insertion_time(i).can_add(self.building_time(i)) {
                assert(self@.step_time(i as int) > MAX_NANOS);
                return false;
            }
            i += 1;
        }
        true
    }

    /// The first line of the report.
    fn head_text(&self) -> (text: String)
        requires
            self@.reportable(),
        ensures
            text@ == self@.head(),
    {
        let count: usize = self.step_count();
        let mut steps: Vec<String> = Vec::new();
        let mut i: usize = 0;
        while i < count
            invariant
                i <= count,
                count == self@.steps(),
                self@.reportable(),
                steps@.len() == i,
                forall|k: int|
                    0 <= k < i ==> (#[trigger] steps@[k])@ == span_text(self@.step_time(k)),
            decreases count - i,
        {
            assert(self@.step_time(i as int) <= MAX_NANOS);
            steps.push(self.insertion_time(i).plus(self.building_time(i)).to_text());
            i += 1;
        }
        assert(texts(steps@) =~= Seq::new(
            self@.steps(),
            |i: int| span_text(self@.step_time(i)),
        ));
        head_line_of(self.end.to_text().as_str(), &steps)
    }

    /// The report on the record.
    pub fn to_text(&self) -> (text: String)
        requires
            self@.reportable(),
        ensures
            text@ == self@.report(),
    {
        let mut rows: Vec<Row> = Vec::new();
        rows.push(Row { label: "  => Vectors:    ", cells: number_cells(&self.nb_vectors) });
        rows.push(
            Row { label: "  => Insertions: ", cells: interval_cells(&self.insert_durations) },
        );
        rows.push(
            Row { label: "  => Builds:     ", cells: interval_cells(&self.build_durations) },
        );
        rows.push(Row { label: "  => Db size:    ", cells: size_cells(&self.database_size) });
        assert(row_texts(rows@) =~= self@.rows());
        let mut text = self.head_text();
        text.append(table_text(&rows).as_str());
        text
    }

    /// The report on the record and on the numbers of trees.
    pub fn to_text_with_trees(&self, nb_trees: &Vec<usize>) -> (text: String)
        requires
            self@.reportable(),
        ensures
            text@ == self@.report_with_trees(nb_trees@),
    {
        let mut rows: Vec<Row> = Vec::new();
        rows.push(Row { label: "  => Vectors:    ", cells: number_cells(&self.nb_vectors) });
        rows.push(
            Row { label: "  => Insertions: ", cells: interval_cells(&self.insert_durations) },
        );
        rows.push(
            Row { label: "  => Builds:     ", cells: interval_cells(&self.build_durations) },
        );
        rows.push(Row { label: "  => Trees:      ", cells: number_cells(nb_trees) });
        rows.push(Row { label: "  => Db size:    ", cells: size_cells(&self.database_size) });
        assert(row_texts(rows@) =~= self@.rows_with_trees(nb_trees@));
        let mut text = self.head_text();
        text.append(table_text(&rows).as_str());
        text
    }
}

/// What is measured while an index of trees is built. Every note of a moment
/// reads the clock.
#[derive(Debug)]
pub struct IndexingMetrics {
    watch: Stopwatch,
    record: Record,
    nb_trees: Vec<usize>,
}

impl IndexingMetrics {
    /// What was measured so far.
    pub closed spec fn record(&self) -> RecordView {
        self.record@
    }

    /// The numbers of trees.
    pub closed spec fn trees(&self) -> Seq<usize> {
        self.nb_trees@
    }

    /// The moment that everything is counted from.
    pub closed spec fn started(&self) -> Instant {
        self.watch.started()
    }

    /// The moment that the clock showed last, in nanoseconds from the start.
    pub closed spec fn latest(&self) -> nat {
        self.watch.latest()
    }

    /// Nothing that was measured lies behind the latest moment.
    pub open spec fn in_order(&self) -> bool {
        self.latest() <= MAX_NANOS && self.record().noted_until(self.latest())
    }

    /// Starts the clock.
    pub fn new() -> (metrics: IndexingMetrics)
        ensures
            metrics.record() == RecordView::empty(metrics.latest()),
            clock_starts(metrics.started()),
            read_after(metrics.started(), 0, metrics.latest()),
            metrics.trees() == Seq::<usize>::empty(),
            metrics.in_order(),
    {
        let mut watch = Stopwatch::start();
        let end = watch.read();
        IndexingMetrics { watch, record: Record::new(end), nb_trees: Vec::new() }
    }

    /// Notes that an insertion begins.
    pub fn start_insertion(&mut self)
        ensures
            exists|begun: nat|
                {
                    &&& old(self).latest() <= begun <= final(self).latest()
                    &&& read_after(old(self).started(), old(self).latest(), begun)
                    &&& read_after(old(self).started(), begun, final(self).latest())
                    &&& final(self).record() == #[trigger] old(self).record().with_insertion(
                        begun,
                        final(self).latest(),
                    )
                },
            final(self).started() == old(self).started(),
            final(self).trees() == old(self).trees(),
            old(self).in_order() ==> final(self).in_order(),
    {
        let begun = self.watch.read();
        let ended = self.watch.read();
        self.record.start_insertion(begun, ended);
        assert(self.record() == old(self).record().with_insertion(begun@, self.latest()));
    }

    /// Notes that the last insertion ends.
    pub fn end_insertion(&mut self)
        requires
            old(self).record().inserts.len() > 0,
        ensures
            final(self).record() == old(self).record().with_insertion_end(final(self).latest()),
            old(self).latest() <= final(self).latest(),
            read_after(old(self).started(), old(self).latest(), final(self).latest()),
            final(self).started() == old(self).started(),
            final(self).trees() == old(self).trees(),
            old(self).in_order() ==> final(self).in_order(),
    {
        let ended = self.watch.read();
        self.record.end_insertion(ended);
    }

    /// Notes that a building begins.
    pub fn start_building(&mut self)
        ensures
            exists|begun: nat|
                {
                    &&& old(self).latest() <= begun <= final(self).latest()
                    &&& read_after(old(self).started(), old(self).latest(), begun)
                    &&& read_after(old(self).started(), begun, final(self).latest())
                    &&& final(self).record() == #[trigger] old(self).record().with_building(
                        begun,
                        final(self).latest(),
                    )
                },
            final(self).started() == old(self).started(),
            final(self).trees() == old(self).trees(),
            old(self).in_order() ==> final(self).in_order(),
    {
        let begun = self.watch.read();
        let ended = self.watch.read();
        self.record.start_building(begun, ended);
        assert(self.record() == old(self).record().with_building(begun@, self.latest()));
    }

    /// Notes that the last building ends.
    pub fn end_building(&mut self)
        requires
            old(self).record().builds.len() > 0,
        ensures
            final(self).record() == old(self).record().with_building_end(final(self).latest()),
            old(self).latest() <= final(self).latest(),
            read_after(old(self).started(), old(self).latest(), final(self).latest()),
            final(self).started() == old(self).started(),
            final(self).trees() == old(self).trees(),
            old(self).in_order() ==> final(self).in_order(),
    {
        let ended = self.watch.read();
        self.record.end_building(ended);
    }

    /// Notes how many vectors there are.
    pub fn new_nb_vectors(&mut self, nb_vectors: usize)
        ensures
            final(self).record() == old(self).record().with_nb_vectors(nb_vectors),
            final(self).latest() == old(self).latest(),
            final(self).started() == old(self).started(),
            final(self).trees() == old(self).trees(),
            old(self).in_order() ==> final(self).in_order(),
    {
        self.record.new_nb_vectors(nb_vectors);
    }

    /// Notes how large the database is.
    pub fn new_database_size(&mut self, size: usize)
        ensures
            final(self).record() == old(self).record().with_database_size(size),
            final(self).latest() == old(self).latest(),
            final(self).started() == old(self).started(),
            final(self).trees() == old(self).trees(),
            old(self).in_order() ==> final(self).in_order(),
    {
        self.record.new_database_size(size);
    }

    /// Notes how many trees there are.
    pub fn new_nb_trees(&mut self, nb_trees: usize)
        ensures
            final(self).record() == old(self).record(),
            final(self).trees() == old(self).trees().push(nb_trees),
            final(self).latest() == old(self).latest(),
            final(self).started() == old(self).started(),
            old(self).in_order() ==> final(self).in_order(),
    {
        self.nb_trees.push(nb_trees);
    }

    /// Notes that everything ends.
    pub fn end(&mut self)
        ensures
            final(self).record() == old(self).record().with_end(final(self).latest()),
            old(self).latest() <= final(self).latest(),
            read_after(old(self).started(), old(self).latest(), final(self).latest()),
            final(self).started() == old(self).started(),
            final(self).trees() == old(self).trees(),
            old(self).in_order() ==> final(self).in_order(),
    {
        let end = self.watch.read();
        self.record.end(end);
    }

    /// Whether the time of every step can be held.
    pub fn is_reportable(&self) -> (yes: bool)
        ensures
            yes == self.record().reportable(),
    {
        self.record.is_reportable()
    }

    /// The report.
    pub fn to_text(&self) -> (text: String)
        requires
            self.record().reportable(),
        ensures
            text@ == self.record().report_with_trees(self.trees()),
    {
        self.record.to_text_with_trees(&self.nb_trees)
    }
}

} // verus!
