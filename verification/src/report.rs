//! The table that a report ends with: rows of cells, aligned in columns.

use vstd::prelude::*;
use vstd::string::*;
use vstd::utf8::encode_utf8;

use crate::text::{
    byte_len, byte_length, join, joined, lemma_byte_len, lemma_joined, pad_left, padded, texts,
};

verus! {

/// A row: its label, and its cells from left to right.
#[derive(Debug)]
pub struct Row {
    pub label: &'static str,
    pub cells: Vec<String>,
}

/// The text of a row's parts.
pub struct RowText {
    pub label: Seq<char>,
    pub cells: Seq<Seq<char>>,
}

impl View for Row {
    type V = RowText;

    open spec fn view(&self) -> RowText {
        RowText { label: self.label@, cells: texts(self.cells@) }
    }
}

/// The text of the parts of every row.
pub open spec fn row_texts(rows: Seq<Row>) -> Seq<RowText> {
    Seq::new(rows.len(), |r: int| rows[r]@)
}

/// How many columns the first `n` rows all have.
pub open spec fn columns_of(rows: Seq<RowText>, n: nat) -> nat
    decreases n,
{
    if n == 0 {
        0
    } else {
        let own = rows[n - 1].cells.len();
        let others = columns_of(rows, (n - 1) as nat);
        if n == 1 || own < others {
            own
        } else {
            others
        }
    }
}

/// How many columns the table has: those that no row lacks.
pub open spec fn columns(rows: Seq<RowText>) -> nat {
    columns_of(rows, rows.len())
}

/// The bytes of the longest cell of column `i` in the first `n` rows.
pub open spec fn width_of(rows: Seq<RowText>, i: int, n: nat) -> nat
    decreases n,
{
    if n == 0 {
        0
    } else {
        let own = byte_len(rows[n - 1].cells[i]);
        let others = width_of(rows, i, (n - 1) as nat);
        if own > others {
            own
        } else {
            others
        }
    }
}

/// The width of column `i`: the bytes of its longest cell.
pub open spec fn width(rows: Seq<RowText>, i: int) -> nat {
    width_of(rows, i, rows.len())
}

/// The cells of row `r`, moved to the right of their columns.
pub open spec fn aligned_cells(rows: Seq<RowText>, r: int) -> Seq<Seq<char>> {
    Seq::new(columns(rows), |i: int| padded(rows[r].cells[i], width(rows, i)))
}

/// The line of row `r`: its label and its cells, with commas between them.
pub open spec fn row_line(rows: Seq<RowText>, r: int) -> Seq<char> {
    rows[r].label + joined(aligned_cells(rows, r), ", "@)
}

/// The lines of all rows, without a newline behind the last.
pub open spec fn table(rows: Seq<RowText>) -> Seq<char> {
    joined(Seq::new(rows.len(), |r: int| row_line(rows, r)), "\n"@)
}

/// No row has fewer cells than the table has columns.
proof fn lemma_columns(rows: Seq<RowText>, n: nat)
    requires
        n <= rows.len(),
    ensures
        forall|r: int| 0 <= r < n ==> columns_of(rows, n) <= (#[trigger] rows[r]).cells.len(),
    decreases n,
{
    if n > 0 {
        lemma_columns(rows, (n - 1) as nat);
    }
}

/// No cell is longer than its column is wide.
proof fn lemma_width(rows: Seq<RowText>, i: int, n: nat)
    requires
        n <= rows.len(),
    ensures
        forall|r: int|
            0 <= r < n ==> byte_len((#[trigger] rows[r]).cells[i]) <= width_of(rows, i, n),
    decreases n,
{
    if n > 0 {
        lemma_width(rows, i, (n - 1) as nat);
    }
}

/// The columns of the table are aligned: in every row, the cell of column `i`
/// takes up exactly as many characters as the column is wide, and ends with
/// the text that it holds.
pub proof fn lemma_table_is_aligned(rows: Seq<RowText>, r: int, i: int)
    requires
        0 <= r < rows.len(),
        0 <= i < columns(rows),
    ensures
        i < rows[r].cells.len(),
        aligned_cells(rows, r)[i].len() == width(rows, i),
        aligned_cells(rows, r)[i].skip(width(rows, i) - rows[r].cells[i].len())
            == rows[r].cells[i],
{
    lemma_columns(rows, rows.len());
    lemma_width(rows, i, rows.len());
    lemma_byte_len(rows[r].cells[i]);
    let cell = rows[r].cells[i];
    assert(aligned_cells(rows, r)[i] == padded(cell, width(rows, i)));
    assert(aligned_cells(rows, r)[i].skip(width(rows, i) - cell.len()) =~= cell);
}

/// The table has as many columns as the row with the fewest cells.
pub proof fn lemma_column_count(rows: Seq<RowText>)
    ensures
        forall|r: int| 0 <= r < rows.len() ==> columns(rows) <= (#[trigger] rows[r]).cells.len(),
        rows.len() > 0 ==> exists|r: int|
            0 <= r < rows.len() && columns(rows) == (#[trigger] rows[r]).cells.len(),
        rows.len() == 0 ==> columns(rows) == 0,
{
    lemma_columns(rows, rows.len());
    if rows.len() > 0 {
        lemma_fewest(rows, rows.len());
    }
}

proof fn lemma_fewest(rows: Seq<RowText>, n: nat)
    requires
        0 < n <= rows.len(),
    ensures
        exists|r: int| 0 <= r < n && columns_of(rows, n) == (#[trigger] rows[r]).cells.len(),
    decreases n,
{
    if n > 1 {
        lemma_fewest(rows, (n - 1) as nat);
    }
    if columns_of(rows, n) == rows[n - 1].cells.len() {
        assert(rows[n - 1].cells.len() == columns_of(rows, n));
    } else {
        let r = choose|r: int|
            0 <= r < n - 1 && columns_of(rows, (n - 1) as nat) == (
            #[trigger] rows[r]).cells.len();
        assert(rows[r].cells.len() == columns_of(rows, n));
    }
}

/// A column is as wide as its longest cell has bytes.
pub proof fn lemma_column_width(rows: Seq<RowText>, i: int)
    requires
        rows.len() > 0,
    ensures
        forall|r: int|
            0 <= r < rows.len() ==> encode_utf8((#[trigger] rows[r]).cells[i]).len() <= width(
                rows,
                i,
            ),
        exists|r: int|
            0 <= r < rows.len() && encode_utf8((#[trigger] rows[r]).cells[i]).len() == width(
                rows,
                i,
            ),
{
    lemma_width(rows, i, rows.len());
    assert forall|r: int| 0 <= r < rows.len() implies encode_utf8(
        (#[trigger] rows[r]).cells[i],
    ).len() <= width(rows, i) by {
        assert(byte_len(rows[r].cells[i]) <= width_of(rows, i, rows.len()));
    }
    lemma_longest(rows, i, rows.len());
}

proof fn lemma_longest(rows: Seq<RowText>, i: int, n: nat)
    requires
        0 < n <= rows.len(),
    ensures
        exists|r: int|
            0 <= r < n && encode_utf8((#[trigger] rows[r]).cells[i]).len() == width_of(rows, i, n),
    decreases n,
{
    reveal_with_fuel(width_of, 2);
    if byte_len(rows[n - 1].cells[i]) == width_of(rows, i, n) {
        assert(encode_utf8(rows[n - 1].cells[i]).len() == width_of(rows, i, n));
    } else {
        assert(n > 1);
        lemma_longest(rows, i, (n - 1) as nat);
        let r = choose|r: int|
            0 <= r < n - 1 && encode_utf8((#[trigger] rows[r]).cells[i]).len() == width_of(
                rows,
                i,
                (n - 1) as nat,
            );
        assert(encode_utf8(rows[r].cells[i]).len() == width_of(rows, i, n));
    }
}

/// The table holds every row, in order, on a line of its own: its label, then
/// its cells of all columns, in order, each in a field as wide as its column,
/// with commas between them.
pub proof fn lemma_table(rows: Seq<RowText>)
    ensures
        table(rows) == rows.map(
            |r: int, row: RowText|
                (if r == 0 {
                    row.label
                } else {
                    "\n"@ + row.label
                }) + row.cells.take(columns(rows) as int).map(
                    |i: int, cell: Seq<char>|
                        if i == 0 {
                            padded(cell, width(rows, i))
                        } else {
                            ", "@ + padded(cell, width(rows, i))
                        },
                ).flatten(),
        ).flatten(),
{
    let lines = Seq::new(rows.len(), |r: int| row_line(rows, r));
    let cell_part = |i: int, cell: Seq<char>|
        if i == 0 {
            padded(cell, width(rows, i))
        } else {
            ", "@ + padded(cell, width(rows, i))
        };
    let row_part = |r: int, row: RowText|
        (if r == 0 {
            row.label
        } else {
            "\n"@ + row.label
        }) + row.cells.take(columns(rows) as int).map(cell_part).flatten();
    let join_cell = |i: int, part: Seq<char>|
        if i == 0 {
            part
        } else {
            ", "@ + part
        };
    let join_line = |i: int, part: Seq<char>|
        if i == 0 {
            part
        } else {
            "\n"@ + part
        };
    lemma_columns(rows, rows.len());
    lemma_joined(lines, "\n"@);
    assert forall|r: int| 0 <= r < rows.len() implies #[trigger] lines.map(join_line)[r]
        == rows.map(row_part)[r] by {
        let cells = aligned_cells(rows, r);
        lemma_joined(cells, ", "@);
        assert(columns(rows) <= rows[r].cells.len());
        assert(cells.map(join_cell) =~= rows[r].cells.take(columns(rows) as int).map(cell_part));
        assert(lines.map(join_line)[r] =~= row_part(r, rows[r]));
    }
    assert(lines.map(join_line) =~= rows.map(row_part));
}

/// The parts of the rows are the characters of their strings, one for one.
pub proof fn lemma_row_texts(rows: Seq<Row>, r: int, i: int)
    requires
        0 <= r < rows.len(),
        0 <= i < rows[r].cells@.len(),
    ensures
        row_texts(rows).len() == rows.len(),
        row_texts(rows)[r].label == rows[r].label@,
        row_texts(rows)[r].cells.len() == rows[r].cells@.len(),
        row_texts(rows)[r].cells[i] == rows[r].cells@[i]@,
{
}

/// How many columns the table has.
fn column_count(rows: &Vec<Row>) -> (count: usize)
    ensures
        count == columns(row_texts(rows@)),
{
    let mut count: usize = 0;
    let mut r: usize = 0;
    while r < rows.len()
        invariant
            r <= rows@.len(),
            count == columns_of(row_texts(rows@), r as nat),
        decreases rows@.len() - r,
    {
        let own: usize = rows[r].cells.len();
        assert(row_texts(rows@)[r as int].cells.len() == own);
        if r == 0 || own < count {
            count = own;
        }
        r += 1;
    }
    count
}

/// The width of a column.
fn column_width(rows: &Vec<Row>, i: usize) -> (widest: usize)
    requires
        i < columns(row_texts(rows@)),
    ensures
        widest == width(row_texts(rows@), i as int),
{
    let mut widest: usize = 0;
    let mut r: usize = 0;
    proof {
        lemma_columns(row_texts(rows@), rows@.len());
    }
    while r < rows.len()
        invariant
            r <= rows@.len(),
            forall|k: int|
                0 <= k < rows@.len() ==> i < (#[trigger] row_texts(rows@)[k]).cells.len(),
            widest == width_of(row_texts(rows@), i as int, r as nat),
        decreases rows@.len() - r,
    {
        assert(i < row_texts(rows@)[r as int].cells.len());
        let own: usize = byte_length(rows[r].cells[i].as_str());
        assert(row_texts(rows@)[r as int].cells[i as int] == rows@[r as int].cells@[i as int]@);
        if own > widest {
            widest = own;
        }
        r += 1;
    }
    widest
}

/// The widths of all columns.
fn column_widths(rows: &Vec<Row>) -> (widths: Vec<usize>)
    ensures
        widths@.len() == columns(row_texts(rows@)),
        forall|i: int|
            0 <= i < widths@.len() ==> #[trigger] widths@[i] == width(row_texts(rows@), i),
{
    let count: usize = column_count(rows);
    let mut widths: Vec<usize> = Vec::new();
    let mut i: usize = 0;
    while i < count
        invariant
            i <= count,
            count == columns(row_texts(rows@)),
            widths@.len() == i,
            forall|k: int|
                0 <= k < widths@.len() ==> #[trigger] widths@[k] == width(row_texts(rows@), k),
        decreases count - i,
    {
        widths.push(column_width(rows, i));
        i += 1;
    }
    widths
}

/// The line of a row.
fn line_of(rows: &Vec<Row>, widths: &Vec<usize>, r: usize) -> (line: String)
    requires
        r < rows@.len(),
        widths@.len() == columns(row_texts(rows@)),
        forall|i: int|
            0 <= i < widths@.len() ==> #[trigger] widths@[i] == width(row_texts(rows@), i),
    ensures
        line@ == row_line(row_texts(rows@), r as int),
{
    let ghost all = row_texts(rows@);
    proof {
        lemma_columns(all, all.len());
        assert(all[r as int].cells.len() == rows@[r as int].cells@.len());
    }
    let mut cells: Vec<String> = Vec::new();
    let mut i: usize = 0;
    while i < widths.len()
        invariant
            i <= widths@.len(),
            r < rows@.len(),
            all == row_texts(rows@),
            widths@.len() == columns(all) <= rows@[r as int].cells@.len(),
            forall|i: int| 0 <= i < widths@.len() ==> #[trigger] widths@[i] == width(all, i),
            cells@.len() == i,
            forall|k: int| 0 <= k < i ==> (#[trigger] cells@[k])@ == aligned_cells(all, r as int)[k],
        decreases widths@.len() - i,
    {
        assert(all[r as int].cells[i as int] == rows@[r as int].cells@[i as int]@);
        cells.push(pad_left(rows[r].cells[i].as_str(), widths[i]));
        i += 1;
    }
    assert(texts(cells@) =~= aligned_cells(all, r as int));
    let mut line = String::from_str(rows[r].label);
    line.append(join(&cells, ", ").as_str());
    line
}

/// The table of the rows.
pub fn table_text(rows: &Vec<Row>) -> (text: String)
    ensures
        text@ == table(row_texts(rows@)),
{
    let ghost all = row_texts(rows@);
    let widths = column_widths(rows);
    let mut lines: Vec<String> = Vec::new();
    let mut r: usize = 0;
    while r < rows.len()
        invariant
            r <= rows@.len(),
            all == row_texts(rows@),
            widths@.len() == columns(all),
            forall|i: int| 0 <= i < widths@.len() ==> #[trigger] widths@[i] == width(all, i),
            lines@.len() == r,
            forall|k: int| 0 <= k < r ==> (#[trigger] lines@[k])@ == row_line(all, k),
        decreases rows@.len() - r,
    {
        lines.push(line_of(rows, &widths, r));
        r += 1;
    }
    assert(texts(lines@) =~= Seq::new(all.len(), |r: int| row_line(all, r)));
    join(&lines, "\n")
}

} // verus!
