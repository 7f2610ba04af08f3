//! Numbers in text: one count, and a comma-separated list of recalls.

use vstd::prelude::*;
use vstd::string::*;

use crate::text::{
    chars_of, decimal, decimal_text, digit_char, join, joined, joined_first, lemma_joined, pad_left,
    padded, spaces, texts,
};

verus! {

/// Why a text is no number.
#[derive(Debug, Clone, Copy, PartialEq, Eq, Structural)]
pub enum ParseNumberError {
    /// There is nothing to read.
    Empty,
    /// A character is no digit.
    InvalidDigit,
    /// The number does not fit.
    PosOverflow,
}

impl ParseNumberError {
    /// What the error says to a user.
    pub open spec fn description(self) -> Seq<char> {
        match self {
            ParseNumberError::Empty => "cannot parse integer from empty string"@,
            ParseNumberError::InvalidDigit => "invalid digit found in string"@,
            ParseNumberError::PosOverflow => "number too large to fit in target type"@,
        }
    }

    /// What the error says to a user.
    pub fn describe(self) -> (text: &'static str)
        ensures
            text@ == self.description(),
    {
        match self {
            ParseNumberError::Empty => "cannot parse integer from empty string",
            ParseNumberError::InvalidDigit => "invalid digit found in string",
            ParseNumberError::PosOverflow => "number too large to fit in target type",
        }
    }
}

/// A decimal digit.
pub open spec fn is_digit(c: char) -> bool {
    '0' <= c <= '9'
}

/// The number that a run of decimal digits writes.
pub open spec fn numeral(digits: Seq<char>) -> nat
    decreases digits.len(),
{
    if digits.len() == 0 {
        0
    } else {
        numeral(digits.drop_last()) * 10 + (digits.last() as nat - '0' as nat) as nat
    }
}

/// How many digits stand at the start of `s`.
pub open spec fn digit_run(s: Seq<char>) -> nat
    decreases s.len(),
{
    if s.len() == 0 || !is_digit(s[0]) {
        0
    } else {
        1 + digit_run(s.skip(1))
    }
}

/// What follows an optional plus sign. A plus sign on its own stays.
pub open spec fn unsigned_part(s: Seq<char>) -> Seq<char> {
    if s.len() > 1 && s[0] == '+' {
        s.skip(1)
    } else {
        s
    }
}

/// The number that `s` writes: digits alone, after an optional plus sign. Of
/// two faults, the one that comes first in the text is reported.
pub open spec fn number(s: Seq<char>) -> Result<usize, ParseNumberError> {
    let digits = unsigned_part(s);
    let run = digit_run(digits);
    let value = numeral(digits.take(run as int));
    if s.len() == 0 {
        Err(ParseNumberError::Empty)
    } else if value > usize::MAX {
        Err(ParseNumberError::PosOverflow)
    } else if run < digits.len() {
        Err(ParseNumberError::InvalidDigit)
    } else {
        Ok(value as usize)
    }
}

/// `s` without its underscores.
pub open spec fn without_underscores(s: Seq<char>) -> Seq<char> {
    s.filter(|c: char| c != '_')
}

/// The run of digits is within the text and made of digits, and what follows
/// it is none.
proof fn lemma_digit_run(s: Seq<char>)
    ensures
        digit_run(s) <= s.len(),
        forall|i: int| 0 <= i < digit_run(s) ==> is_digit(#[trigger] s[i]),
        digit_run(s) < s.len() ==> !is_digit(s[digit_run(s) as int]),
    decreases s.len(),
{
    if s.len() > 0 && is_digit(s[0]) {
        let rest = s.skip(1);
        lemma_digit_run(rest);
        assert forall|i: int| 0 <= i < digit_run(s) implies is_digit(#[trigger] s[i]) by {
            if i > 0 {
                assert(rest[i - 1] == s[i]);
            }
        }
        if digit_run(s) < s.len() {
            assert(rest[digit_run(rest) as int] == s[digit_run(s) as int]);
        }
    }
}

/// A run that is made of digits, with a character that is none behind it or
/// the end, is the run of digits.
proof fn lemma_digit_run_is(s: Seq<char>, n: nat)
    requires
        n <= s.len(),
        forall|i: int| 0 <= i < n ==> is_digit(#[trigger] s[i]),
        n < s.len() ==> !is_digit(s[n as int]),
    ensures
        digit_run(s) == n,
{
    lemma_digit_run(s);
    let run = digit_run(s);
    if run < n {
        assert(is_digit(s[run as int]));
    }
    if n < run {
        assert(is_digit(s[n as int]));
    }
}

/// More digits never make a smaller number.
proof fn lemma_numeral_prefix(digits: Seq<char>, i: int, j: int)
    requires
        0 <= i <= j <= digits.len(),
        forall|k: int| 0 <= k < j ==> is_digit(#[trigger] digits[k]),
    ensures
        numeral(digits.take(i)) <= numeral(digits.take(j)),
    decreases j - i,
{
    if i < j {
        lemma_numeral_prefix(digits, i, j - 1);
        assert(digits.take(j).drop_last() =~= digits.take(j - 1));
        assert(digits.take(j).last() == digits[j - 1]);
    }
}

/// Reads the number that the characters write.
pub fn parse_number(s: &[char]) -> (result: Result<usize, ParseNumberError>)
    ensures
        result == number(s@),
{
    if s.len() == 0 {
        return Err(ParseNumberError::Empty);
    }
    let start: usize = if s.len() > 1 && s[0] == '+' {
        1
    } else {
        0
    };
    let ghost digits = unsigned_part(s@);
    assert(digits =~= s@.skip(start as int));
    let mut value: usize = 0;
    let mut i: usize = start;
    assert(digits.take(0) =~= seq![]);
    while i < s.len()
        invariant
            start <= i <= s@.len(),
            start <= 1 <= s@.len(),
            digits == unsigned_part(s@),
            digits == s@.skip(start as int),
            forall|k: int| 0 <= k < i - start ==> is_digit(#[trigger] digits[k]),
            value == numeral(digits.take(i - start)),
        decreases s@.len() - i,
    {
        let c = s[i];
        assert(c == digits[i - start]);
        proof {
            lemma_digit_run(digits);
        }
        if c < '0' || c > '9' {
            proof {
                lemma_digit_run_is(digits, (i - start) as nat);
            }
            return Err(ParseNumberError::InvalidDigit);
        }
        let digit: usize = (c as u32 - '0' as u32) as usize;
        proof {
            let run = digit_run(digits) as int;
            if run <= i - start {
                assert(is_digit(digits[run]));
            }
            assert(digits.take(i - start + 1).drop_last() =~= digits.take(i - start));
            assert(digits.take(i - start + 1).last() == c);
            lemma_numeral_prefix(digits, i - start + 1, run);
        }
        if value > usize::MAX / 10 {
            return Err(ParseNumberError::PosOverflow);
        }
        if value * 10 > usize::MAX - digit {
            return Err(ParseNumberError::PosOverflow);
        }
        value = value * 10 + digit;
        i += 1;
    }
    proof {
        lemma_digit_run_is(digits, digits.len());
    }
    Ok(value)
}

/// Reads a count in which underscores may stand anywhere.
pub fn parse_number_with_underscores(s: &str) -> (result: Result<usize, ParseNumberError>)
    ensures
        result == number(without_underscores(s@)),
{
    let chars = chars_of(s);
    let mut kept: Vec<char> = Vec::new();
    let ghost keep = |c: char| c != '_';
    let mut i: usize = 0;
    assert(chars@.take(0).filter(keep) =~= seq![]) by {
        reveal(Seq::filter);
    }
    while i < chars.len()
        invariant
            i <= chars@.len(),
            keep == (|c: char| c != '_'),
            kept@ == chars@.take(i as int).filter(keep),
        decreases chars@.len() - i,
    {
        let c = chars[i];
        proof {
            reveal(Seq::filter);
            assert(chars@.take(i + 1).drop_last() =~= chars@.take(i as int));
        }
        if c != '_' {
            kept.push(c);
        }
        i += 1;
    }
    assert(chars@.take(chars@.len() as int) =~= chars@);
    parse_number(kept.as_slice())
}

/// A character with Unicode's `White_Space` property.
pub open spec fn is_space(c: char) -> bool {
    ||| '\u{9}' <= c <= '\u{d}'
    ||| c == ' '
    ||| c == '\u{85}'
    ||| c == '\u{a0}'
    ||| c == '\u{1680}'
    ||| '\u{2000}' <= c <= '\u{200a}'
    ||| c == '\u{2028}'
    ||| c == '\u{2029}'
    ||| c == '\u{202f}'
    ||| c == '\u{205f}'
    ||| c == '\u{3000}'
}

/// Whether a character is white space.
pub fn is_white_space(c: char) -> (yes: bool)
    ensures
        yes == is_space(c),
{
    ('\u{9}' <= c && c <= '\u{d}') || c == ' ' || c == '\u{85}' || c == '\u{a0}' || c == '\u{1680}'
        || ('\u{2000}' <= c && c <= '\u{200a}') || c == '\u{2028}' || c == '\u{2029}'
        || c == '\u{202f}' || c == '\u{205f}' || c == '\u{3000}'
}

/// `s` without the white space at its start.
pub open spec fn trimmed_start(s: Seq<char>) -> Seq<char>
    decreases s.len(),
{
    if s.len() > 0 && is_space(s[0]) {
        trimmed_start(s.skip(1))
    } else {
        s
    }
}

/// `s` without the white space at its end.
pub open spec fn trimmed_end(s: Seq<char>) -> Seq<char>
    decreases s.len(),
{
    if s.len() > 0 && is_space(s.last()) {
        trimmed_end(s.drop_last())
    } else {
        s
    }
}

/// `s` without the white space around it.
pub open spec fn trimmed(s: Seq<char>) -> Seq<char> {
    trimmed_end(trimmed_start(s))
}

/// The characters without the white space around them.
pub fn trim(s: &[char]) -> (inner: &[char])
    ensures
        inner@ == trimmed(s@),
{
    let mut start: usize = 0;
    assert(s@.skip(0) =~= s@);
    while start < s.len() && is_white_space(s[start])
        invariant
            start <= s@.len(),
            trimmed_start(s@) == trimmed_start(s@.skip(start as int)),
        decreases s@.len() - start,
    {
        assert(s@.skip(start as int).skip(1) =~= s@.skip(start + 1));
        start += 1;
    }
    let ghost rest = s@.skip(start as int);
    assert(trimmed_start(s@) == rest);
    let mut end: usize = s.len();
    assert(s@.subrange(start as int, end as int) =~= rest);
    while start < end && is_white_space(s[end - 1])
        invariant
            start <= end <= s@.len(),
            trimmed_end(rest) == trimmed_end(s@.subrange(start as int, end as int)),
        decreases end,
    {
        assert(s@.subrange(start as int, end as int).drop_last() =~= s@.subrange(
            start as int,
            end - 1,
        ));
        end -= 1;
    }
    vstd::slice::slice_subrange(s, start, end)
}

/// What stands between the commas of `s`, in order.
pub open spec fn pieces(s: Seq<char>) -> Seq<Seq<char>>
    decreases s.len(),
{
    if s.len() == 0 {
        seq![seq![]]
    } else {
        let before = pieces(s.drop_last());
        if s.last() == ',' {
            before.push(seq![])
        } else {
            before.update(before.len() - 1, before.last().push(s.last()))
        }
    }
}

proof fn lemma_pieces_len(s: Seq<char>)
    ensures
        1 <= pieces(s).len() <= s.len() + 1,
    decreases s.len(),
{
    if s.len() > 0 {
        lemma_pieces_len(s.drop_last());
    }
}

/// The characters of each piece.
spec fn piece_views(split: Seq<Vec<char>>) -> Seq<Seq<char>> {
    Seq::new(split.len(), |i: int| split[i]@)
}

/// Splits at the commas.
fn split_at_commas(s: &[char]) -> (split: Vec<Vec<char>>)
    ensures
        piece_views(split@) == pieces(s@),
{
    let mut split: Vec<Vec<char>> = Vec::new();
    let mut piece: Vec<char> = Vec::new();
    let mut i: usize = 0;
    assert(piece_views(split@).push(piece@) =~= pieces(s@.take(0)));
    while i < s.len()
        invariant
            i <= s@.len(),
            piece_views(split@).push(piece@) == pieces(s@.take(i as int)),
        decreases s@.len() - i,
    {
        let c = s[i];
        let ghost before = piece_views(split@).push(piece@);
        proof {
            assert(s@.take(i + 1).drop_last() =~= s@.take(i as int));
            assert(s@.take(i + 1).last() == c);
        }
        if c == ',' {
            split.push(piece);
            piece = Vec::new();
            assert(piece_views(split@) =~= before);
        } else {
            piece.push(c);
            assert(piece_views(split@).push(piece@) =~= before.update(
                before.len() - 1,
                before.last().push(c),
            ));
        }
        i += 1;
        assert(piece_views(split@).push(piece@) =~= pieces(s@.take(i as int)));
    }
    assert(s@.take(s@.len() as int) =~= s@);
    let ghost all = piece_views(split@).push(piece@);
    split.push(piece);
    assert(piece_views(split@) =~= all);
    split
}

/// A piece of a list of recalls that is no number.
#[derive(Debug)]
pub struct RecallError {
    /// Which piece it is, from zero, the blank ones counted.
    pub index: usize,
    /// The piece as it was given.
    pub text: String,
}

/// The numbers that the pieces write, the blank pieces left out; or else the
/// place of the first piece that is neither blank nor a number.
pub open spec fn piece_numbers(split: Seq<Seq<char>>) -> Result<Seq<usize>, int>
    decreases split.len(),
{
    if split.len() == 0 {
        Ok(seq![])
    } else {
        let last = trimmed(split.last());
        match piece_numbers(split.drop_last()) {
            Err(index) => Err(index),
            Ok(numbers) => if last.len() == 0 {
                Ok(numbers)
            } else {
                match number(last) {
                    Ok(value) => Ok(numbers.push(value)),
                    Err(_) => Err(split.len() - 1),
                }
            },
        }
    }
}

/// The first fault stands, whatever follows it.
proof fn lemma_first_fault(split: Seq<Seq<char>>, n: int)
    requires
        0 <= n <= split.len(),
        piece_numbers(split.take(n)) is Err,
    ensures
        piece_numbers(split) == piece_numbers(split.take(n)),
    decreases split.len(),
{
    if n < split.len() {
        assert(split.drop_last().take(n) =~= split.take(n));
        lemma_first_fault(split.drop_last(), n);
    } else {
        assert(split.take(n) =~= split);
    }
}

/// Reads a comma-separated list of recalls. White space around a number and
/// blank pieces are skipped.
pub fn parse_recall_tested(s: &str) -> (result: Result<Vec<usize>, RecallError>)
    ensures
        match piece_numbers(pieces(s@)) {
            Ok(numbers) => result matches Ok(list) && list@ == numbers,
            Err(index) => {
                &&& result matches Err(error)
                &&& error.index == index
                &&& error.text@ == pieces(s@)[index]
            },
        },
{
    let chars = chars_of(s);
    let split = split_at_commas(chars.as_slice());
    let ghost parts = pieces(s@);
    let mut list: Vec<usize> = Vec::new();
    let mut i: usize = 0;
    while i < split.len()
        invariant
            i <= split@.len(),
            parts == pieces(s@),
            parts == piece_views(split@),
            piece_numbers(parts.take(i as int)) == Ok::<Seq<usize>, int>(list@),
        decreases split@.len() - i,
    {
        proof {
            assert(parts.take(i + 1).drop_last() =~= parts.take(i as int));
            assert(parts.take(i + 1).last() == split@[i as int]@);
        }
        let inner = trim(split[i].as_slice());
        if inner.len() != 0 {
            match parse_number(inner) {
                Ok(value) => {
                    list.push(value);
                },
                Err(_) => {
                    proof {
                        lemma_first_fault(parts, i + 1);
                    }
                    let text = string_of(split[i].as_slice());
                    return Err(RecallError { index: i, text });
                },
            }
        }
        i += 1;
    }
    assert(parts.take(parts.len() as int) =~= parts);
    Ok(list)
}

/// The characters in one string.
fn string_of(chars: &[char]) -> (text: String)
    ensures
        text@ == chars@,
{
    let mut text = String::new();
    let mut i: usize = 0;
    while i < chars.len()
        invariant
            i <= chars@.len(),
            text@ == chars@.take(i as int),
        decreases chars@.len() - i,
    {
        text.push(chars[i]);
        i += 1;
        assert(text@ =~= chars@.take(i as int));
    }
    assert(chars@.take(chars@.len() as int) =~= chars@);
    text
}

impl RecallError {
    /// What the error says to a user.
    pub open spec fn description(self) -> Seq<char> {
        "Could not parse recall value `"@ + self.text@ + "` at index `"@ + decimal(
            self.index as nat,
        ) + "`."@
    }

    /// What the error says to a user.
    pub fn describe(&self) -> (text: String)
        ensures
            text@ == self.description(),
            text@ == "Could not parse recall value `"@ + self.text@ + "` at index `"@ + decimal(
                self.index as nat,
            ) + "`."@,
    {
        let mut text = String::from_str("Could not parse recall value `");
        text.append(self.text.as_str());
        text.append("` at index `");
        text.append(decimal_text(self.index).as_str());
        text.append("`.");
        text
    }
}

/// The numerals of the recalls, each in a field of four characters.
pub open spec fn recall_cells(list: Seq<usize>) -> Seq<Seq<char>> {
    Seq::new(list.len(), |i: int| padded(decimal(list[i] as nat), 4))
}

/// The line that announces the recalls.
pub open spec fn recall_line(list: Seq<usize>) -> Seq<char> {
    "Recall tested is:   ["@ + joined(recall_cells(list), ", "@) + "]"@
}

/// The recalls, in fields of four characters, with commas between them.
pub fn recall_tested_text(list: &Vec<usize>) -> (text: String)
    ensures
        text@ == joined(recall_cells(list@), ", "@),
{
    let mut cells: Vec<String> = Vec::new();
    let mut i: usize = 0;
    while i < list.len()
        invariant
            i <= list@.len(),
            cells@.len() == i,
            forall|k: int| 0 <= k < i ==> (#[trigger] cells@[k])@ == recall_cells(list@)[k],
        decreases list@.len() - i,
    {
        cells.push(pad_left(decimal_text(list[i]).as_str(), 4));
        i += 1;
    }
    assert(texts(cells@) =~= recall_cells(list@));
    join(&cells, ", ")
}

/// The line that announces the recalls.
pub fn recall_tested_line(list: &Vec<usize>) -> (text: String)
    ensures
        text@ == recall_line(list@),
{
    let mut text = String::from_str("Recall tested is:   [");
    text.append(recall_tested_text(list).as_str());
    text.append("]");
    text
}

/// The largest recall, or zero where there is none.
pub fn max_recall(list: &Vec<usize>) -> (max: usize)
    ensures
        list@.len() == 0 ==> max == 0,
        list@.len() > 0 ==> list@.contains(max),
        forall|i: int| 0 <= i < list@.len() ==> #[trigger] list@[i] <= max,
{
    let mut max: usize = 0;
    let mut i: usize = 0;
    while i < list.len()
        invariant
            i <= list@.len(),
            i == 0 ==> max == 0,
            i > 0 ==> exists|k: int| 0 <= k < i && list@[k] == max,
            forall|k: int| 0 <= k < i ==> #[trigger] list@[k] <= max,
        decreases list@.len() - i,
    {
        if list[i] >= max {
            max = list[i];
            assert(list@[i as int] == max);
        }
        i += 1;
    }
    max
}

/// A decimal numeral is made of digits, and writes its number.
proof fn lemma_decimal(n: nat)
    ensures
        decimal(n).len() > 0,
        forall|i: int| 0 <= i < decimal(n).len() ==> is_digit(#[trigger] decimal(n)[i]),
        numeral(decimal(n)) == n,
    decreases n,
{
    reveal_with_fuel(numeral, 2);
    if n < 10 {
        assert(decimal(n).drop_last() =~= seq![]);
        assert(digit_char(n) as nat == n + 48);
    } else {
        lemma_decimal(n / 10);
        assert(decimal(n).drop_last() =~= decimal(n / 10));
        assert(digit_char(n % 10) as nat == n % 10 + 48);
    }
}

/// A number is read back from its decimal numeral.
pub proof fn lemma_decimal_is_read_back(n: usize)
    ensures
        number(decimal(n as nat)) == Ok::<usize, ParseNumberError>(n),
{
    let digits = decimal(n as nat);
    lemma_decimal(n as nat);
    assert(is_digit(digits[0]));
    assert(unsigned_part(digits) == digits);
    lemma_digit_run_is(digits, digits.len());
    assert(digits.take(digits.len() as int) =~= digits);
}

/// Underscores do not matter: a count is read back from its numeral, wherever
/// underscores were put into it.
pub proof fn lemma_underscores_do_not_matter(s: Seq<char>, n: usize)
    requires
        without_underscores(s) == decimal(n as nat),
    ensures
        number(without_underscores(s)) == Ok::<usize, ParseNumberError>(n),
{
    lemma_decimal_is_read_back(n);
}

/// Spaces before a text without white space at its ends are trimmed away.
proof fn lemma_trim_padding(count: nat, s: Seq<char>)
    requires
        s.len() > 0,
        !is_space(s[0]),
        !is_space(s.last()),
    ensures
        trimmed(spaces(count) + s) == s,
    decreases count,
{
    let all = spaces(count) + s;
    if count == 0 {
        assert(all =~= s);
    } else {
        assert(all[0] == ' ');
        assert(all.skip(1) =~= spaces((count - 1) as nat) + s);
        lemma_trim_padding((count - 1) as nat, s);
    }
}

/// The pieces of a text, when more text without commas is added.
proof fn lemma_pieces_extended(a: Seq<char>, b: Seq<char>)
    requires
        forall|i: int| 0 <= i < b.len() ==> #[trigger] b[i] != ',',
    ensures
        pieces(a).len() > 0,
        pieces(a + b) == pieces(a).update(pieces(a).len() - 1, pieces(a).last() + b),
    decreases b.len(),
{
    lemma_pieces_len(a);
    if b.len() == 0 {
        assert(a + b =~= a);
        assert(pieces(a).last() + b =~= pieces(a).last());
        assert(pieces(a) =~= pieces(a).update(pieces(a).len() - 1, pieces(a).last() + b));
    } else {
        let rest = b.drop_last();
        assert((a + b).drop_last() =~= a + rest);
        assert((a + b).last() == b.last());
        assert forall|i: int| 0 <= i < rest.len() implies #[trigger] rest[i] != ',' by {
            assert(rest[i] == b[i]);
        }
        lemma_pieces_extended(a, rest);
        assert(b.last() != ',');
        assert((pieces(a).last() + rest).push(b.last()) =~= pieces(a).last() + b);
        assert(pieces(a + b) =~= pieces(a).update(pieces(a).len() - 1, pieces(a).last() + b));
    }
}

/// The pieces of a text, when a comma and a text without commas are added.
proof fn lemma_pieces_added(a: Seq<char>, b: Seq<char>)
    requires
        forall|i: int| 0 <= i < b.len() ==> #[trigger] b[i] != ',',
    ensures
        pieces(a.push(',') + b) == pieces(a).push(b),
{
    assert(a.push(',').drop_last() =~= a);
    lemma_pieces_extended(a.push(','), b);
    assert(seq![] + b =~= b);
    assert(pieces(a.push(',') + b) =~= pieces(a).push(b));
}

/// A cell, with spaces before it, is one number.
proof fn lemma_cell(count: nat, n: usize)
    ensures
        trimmed(spaces(count) + padded(decimal(n as nat), 4)) == decimal(n as nat),
        forall|i: int|
            0 <= i < padded(decimal(n as nat), 4).len() ==> #[trigger] padded(
                decimal(n as nat),
                4,
            )[i] != ',',
        number(decimal(n as nat)) == Ok::<usize, ParseNumberError>(n),
        decimal(n as nat).len() > 0,
{
    let digits = decimal(n as nat);
    lemma_decimal(n as nat);
    lemma_decimal_is_read_back(n);
    assert(is_digit(digits[0]));
    assert(is_digit(digits[digits.len() - 1]));
    let cell = padded(digits, 4);
    let blanks = (cell.len() - digits.len()) as nat;
    assert(cell =~= spaces(blanks) + digits);
    assert(spaces(count) + cell =~= spaces(count + blanks) + digits);
    lemma_trim_padding(count + blanks, digits);
    assert forall|i: int| 0 <= i < cell.len() implies #[trigger] cell[i] != ',' by {
        if i >= blanks {
            assert(cell[i] == digits[i - blanks]);
            assert(is_digit(digits[i - blanks]));
        }
    }
}

/// One recall is read back from its text.
proof fn lemma_one_recall_read_back(n: usize)
    ensures
        piece_numbers(pieces(padded(decimal(n as nat), 4))) == Ok::<Seq<usize>, int>(seq![n]),
{
    let cell = padded(decimal(n as nat), 4);
    lemma_cell(0, n);
    lemma_pieces_extended(seq![], cell);
    assert(seq![] + cell =~= cell);
    assert(spaces(0) + cell =~= cell);
    assert(pieces(cell) =~= seq![cell]);
    reveal_with_fuel(piece_numbers, 2);
    assert(seq![cell].drop_last() =~= seq![]);
    assert(seq![n] =~= seq![].push(n));
}

/// One more recall is read back from the text with it behind the others.
proof fn lemma_next_recall_read_back(before: Seq<char>, list: Seq<usize>, n: usize)
    requires
        piece_numbers(pieces(before)) == Ok::<Seq<usize>, int>(list),
    ensures
        piece_numbers(pieces(before + ", "@ + padded(decimal(n as nat), 4))) == Ok::<
            Seq<usize>,
            int,
        >(list.push(n)),
{
    reveal_strlit(", ");
    let cell = padded(decimal(n as nat), 4);
    let piece = spaces(1) + cell;
    lemma_cell(1, n);
    assert forall|i: int| 0 <= i < piece.len() implies #[trigger] piece[i] != ',' by {
        if i >= 1 {
            assert(piece[i] == cell[i - 1]);
        }
    }
    lemma_pieces_added(before, piece);
    assert(before + ", "@ + cell =~= before.push(',') + piece);
    assert(pieces(before).push(piece).drop_last() =~= pieces(before));
}

/// The first `k` recalls are read back from their text.
proof fn lemma_recalls_read_back(list: Seq<usize>, k: nat)
    requires
        k <= list.len(),
    ensures
        piece_numbers(pieces(joined_first(recall_cells(list), ", "@, k))) == Ok::<Seq<usize>, int>(
            list.take(k as int),
        ),
    decreases k,
{
    let cells = recall_cells(list);
    if k == 0 {
        let text = joined_first(cells, ", "@, 0);
        reveal_with_fuel(piece_numbers, 2);
        assert(pieces(text).drop_last() =~= seq![]);
        assert(trimmed(pieces(text).last()).len() == 0);
        assert(list.take(0) =~= seq![]);
    } else if k == 1 {
        lemma_one_recall_read_back(list[0]);
        assert(list.take(1) =~= seq![list[0]]);
    } else {
        let before = joined_first(cells, ", "@, (k - 1) as nat);
        lemma_recalls_read_back(list, (k - 1) as nat);
        lemma_next_recall_read_back(before, list.take(k - 1), list[k - 1]);
        assert(list.take(k as int) =~= list.take(k - 1).push(list[k - 1]));
    }
}

/// The list of recalls is read back from the text that announces it.
pub proof fn lemma_recall_list_is_read_back(list: Seq<usize>)
    ensures
        piece_numbers(pieces(joined(recall_cells(list), ", "@))) == Ok::<Seq<usize>, int>(list),
{
    lemma_recalls_read_back(list, list.len());
    assert(list.take(list.len() as int) =~= list);
    assert(recall_cells(list).len() == list.len());
}

/// The number of a run of digits is what the digits come to, each worth ten
/// times those behind it.
proof fn lemma_numeral_fold(digits: Seq<char>)
    requires
        forall|i: int| 0 <= i < digits.len() ==> '0' <= #[trigger] digits[i] <= '9',
    ensures
        digits.fold_left(0int, |v: int, c: char| v * 10 + (c as int - '0' as int)) == numeral(
            digits,
        ),
    decreases digits.len(),
{
    reveal_with_fuel(Seq::fold_left, 1);
    if digits.len() > 0 {
        let rest = digits.drop_last();
        assert forall|i: int| 0 <= i < rest.len() implies '0' <= #[trigger] rest[i] <= '9' by {
            assert(rest[i] == digits[i]);
        }
        lemma_numeral_fold(rest);
        assert('0' <= digits[digits.len() - 1]);
    }
}

/// What is read: a text is a number exactly if it is a run of digits, after a
/// plus sign or without one, that comes to no more than can be held, and then
/// it is what the digits come to. A text without characters is empty; one whose
/// first digits already come to more is too large, whatever follows them.
pub proof fn lemma_number_meaning(s: Seq<char>, digits: Seq<char>)
    requires
        digits == if s.len() > 1 && s[0] == '+' {
            s.skip(1)
        } else {
            s
        },
    ensures
        number(s) is Ok <==> {
            &&& digits.len() > 0
            &&& forall|i: int| 0 <= i < digits.len() ==> '0' <= #[trigger] digits[i] <= '9'
            &&& digits.fold_left(0int, |v: int, c: char| v * 10 + (c as int - '0' as int))
                <= usize::MAX
        },
        number(s) matches Ok(n) ==> n == digits.fold_left(
            0int,
            |v: int, c: char| v * 10 + (c as int - '0' as int),
        ),
        number(s) == Err::<usize, _>(ParseNumberError::Empty) <==> s.len() == 0,
        number(s) == Err::<usize, _>(ParseNumberError::PosOverflow) <==> exists|k: int|
            {
                &&& 0 <= k <= digits.len()
                &&& forall|i: int| 0 <= i < k ==> '0' <= #[trigger] digits[i] <= '9'
                &&& (#[trigger] digits.take(k)).fold_left(
                    0int,
                    |v: int, c: char| v * 10 + (c as int - '0' as int),
                ) > usize::MAX
            },
{
    let f = |v: int, c: char| v * 10 + (c as int - '0' as int);
    assert(digits == unsigned_part(s));
    let run = digit_run(digits);
    lemma_digit_run(digits);
    assert(forall|i: int| 0 <= i < run ==> is_digit(#[trigger] digits[i]));
    let lead = digits.take(run as int);
    assert forall|i: int| 0 <= i < lead.len() implies '0' <= #[trigger] lead[i] <= '9' by {
        assert(is_digit(digits[i]));
    }
    lemma_numeral_fold(lead);
    if run == digits.len() {
        assert(lead =~= digits);
    } else {
        assert(!is_digit(digits[run as int]));
        assert(!('0' <= digits[run as int] <= '9'));
    }
    if numeral(lead) > usize::MAX {
        assert(digits.take(run as int).fold_left(0int, f) > usize::MAX);
    }
    assert forall|k: int|
        {
            &&& 0 <= k <= digits.len()
            &&& forall|i: int| 0 <= i < k ==> '0' <= #[trigger] digits[i] <= '9'
            &&& (#[trigger] digits.take(k)).fold_left(0int, f) > usize::MAX
        } implies numeral(lead) > usize::MAX by {
        if k > run {
            assert('0' <= digits[run as int] <= '9');
        }
        let part = digits.take(k);
        assert forall|i: int| 0 <= i < part.len() implies '0' <= #[trigger] part[i] <= '9' by {
            assert('0' <= digits[i] <= '9');
        }
        lemma_numeral_fold(part);
        lemma_numeral_prefix(digits, k, run as int);
    }
    if s.len() == 0 {
        assert forall|k: int| 0 <= k <= digits.len() implies (#[trigger] digits.take(
            k,
        )).fold_left(0int, f) == 0 by {
            reveal_with_fuel(Seq::fold_left, 1);
        }
    }
    if number(s) is Ok {
        assert(forall|i: int| 0 <= i < digits.len() ==> is_digit(#[trigger] digits[i]));
    }
}

/// A count loses its underscores, and nothing else, before it is read.
pub proof fn lemma_underscores_are_dropped(s: Seq<char>)
    ensures
        without_underscores(s) == s.filter(|c: char| c != '_'),
{
}

/// What is trimmed: the text from its first to its last character that is no
/// white space, or nothing where there is none.
pub proof fn lemma_trimmed(s: Seq<char>)
    ensures
        exists|a: int, b: int|
            {
                &&& 0 <= a <= b <= s.len()
                &&& trimmed(s) == #[trigger] s.subrange(a, b)
                &&& forall|i: int| 0 <= i < a ==> is_space(#[trigger] s[i])
                &&& forall|i: int| b <= i < s.len() ==> is_space(#[trigger] s[i])
            },
        trimmed(s).len() > 0 ==> !is_space(trimmed(s)[0]) && !is_space(trimmed(s).last()),
{
    let a = lemma_trimmed_start(s);
    let rest = s.skip(a);
    let n = lemma_trimmed_end(rest);
    assert(s.subrange(a, a + n) =~= rest.take(n));
    assert forall|i: int| a + n <= i < s.len() implies is_space(#[trigger] s[i]) by {
        assert(rest[i - a] == s[i]);
    }
    if n > 0 {
        assert(trimmed(s)[0] == rest[0]);
    }
}

proof fn lemma_trimmed_start(s: Seq<char>) -> (a: int)
    ensures
        0 <= a <= s.len(),
        trimmed_start(s) == s.skip(a),
        forall|i: int| 0 <= i < a ==> is_space(#[trigger] s[i]),
        a < s.len() ==> !is_space(s[a]),
    decreases s.len(),
{
    if s.len() > 0 && is_space(s[0]) {
        let rest = s.skip(1);
        let a = lemma_trimmed_start(rest);
        assert(s.skip(a + 1) =~= rest.skip(a));
        assert forall|i: int| 0 <= i < a + 1 implies is_space(#[trigger] s[i]) by {
            if i > 0 {
                assert(rest[i - 1] == s[i]);
            }
        }
        a + 1
    } else {
        assert(s.skip(0) =~= s);
        0
    }
}

proof fn lemma_trimmed_end(s: Seq<char>) -> (n: int)
    ensures
        0 <= n <= s.len(),
        trimmed_end(s) == s.take(n),
        forall|i: int| n <= i < s.len() ==> is_space(#[trigger] s[i]),
        n > 0 ==> !is_space(s[n - 1]),
    decreases s.len(),
{
    if s.len() > 0 && is_space(s.last()) {
        let rest = s.drop_last();
        let n = lemma_trimmed_end(rest);
        assert(s.take(n) =~= rest.take(n));
        assert forall|i: int| n <= i < s.len() implies is_space(#[trigger] s[i]) by {
            if i < s.len() - 1 {
                assert(rest[i] == s[i]);
            }
        }
        n
    } else {
        assert(s.take(s.len() as int) =~= s);
        s.len() as int
    }
}

/// What is split: there is at least one piece, no piece has a comma in it, and
/// all of them with commas between them are the text again.
pub proof fn lemma_pieces(s: Seq<char>)
    ensures
        pieces(s).len() >= 1,
        forall|i: int| 0 <= i < pieces(s).len() ==> !(#[trigger] pieces(s)[i]).contains(','),
        pieces(s).map(
            |i: int, piece: Seq<char>|
                if i == 0 {
                    piece
                } else {
                    seq![','] + piece
                },
        ).flatten() == s,
    decreases s.len(),
{
    let f = |i: int, piece: Seq<char>|
        if i == 0 {
            piece
        } else {
            seq![','] + piece
        };
    let all = pieces(s);
    if s.len() == 0 {
        let first: Seq<char> = seq![];
        assert(all =~= seq![first]);
        assert(all.map(f) =~= seq![first]);
        seq![first].lemma_flatten_one_element();
    } else {
        let before = pieces(s.drop_last());
        lemma_pieces(s.drop_last());
        let m = before.len() - 1;
        let kept = before.map(f).drop_last();
        kept.lemma_flatten_push(before.map(f).last());
        assert(kept.push(before.map(f).last()) =~= before.map(f));
        if s.last() == ',' {
            let none: Seq<char> = seq![];
            before.map(f).lemma_flatten_push(seq![','] + none);
            assert(all.map(f) =~= before.map(f).push(seq![','] + none));
            assert(s =~= s.drop_last() + (seq![','] + none));
            assert forall|i: int| 0 <= i < all.len() implies !(#[trigger] all[i]).contains(',') by {
                if i <= m {
                    assert(all[i] == before[i]);
                }
            }
        } else {
            let grown = before.last().push(s.last());
            kept.lemma_flatten_push(f(m, grown));
            assert(all.map(f) =~= kept.push(f(m, grown)));
            assert(f(m, grown) =~= before.map(f).last().push(s.last()));
            assert(s =~= s.drop_last().push(s.last()));
            assert(kept.flatten() + f(m, grown) =~= (kept.flatten() + before.map(f).last()).push(
                s.last(),
            ));
            assert forall|i: int| 0 <= i < all.len() implies !(#[trigger] all[i]).contains(',') by {
                if i < m {
                    assert(all[i] == before[i]);
                } else {
                    assert(!before[m].contains(','));
                    if grown.contains(',') {
                        let k = grown.index_of(',');
                        assert(k < grown.len() - 1);
                        assert(before[m][k] == ',');
                    }
                }
            }
        }
    }
}

/// What is read of the pieces: the numbers of all that are not blank, in order,
/// where each of these is a number; or else the place of the first that is
/// not.
pub proof fn lemma_piece_numbers(split: Seq<Seq<char>>)
    ensures
        match piece_numbers(split) {
            Ok(list) => {
                &&& forall|i: int|
                    0 <= i < split.len() && trimmed(#[trigger] split[i]).len() > 0 ==> number(
                        trimmed(split[i]),
                    ) is Ok
                &&& list == split.filter(|piece: Seq<char>| trimmed(piece).len() > 0).map_values(
                    |piece: Seq<char>| number(trimmed(piece))->Ok_0,
                )
            },
            Err(k) => {
                &&& 0 <= k < split.len()
                &&& trimmed(split[k]).len() > 0 && number(trimmed(split[k])) is Err
                &&& forall|i: int|
                    0 <= i < k && trimmed(#[trigger] split[i]).len() > 0 ==> number(
                        trimmed(split[i]),
                    ) is Ok
            },
        },
    decreases split.len(),
{
    let filled = |piece: Seq<char>| trimmed(piece).len() > 0;
    let read = |piece: Seq<char>| number(trimmed(piece))->Ok_0;
    reveal(Seq::filter);
    if split.len() == 0 {
        assert(split.filter(filled).map_values(read) =~= seq![]);
    } else {
        let rest = split.drop_last();
        lemma_piece_numbers(rest);
        assert forall|i: int| 0 <= i < rest.len() implies rest[i] == #[trigger] split[i] by {}
        match piece_numbers(split) {
            Ok(list) => {
                if filled(split.last()) {
                    assert(split.filter(filled).map_values(read) =~= rest.filter(filled).map_values(
                        read,
                    ).push(read(split.last())));
                }
            },
            Err(k) => {},
        }
    }
}

/// Splitting a list at its commas gives back its entries, if none of them has a
/// comma in it: the first as it is, the others behind a space.
pub proof fn lemma_list_is_split_back(entries: Seq<Seq<char>>)
    requires
        entries.len() > 0,
        forall|i: int| 0 <= i < entries.len() ==> !(#[trigger] entries[i]).contains(','),
    ensures
        pieces(joined(entries, ", "@)) == entries.map(
            |i: int, entry: Seq<char>|
                if i == 0 {
                    entry
                } else {
                    seq![' '] + entry
                },
        ),
{
    lemma_first_split_back(entries, entries.len());
    assert(entries.take(entries.len() as int) =~= entries);
}

proof fn lemma_first_split_back(entries: Seq<Seq<char>>, n: nat)
    requires
        0 < n <= entries.len(),
        forall|i: int| 0 <= i < entries.len() ==> !(#[trigger] entries[i]).contains(','),
    ensures
        pieces(joined_first(entries, ", "@, n)) == entries.take(n as int).map(
            |i: int, entry: Seq<char>|
                if i == 0 {
                    entry
                } else {
                    seq![' '] + entry
                },
        ),
    decreases n,
{
    let f = |i: int, entry: Seq<char>|
        if i == 0 {
            entry
        } else {
            seq![' '] + entry
        };
    reveal_strlit(", ");
    let last = entries[n - 1];
    assert forall|i: int| 0 <= i < last.len() implies #[trigger] last[i] != ',' by {
        assert(!last.contains(last[i]) || last[i] != ',');
    }
    if n == 1 {
        lemma_pieces_extended(seq![], last);
        assert(seq![] + last =~= last);
        assert(pieces(last) =~= entries.take(1).map(f));
    } else {
        let before = joined_first(entries, ", "@, (n - 1) as nat);
        lemma_first_split_back(entries, (n - 1) as nat);
        let piece = seq![' '] + last;
        assert forall|i: int| 0 <= i < piece.len() implies #[trigger] piece[i] != ',' by {
            if i > 0 {
                assert(piece[i] == last[i - 1]);
            }
        }
        lemma_pieces_added(before, piece);
        assert(before + ", "@ + last =~= before.push(',') + piece);
        assert(entries.take(n as int).map(f) =~= entries.take(n - 1).map(f).push(piece));
    }
}

/// Lists that read alike are alike: no entry is lost, added or moved.
pub proof fn lemma_lists_differ(a: Seq<Seq<char>>, b: Seq<Seq<char>>)
    requires
        a.len() > 0,
        b.len() > 0,
        forall|i: int| 0 <= i < a.len() ==> !(#[trigger] a[i]).contains(','),
        forall|i: int| 0 <= i < b.len() ==> !(#[trigger] b[i]).contains(','),
        joined(a, ", "@) == joined(b, ", "@),
    ensures
        a == b,
{
    let f = |i: int, entry: Seq<char>|
        if i == 0 {
            entry
        } else {
            seq![' '] + entry
        };
    lemma_list_is_split_back(a);
    lemma_list_is_split_back(b);
    assert(a.map(f).len() == b.map(f).len());
    assert forall|i: int| 0 <= i < a.len() implies a[i] == b[i] by {
        assert(a.map(f)[i] == b.map(f)[i]);
        if i > 0 {
            assert((seq![' '] + a[i]).skip(1) =~= a[i]);
            assert((seq![' '] + b[i]).skip(1) =~= b[i]);
        }
    }
    assert(a =~= b);
}

/// The line that announces the recalls holds every one of them, in order, each
/// in a field of four characters, with commas between them.
pub proof fn lemma_recall_line(list: Seq<usize>)
    ensures
        joined(recall_cells(list), ", "@) == list.map(
            |i: int, n: usize|
                if i == 0 {
                    padded(decimal(n as nat), 4)
                } else {
                    ", "@ + padded(decimal(n as nat), 4)
                },
        ).flatten(),
        recall_line(list) == "Recall tested is:   ["@ + joined(recall_cells(list), ", "@) + "]"@,
{
    let f = |i: int, part: Seq<char>|
        if i == 0 {
            part
        } else {
            ", "@ + part
        };
    let g = |i: int, n: usize|
        if i == 0 {
            padded(decimal(n as nat), 4)
        } else {
            ", "@ + padded(decimal(n as nat), 4)
        };
    lemma_joined(recall_cells(list), ", "@);
    assert(recall_cells(list).map(f) =~= list.map(g));
}

} // verus!
