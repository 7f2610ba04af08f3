//! Sizes in bytes, in the binary unit that suits them.

use vstd::prelude::*;
use vstd::string::*;

use byte_unit::rust_decimal::Decimal;
use byte_unit::{Byte, Unit, UnitType};

verus! {

/// What `format!("{:.2}")` writes of so many bytes, in the binary unit that
/// byte_unit finds appropriate.
pub uninterp spec fn size_text(bytes: usize) -> Seq<char>;

/// `Byte::from_decimal_with_unit` and `Byte::get_appropriate_unit`, written
/// with a precision of two digits. The text depends on the number of bytes
/// alone; it is named and not described. A `usize` is never too large for a
/// `Byte`.
#[verifier::external_body]
pub(crate) fn format_size(bytes: usize) -> (text: String)
    ensures
        text@ == size_text(bytes),
{
    let byte = Byte::from_decimal_with_unit(Decimal::from(bytes), Unit::B).unwrap();
    format!("{:.2}", byte.get_appropriate_unit(UnitType::Binary))
}

/// What `format!("{:#.2}")` writes of so many bytes, in the binary unit that
/// byte_unit finds appropriate.
pub uninterp spec fn short_size_text(bytes: u64) -> Seq<char>;

/// `Byte::from_u64` and `Byte::get_appropriate_unit`, written in the alternate
/// form with a precision of two digits. The text depends on the number of
/// bytes alone; it is named and not described.
#[verifier::external_body]
fn format_short_size(bytes: u64) -> (text: String)
    ensures
        text@ == short_size_text(bytes),
{
    format!("{:#.2}", Byte::from_u64(bytes).get_appropriate_unit(UnitType::Binary))
}

/// The line that gives the size of a database.
pub open spec fn database_size_line(text: Seq<char>) -> Seq<char> {
    "Database size: "@ + text
}

/// The line that gives the size of a database, from the size in words.
pub fn database_size_line_of(text: &str) -> (line: String)
    ensures
        line@ == database_size_line(text@),
        line@ == "Database size: "@ + text@,
{
    let mut line = String::from_str("Database size: ");
    line.append(text);
    line
}

/// The line that gives the size of a database of so many bytes.
pub fn database_size_report(bytes: u64) -> (line: String)
    ensures
        line@ == database_size_line(short_size_text(bytes)),
        line@ == "Database size: "@ + short_size_text(bytes),
{
    database_size_line_of(format_short_size(bytes).as_str())
}

} // verus!
