//! Timestamps of the command language. chrono reads them.

use chrono::NaiveDateTime;
use vstd::prelude::*;

verus! {

/// chrono's date and time without a time zone. It is carried through as it
/// comes from chrono.
#[verifier::external_type_specification]
#[verifier::external_body]
pub struct ExNaiveDateTime(chrono::NaiveDateTime);

/// chrono's reason for refusing a text.
#[verifier::external_type_specification]
#[verifier::external_body]
pub struct ExParseError(chrono::ParseError);

/// The layout of a timestamp: day, month and year, then hour, minute and
/// second, as in `04-10-2024 00:00:00`.
pub const TIMESTAMP_FORMAT: &'static str = "%d-%m-%Y %H:%M:%S";

/// What chrono's `NaiveDateTime::parse_from_str` returns for the text `s`
/// under the layout `fmt`.
pub uninterp spec fn parse_from_str_result(s: Seq<char>, fmt: Seq<char>) -> chrono::ParseResult<
    NaiveDateTime,
>;

/// chrono's `NaiveDateTime::parse_from_str`, for the one layout that this
/// library uses: with that layout it returns for every text, and what it
/// returns is a function of the text and the layout alone, which
/// [`parse_from_str_result`] names.
pub assume_specification[ NaiveDateTime::parse_from_str ](s: &str, fmt: &str) -> (parsed:
    chrono::ParseResult<NaiveDateTime>)
    requires
        fmt@ == "%d-%m-%Y %H:%M:%S"@,
    ensures
        parsed == parse_from_str_result(s@, fmt@),
;

/// The timestamp that a text stands for, if chrono reads one from it.
pub open spec fn timestamp_of(text: Seq<char>) -> Option<NaiveDateTime> {
    match parse_from_str_result(text, TIMESTAMP_FORMAT@) {
        Ok(timestamp) => Some(timestamp),
        Err(_) => None,
    }
}

/// The value of a timestamp field, given what chrono made of its text: a
/// text that chrono refuses leaves the field unset.
pub fn timestamp_or_unset(parsed: chrono::ParseResult<NaiveDateTime>) -> (timestamp: Option<
    NaiveDateTime,
>)
    ensures
        timestamp == match parsed {
            Ok(timestamp) => Some(timestamp),
            Err(_) => None,
        },
{
    match parsed {
        Ok(timestamp) => Some(timestamp),
        Err(_) => None,
    }
}

/// Reads a timestamp from a text; `None` where the text holds none.
pub fn read_timestamp(text: &str) -> (timestamp: Option<NaiveDateTime>)
    ensures
        timestamp == timestamp_of(text@),
{
    timestamp_or_unset(NaiveDateTime::parse_from_str(text, TIMESTAMP_FORMAT))
}

} // verus!
