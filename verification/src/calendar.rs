//! Calendar dates, as provided by the `chrono` crate.

use chrono::DateTime;
use vstd::prelude::*;

verus! {

/// The calendar date in UTC of the instant `seconds` after the Unix epoch,
/// written as year, month and day with hyphens between them: what `chrono`
/// gives for `DateTime::from_timestamp` followed by `format("%Y-%m-%d")`.
/// `None` where `chrono` cannot represent the instant.
pub uninterp spec fn utc_date_text(seconds: i64) -> Option<Seq<char>>;

/// The characters of an optional string.
pub open spec fn text_option(s: Option<String>) -> Option<Seq<char>> {
    match s {
        Some(text) => Some(text@),
        None => None,
    }
}

/// Calls `chrono::DateTime::from_timestamp` with no nanoseconds, and on the
/// instant it returns `format` with the pattern `%Y-%m-%d`. The result
/// depends on `seconds` alone. Nothing is promised about its shape.
#[verifier::external_body]
pub(crate) fn utc_date(seconds: i64) -> (res: Option<String>)
    ensures
        text_option(res) == utc_date_text(seconds),
{
    match DateTime::from_timestamp(seconds, 0) {
        Some(instant) => Some(instant.format("%Y-%m-%d").to_string()),
        None => None,
    }
}

} // verus!
