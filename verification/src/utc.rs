//! Calendar times through chrono: parsing a time written with a format, and writing one.
//!
//! Times are seconds since the Unix epoch, read as UTC.

use chrono::{Datelike, Timelike};
use vstd::prelude::*;

verus! {

/// What `chrono::NaiveDateTime::parse_from_str(text, format)` gives, as seconds since the Unix
/// epoch read as UTC, when the text parses.
pub uninterp spec fn parsed_utc_time(text: Seq<char>, format: Seq<char>) -> Option<i64>;

/// Calls `chrono::NaiveDateTime::parse_from_str` and turns a parsed time into seconds since the
/// Unix epoch, read as UTC. The contract names the result and claims nothing more of it: the
/// grammar of chrono's format strings is not restated here.
///
/// The format is one of the two this library reads times with: the file name stamps and the
/// command line times. Both give every field of a calendar time and neither holds `%s`, so the
/// parse never reaches the leap second adjustment of a bare timestamp, where chrono panics on
/// overflow.
#[verifier::external_body]
pub(crate) fn parse_utc_time(text: &str, format: &str) -> (r: Option<i64>)
    requires
        format@ == crate::scan_time::stamp_format() || format@
            == crate::connect::command_line_format(),
    ensures
        r == parsed_utc_time(text@, format@),
{
    match chrono::NaiveDateTime::parse_from_str(text, format) {
        Ok(t) => Some(t.and_utc().timestamp()),
        Err(_) => None,
    }
}

/// What chrono writes for the time `ts` with the format `%Y-%m-%dT%H:%M:%S.000Z`, when chrono
/// can represent the time.
pub uninterp spec fn kml_time_text(ts: i64) -> Option<Seq<char>>;

/// Calls `chrono::DateTime::<Utc>::from_timestamp(ts, 0)` and, for a time chrono can represent,
/// writes it with `format("%Y-%m-%dT%H:%M:%S.000Z")`. The contract names the text and claims
/// nothing more of it: the calendar is not restated here.
#[verifier::external_body]
pub(crate) fn format_kml_time(ts: i64) -> (r: Option<String>)
    ensures
        match r {
            Some(s) => kml_time_text(ts) == Some(s@),
            None => kml_time_text(ts) is None,
        },
{
    match chrono::DateTime::from_timestamp(ts, 0) {
        Some(t) => Some(t.format("%Y-%m-%dT%H:%M:%S.000Z").to_string()),
        None => None,
    }
}

/// The year, the day of the year and the hour of the time `ts`, as chrono's `year()`,
/// `ordinal()` and `hour()` give them, when chrono can represent the time.
pub uninterp spec fn utc_hour_fields(ts: i64) -> Option<(i32, u32, u32)>;

/// Calls `chrono::DateTime::<Utc>::from_timestamp(ts, 0)` and, for a time chrono can
/// represent, reads its `year()`, `ordinal()` and `hour()`. The contract names the fields and
/// claims only what chrono documents of them: the day of the year runs from 1 to 366, and the
/// hour is that of the seconds since midnight, `ts` taken modulo a day of 86400 seconds
/// (rounding toward minus infinity, as `from_timestamp` does). The calendar of years and days
/// is not restated here.
#[verifier::external_body]
pub(crate) fn utc_hour(ts: i64) -> (r: Option<(i32, u32, u32)>)
    ensures
        r == utc_hour_fields(ts),
        r matches Some((y, d, h)) ==> 1 <= d <= 366 && h == (ts as int) % 86400 / 3600,
{
    match chrono::DateTime::from_timestamp(ts, 0) {
        Some(t) => Some((t.year(), t.ordinal(), t.hour())),
        None => None,
    }
}

} // verus!
