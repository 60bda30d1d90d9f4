//! Instants and calendar days, as the `time` crate parses and prints them.
//!
//! A [`Timestamp`] keeps, as plain integers, what the aggregation reads of a
//! parsed RFC 3339 date-time: the instant (for ordering and the time window),
//! the UTC offset it was written with, and the calendar day in that offset
//! (for bucketing by day).

use vstd::prelude::*;

verus! {

/// The Julian day number of the first day `time` can represent (-9999-01-01).
pub open spec fn min_julian_day() -> int {
    -1930999
}

/// The Julian day number of the last day `time` can represent (9999-12-31).
pub open spec fn max_julian_day() -> int {
    5373484
}

/// A day that `time` can print.
pub open spec fn day_in_range(d: i32) -> bool {
    min_julian_day() <= d <= max_julian_day()
}

/// A point in time with the offset and local calendar day it was written in.
#[derive(Debug, Clone, Copy, PartialEq, Eq, Structural)]
pub struct Timestamp {
    /// Nanoseconds since the Unix epoch; two timestamps compare by this.
    pub unix_nanos: i128,
    /// The UTC offset, in seconds, of the written form.
    pub offset_seconds: i32,
    /// The Julian day number of the calendar date in that offset.
    pub julian_day: i32,
}

impl Timestamp {
    /// The calendar day lies in the range that `time` can represent.
    pub open spec fn wf(self) -> bool {
        min_julian_day() <= self.julian_day <= max_julian_day()
    }
}

/// What `time` parses from an RFC 3339 text: the timestamp, or nothing when
/// the text is not a valid RFC 3339 date-time.
pub uninterp spec fn rfc3339_timestamp(text: Seq<char>) -> Option<Timestamp>;

/// The text `time` prints for the calendar date with the given Julian day
/// number (`YYYY-MM-DD` for years 0 to 9999).
pub uninterp spec fn date_text(julian_day: i32) -> Seq<char>;

/// What `time` writes in RFC 3339 form for the instant `unix_nanos` in the
/// UTC offset `offset_seconds`, or nothing when it cannot represent or
/// write that date-time.
pub uninterp spec fn rfc3339_text(unix_nanos: i128, offset_seconds: i32) -> Option<Seq<char>>;

/// A character of a printed date: a digit, a dash or a sign.
pub open spec fn is_date_char(c: char) -> bool {
    ('0' <= c && c <= '9') || c == '-' || c == '+'
}

/// A text made of the characters of a printed date.
pub open spec fn is_date_text(s: Seq<char>) -> bool {
    forall|i: int| 0 <= i < s.len() ==> is_date_char(#[trigger] s[i])
}

/// Parses an RFC 3339 timestamp as Kiro writes them (e.g.
/// `2026-07-02T18:38:27.469426Z`).
///
/// Calls `time::OffsetDateTime::parse` with the `Rfc3339` description and
/// reads the instant, the offset and the date of the result. The contract
/// names the result and adds only that a parsed date lies in the range of
/// `time::Date`, which every value of that type does.
#[verifier::external_body]
pub fn parse_ts(text: &str) -> (res: Option<Timestamp>)
    ensures
        res == rfc3339_timestamp(text@),
        res matches Some(t) ==> t.wf(),
{
    match time::OffsetDateTime::parse(text, &time::format_description::well_known::Rfc3339) {
        Ok(t) => Some(
            Timestamp {
                unix_nanos: t.unix_timestamp_nanos(),
                offset_seconds: t.offset().whole_seconds(),
                julian_day: t.date().to_julian_day(),
            },
        ),
        Err(_) => None,
    }
}

/// Prints the calendar date with the given Julian day number.
///
/// Calls `time::Date::from_julian_day`, which succeeds on the whole range
/// that `requires` admits, and the `Display` impl of `time::Date`. The
/// contract names the text and adds only what that impl shows of its
/// characters: the year (with a sign where one is written), then the month
/// and the day, in digits joined by dashes.
#[verifier::external_body]
pub fn format_day(julian_day: i32) -> (res: String)
    requires
        min_julian_day() <= julian_day <= max_julian_day(),
    ensures
        res@ == date_text(julian_day),
        is_date_text(res@),
{
    time::Date::from_julian_day(julian_day).expect("julian day in range").to_string()
}

/// Writes a timestamp in RFC 3339 form, in the offset it was written with.
///
/// Builds the `time::OffsetDateTime` of the timestamp with
/// `UtcOffset::from_whole_seconds`, `OffsetDateTime::from_unix_timestamp_nanos`
/// and `checked_to_offset`, and writes it with `OffsetDateTime::format` and
/// the `Rfc3339` description. The contract names the text (or its absence)
/// and states nothing more of it.
#[verifier::external_body]
pub(crate) fn format_rfc3339(t: Timestamp) -> (res: Option<String>)
    ensures
        res is Some <==> rfc3339_text(t.unix_nanos, t.offset_seconds) is Some,
        res matches Some(s) ==> rfc3339_text(t.unix_nanos, t.offset_seconds) == Some(s@),
{
    let offset = match time::UtcOffset::from_whole_seconds(t.offset_seconds) {
        Ok(o) => o,
        Err(_) => return None,
    };
    let at = match time::OffsetDateTime::from_unix_timestamp_nanos(t.unix_nanos) {
        Ok(a) => a,
        Err(_) => return None,
    };
    match at.checked_to_offset(offset) {
        Some(local) => local.format(&time::format_description::well_known::Rfc3339).ok(),
        None => None,
    }
}

} // verus!
