//! The wall clock.

use vstd::prelude::*;

verus! {

/// `chrono::ParseError`, the reason why a text is no point in time.
#[verifier::external_type_specification]
#[verifier::external_body]
pub struct ExParseError(chrono::ParseError);

/// Whether `chrono::DateTime::parse_from_rfc3339` accepts a text.
pub uninterp spec fn is_rfc3339(text: Seq<char>) -> bool;

/// Calls `chrono::Local::now` and takes the milliseconds since the Unix epoch.
/// Nothing is claimed of the time that comes back.
#[verifier::external_body]
pub(crate) fn now_millis() -> (millis: i64) {
    chrono::Local::now().timestamp_millis()
}

/// The text that `chrono::DateTime::to_rfc3339` writes for a time, given by
/// seconds and nanoseconds since the Unix epoch and the offset of its zone from
/// UTC in seconds.
pub uninterp spec fn rfc3339_text(seconds: int, nanoseconds: int, offset: int) -> Seq<char>;

/// The text that `chrono::DateTime::format` writes with a pattern for the time
/// that a text in the notation of RFC 3339 tells, in a zone with an offset from
/// UTC in seconds.
pub uninterp spec fn shown_at(text: Seq<char>, offset: int, pattern: Seq<char>) -> Seq<char>;

/// How the import time of a runtime is shown.
pub const IMPORT_TIME_PATTERN: &'static str = "%Y/%m/%d %H:%M";

/// An offset from UTC that a time zone can have, in seconds: less than a day.
pub open spec fn zone_offset(offset: int) -> bool {
    -86400 < offset < 86400
}

/// A time in the years 0 to 9999 of its zone, whose offset is less than a day
/// also when it is rounded to minutes.
pub open spec fn four_digit_year(seconds: int, offset: int) -> bool {
    -62167219200 <= seconds + offset < 253402300800 && -86370 < offset < 86370
}

/// The stamp was written for some time in some zone, and where the year has four
/// digits it is in the notation of RFC 3339.
pub open spec fn time_stamp(stamp: Seq<char>) -> bool {
    exists|seconds: int, nanoseconds: int, offset: int|
        zone_offset(offset) && stamp == #[trigger] rfc3339_text(seconds, nanoseconds, offset) && (
        four_digit_year(seconds, offset) ==> is_rfc3339(stamp))
}

/// Some zone shows the time of a text like this.
pub open spec fn shown_somewhere(text: Seq<char>, pattern: Seq<char>, shown: Seq<char>) -> bool {
    exists|offset: int|
        zone_offset(offset) && shown == #[trigger] shown_at(text, offset, pattern)
}

/// The time of now, as it is written and as it is told by the clock.
struct Reading {
    stamp: String,
    seconds: i64,
    nanoseconds: u32,
    offset: i32,
}

/// Calls `chrono::Local::now` and writes the time with
/// `chrono::DateTime::to_rfc3339`. Which time and which zone it is depends on the
/// machine. `chrono::DateTime::parse_from_rfc3339` reads what was written where
/// the year has four digits.
#[verifier::external_body]
fn read_clock() -> (reading: Reading)
    ensures
        zone_offset(reading.offset as int),
        reading.stamp@ == rfc3339_text(
            reading.seconds as int,
            reading.nanoseconds as int,
            reading.offset as int,
        ),
        four_digit_year(reading.seconds as int, reading.offset as int) ==> is_rfc3339(
            reading.stamp@,
        ),
{
    let now = chrono::Local::now();
    Reading {
        stamp: now.to_rfc3339(),
        seconds: now.timestamp(),
        nanoseconds: now.timestamp_subsec_nanos(),
        offset: now.offset().local_minus_utc(),
    }
}

/// The time of now in the notation of RFC 3339.
pub(crate) fn now_rfc3339() -> (stamp: String)
    ensures
        time_stamp(stamp@),
{
    read_clock().stamp
}

/// Calls `chrono::DateTime::parse_from_rfc3339` and writes the time in the time
/// zone of the machine with `chrono::DateTime::format`. Whether the text is
/// accepted depends on the text alone. What is written depends on the text, the
/// pattern and the offset of the zone, of which it is only claimed that it is
/// less than a day. A pattern that `chrono` does not know cannot be written, so
/// only the known one is admitted.
#[verifier::external_body]
fn shown_locally(timestamp: &str, pattern: &str) -> (shown: Result<String, chrono::ParseError>)
    requires
        pattern@ == IMPORT_TIME_PATTERN@,
    ensures
        match shown {
            Ok(s) => is_rfc3339(timestamp@) && exists|offset: int|
                zone_offset(offset) && s@ == #[trigger] shown_at(timestamp@, offset, pattern@),
            Err(_) => !is_rfc3339(timestamp@),
        },
{
    let time = chrono::DateTime::parse_from_rfc3339(timestamp)?;
    Ok(time.with_timezone(&chrono::Local).format(pattern).to_string())
}

/// The import time to be shown: the local time where it is known, and the
/// recorded text where it is not.
pub fn import_time_or(shown: Option<String>, timestamp: &str) -> (out: String)
    ensures
        out@ == match shown {
            Some(s) => s@,
            None => timestamp@,
        },
{
    match shown {
        Some(s) => s,
        None => timestamp.to_owned(),
    }
}

/// The import time of a runtime as it is shown, in the time zone of the machine;
/// a text that is no point in time is shown as it is.
pub fn format_import_time(timestamp: &str) -> (out: String)
    ensures
        is_rfc3339(timestamp@) ==> shown_somewhere(timestamp@, IMPORT_TIME_PATTERN@, out@),
        is_rfc3339(timestamp@) ==> shown_somewhere(timestamp@, "%Y/%m/%d %H:%M"@, out@),
        !is_rfc3339(timestamp@) ==> out@ == timestamp@,
{
    let shown = match shown_locally(timestamp, IMPORT_TIME_PATTERN) {
        Ok(s) => Some(s),
        Err(_) => None,
    };
    import_time_or(shown, timestamp)
}

} // verus!
