//! The local clock, and time written after a strftime-style pattern.
//!
//! Both come from the `chrono` crate. Reading the clock and formatting are
//! kept apart: an [`Instant`] carries what was read as plain numbers, so that
//! formatting is a function of its arguments alone.

use vstd::prelude::*;

verus! {

/// A point in time together with the local zone's distance from UTC.
#[derive(Clone, Copy, Debug, PartialEq, Eq)]
pub struct Instant {
    /// Whole seconds since 1970-01-01 00:00:00 UTC.
    pub seconds: i64,
    /// Nanoseconds past that second.
    pub nanos: u32,
    /// Seconds by which local time is ahead of UTC.
    pub offset: i32,
}

/// What `chrono` writes for the instant `seconds` and `nanos` past the Unix
/// epoch, seen from a zone `offset` seconds east of UTC, after `pattern`; or
/// nothing where `chrono` cannot represent the instant or the zone, or
/// rejects a directive of the pattern.
pub uninterp spec fn strftime(seconds: int, nanos: int, offset: int, pattern: Seq<char>) -> Option<
    Seq<char>,
>;

/// The text that stands for a clock placeholder at the instant `at`: the time
/// written after `pattern`, or the placeholder itself where that fails.
pub open spec fn clock_fill(at: Instant, pattern: Seq<char>, raw: Seq<char>) -> Seq<char> {
    match strftime(at.seconds as int, at.nanos as int, at.offset as int, pattern) {
        Some(text) => text,
        None => raw,
    }
}

/// Reads the clock with `chrono::Local::now` and takes the result apart with
/// `DateTime::timestamp`, `DateTime::timestamp_subsec_nanos` and
/// `FixedOffset::local_minus_utc`. Nothing is claimed of the numbers read.
/// `chrono` panics where the system clock stands before 1970.
#[verifier::external_body]
pub(crate) fn local_now() -> Instant {
    let now = chrono::Local::now();
    Instant {
        seconds: now.timestamp(),
        nanos: now.timestamp_subsec_nanos(),
        offset: now.offset().local_minus_utc(),
    }
}

/// Builds the date and time with `chrono::DateTime::from_timestamp`,
/// `FixedOffset::east_opt` and `DateTime::with_timezone`, and writes it with
/// `DateTime::format` and `DelayedFormat::write_to`. The contract claims that
/// the outcome depends on the four values alone, and gives it the name
/// `strftime`; a failure of any of these calls is the outcome `None`.
#[verifier::external_body]
pub(crate) fn format_instant(at: &Instant, pattern: &str) -> (r: Option<String>)
    ensures
        match r {
            Some(text) => strftime(at.seconds as int, at.nanos as int, at.offset as int, pattern@)
                == Some(text@),
            None => strftime(at.seconds as int, at.nanos as int, at.offset as int, pattern@)
                is None,
        },
{
    let utc = chrono::DateTime::from_timestamp(at.seconds, at.nanos)?;
    let zone = chrono::FixedOffset::east_opt(at.offset)?;
    let mut text = String::new();
    match utc.with_timezone(&zone).format(pattern).write_to(&mut text) {
        Ok(()) => Some(text),
        Err(_) => None,
    }
}

/// The text for a clock placeholder, given what formatting returned: the
/// formatted time, or the placeholder as written where there is none.
pub fn formatted_or(formatted: Option<String>, raw: String) -> (out: String)
    ensures
        out@ == match formatted {
            Some(text) => text@,
            None => raw@,
        },
{
    match formatted {
        Some(text) => text,
        None => raw,
    }
}

/// The text for a clock placeholder at the instant `at`: the time written
/// after `pattern`, or `raw` where the instant or the pattern is rejected.
pub fn clock_text(at: &Instant, pattern: &str, raw: String) -> (out: String)
    ensures
        out@ == clock_fill(*at, pattern@, raw@),
{
    formatted_or(format_instant(at, pattern), raw)
}

} // verus!
