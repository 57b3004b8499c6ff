//! The wall clock, for the time stamps of alerts and baseline records.

use vstd::prelude::*;
use std::fmt::Write;

verus! {

/// Declares `std::time::SystemTime` to Verus as an opaque type.
#[verifier::external_type_specification]
#[verifier::external_body]
pub struct ExSystemTime(std::time::SystemTime);

/// Declares `chrono::NaiveDateTime` to Verus as an opaque type.
#[verifier::external_type_specification]
#[verifier::external_body]
pub struct ExNaiveDateTime(chrono::NaiveDateTime);

/// Calls `SystemTime::now`. Nothing is stated of the result: it is the time
/// of the call.
#[verifier::external_body]
fn system_time_now() -> std::time::SystemTime {
    std::time::SystemTime::now()
}

/// Calls `SystemTime::duration_since(UNIX_EPOCH)`; `None` when the time is
/// before 1970 (the call's error). Nothing is stated of the duration: it
/// depends on the time held.
#[verifier::external_body]
fn duration_since_epoch(time: &std::time::SystemTime) -> Option<std::time::Duration> {
    time.duration_since(std::time::UNIX_EPOCH).ok()
}

/// Calls `Duration::as_secs`: the whole seconds of the duration.
#[verifier::external_body]
fn duration_secs(duration: &std::time::Duration) -> u64 {
    duration.as_secs()
}

/// Calls `Duration::subsec_nanos`. Trusted: the result is below one billion
/// (the documentation: the fractional part of a second in nanoseconds).
#[verifier::external_body]
fn duration_subsec_nanos(duration: &std::time::Duration) -> (res: u32)
    ensures
        res < 1_000_000_000,
{
    duration.subsec_nanos()
}

/// Calls `chrono::NaiveDateTime::from_timestamp_opt`: the UTC date and time
/// `secs` seconds and `nanos` nanoseconds after 1970-01-01 00:00:00; `None`
/// when out of chrono's range. Nothing is stated of the value, which is
/// opaque here.
#[verifier::external_body]
#[allow(deprecated)]
fn naive_utc_from_timestamp(secs: i64, nanos: u32) -> Option<chrono::NaiveDateTime>
    requires
        nanos < 1_000_000_000,
{
    chrono::NaiveDateTime::from_timestamp_opt(secs, nanos)
}

/// Calls `chrono::NaiveDateTime::format` with `pattern` and writes the
/// result into a `String`; `None` when writing fails (a pattern that chrono
/// cannot format). Nothing is stated of the text: it depends on the date and
/// time held.
#[verifier::external_body]
fn format_naive(time: &chrono::NaiveDateTime, pattern: &str) -> Option<String> {
    let mut text = String::new();
    match write!(text, "{}", time.format(pattern)) {
        Ok(()) => Some(text),
        Err(_) => None,
    }
}

/// The layout of a time stamp: `YYYY-MM-DD HH:MM:SS`.
pub fn timestamp_pattern() -> (res: &'static str)
    ensures
        res@ == "%Y-%m-%d %H:%M:%S"@,
{
    "%Y-%m-%d %H:%M:%S"
}

/// The current UTC time laid out by `timestamp_pattern`; `None` when the
/// system clock reads before 1970 or past the range of dates that can be
/// written.
pub(crate) fn current_timestamp() -> Option<String> {
    let now = system_time_now();
    match duration_since_epoch(&now) {
        None => None,
        Some(since_epoch) => {
            let secs = duration_secs(&since_epoch);
            if secs > 9_223_372_036_854_775_807u64 {
                return None;
            }
            let nanos = duration_subsec_nanos(&since_epoch);
            match naive_utc_from_timestamp(secs as i64, nanos) {
                None => None,
                Some(time) => format_naive(&time, timestamp_pattern()),
            }
        },
    }
}

} // verus!
