//! Access to the system clocks. Nothing is promised of the values they
//! return: callers state what holds whatever the clock says.

use vstd::prelude::*;

verus! {

/// The monotonic clock's time points (`std::time::Instant`).
#[verifier::external_type_specification]
#[verifier::external_body]
pub struct ExInstant(std::time::Instant);

/// The wall clock's time points (`std::time::SystemTime`).
#[verifier::external_type_specification]
#[verifier::external_body]
pub struct ExSystemTime(std::time::SystemTime);

/// `Instant` is `Copy`: its `clone` returns the same time point.
pub assume_specification[ <std::time::Instant as Clone>::clone ](i: &std::time::Instant) -> (r: std::time::Instant)
    ensures
        r == *i,
;

/// Calls `Instant::now`: the current point of the monotonic clock.
#[verifier::external_body]
pub(crate) fn instant_now() -> std::time::Instant {
    std::time::Instant::now()
}

/// Calls `Instant::elapsed` and converts the duration to whole milliseconds
/// (saturating at `u64::MAX`). Any value may come back.
#[verifier::external_body]
pub(crate) fn elapsed_millis(start: &std::time::Instant) -> u64 {
    u64::try_from(start.elapsed().as_millis()).unwrap_or(u64::MAX)
}

/// Calls `Instant::elapsed` and converts the duration to whole microseconds
/// (saturating at `u64::MAX`). Any value may come back.
#[verifier::external_body]
pub(crate) fn elapsed_micros(start: &std::time::Instant) -> u64 {
    u64::try_from(start.elapsed().as_micros()).unwrap_or(u64::MAX)
}

/// Calls `SystemTime::now`: the current wall-clock time.
#[verifier::external_body]
pub(crate) fn system_now() -> std::time::SystemTime {
    std::time::SystemTime::now()
}

/// Calls `SystemTime::duration_since(UNIX_EPOCH)` and converts it to whole
/// seconds; a time before the epoch gives 0. Any value may come back.
#[verifier::external_body]
pub(crate) fn secs_since_epoch(t: &std::time::SystemTime) -> u64 {
    match t.duration_since(std::time::UNIX_EPOCH) {
        Ok(d) => d.as_secs(),
        Err(_) => 0,
    }
}

/// Seconds since the Unix epoch according to the wall clock.
pub(crate) fn unix_now_secs() -> u64 {
    let now = system_now();
    secs_since_epoch(&now)
}

} // verus!
