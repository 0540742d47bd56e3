//! Readings of the system clocks.
//!
//! Nothing can be promised of a clock reading, so none of these functions has a postcondition:
//! the logic that consumes a reading takes it as an argument and is verified for every value.
use vstd::prelude::*;

verus! {

#[verifier::external_type_specification]
#[verifier::external_body]
pub struct ExInstant(std::time::Instant);

/// Current monotonic instant (`Instant::now`).
#[verifier::external_body]
pub(crate) fn instant_now() -> std::time::Instant {
    std::time::Instant::now()
}

/// Time elapsed since `start` (`Instant::elapsed`).
#[verifier::external_body]
pub(crate) fn instant_elapsed(start: &std::time::Instant) -> std::time::Duration {
    start.elapsed()
}

/// Whole microseconds of a duration (`Duration::as_micros`).
#[verifier::external_body]
pub(crate) fn duration_micros(d: &std::time::Duration) -> u128 {
    d.as_micros()
}

/// Microseconds elapsed since `start`, saturating at `u64::MAX`.
pub fn micros_since(start: &std::time::Instant) -> u64 {
    let d = instant_elapsed(start);
    let m = duration_micros(&d);
    if m > 0xFFFF_FFFF_FFFF_FFFFu128 {
        0xFFFF_FFFF_FFFF_FFFFu64
    } else {
        m as u64
    }
}

#[verifier::external_type_specification]
#[verifier::external_body]
pub struct ExSystemTime(std::time::SystemTime);

/// Current wall-clock time (`SystemTime::now`).
#[verifier::external_body]
pub(crate) fn system_now() -> std::time::SystemTime {
    std::time::SystemTime::now()
}

/// Time elapsed since the Unix epoch, or `None` when `t` lies before it
/// (`SystemTime::duration_since(UNIX_EPOCH)`).
#[verifier::external_body]
pub(crate) fn since_unix_epoch(t: &std::time::SystemTime) -> Option<std::time::Duration> {
    t.duration_since(std::time::UNIX_EPOCH).ok()
}

/// Whole milliseconds of a duration (`Duration::as_millis`).
#[verifier::external_body]
pub(crate) fn duration_millis(d: &std::time::Duration) -> u128 {
    d.as_millis()
}

/// Milliseconds since the Unix epoch (0 when the clock reads earlier than the epoch),
/// saturating at `u64::MAX`.
pub fn unix_millis_now() -> u64 {
    let t = system_now();
    match since_unix_epoch(&t) {
        Some(d) => {
            let m = duration_millis(&d);
            if m > 0xFFFF_FFFF_FFFF_FFFFu128 {
                0xFFFF_FFFF_FFFF_FFFFu64
            } else {
                m as u64
            }
        },
        None => 0,
    }
}

} // verus!
