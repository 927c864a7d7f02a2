//! The clocks of the machine: the time since the Unix epoch, for the
//! timestamps of packets, and the time since a chosen instant, for the age
//! of predictions.

use vstd::prelude::*;

verus! {

#[verifier::external_type_specification]
#[verifier::external_body]
pub struct ExInstant(std::time::Instant);

#[verifier::external_type_specification]
#[verifier::external_body]
pub struct ExSystemTime(std::time::SystemTime);

/// Calls `std::time::Instant::now`. Nothing is claimed of the result.
#[verifier::external_body]
pub(crate) fn instant_now() -> (start: std::time::Instant) {
    std::time::Instant::now()
}

/// Calls `std::time::Instant::elapsed`. Nothing is claimed of the result:
/// it depends on the time.
#[verifier::external_body]
pub(crate) fn instant_elapsed(start: &std::time::Instant) -> (passed: std::time::Duration) {
    start.elapsed()
}

/// Calls `std::time::SystemTime::now`. Nothing is claimed of the result.
#[verifier::external_body]
pub(crate) fn system_now() -> (now: std::time::SystemTime) {
    std::time::SystemTime::now()
}

/// Calls `std::time::SystemTime::duration_since` with the Unix epoch, and
/// gives nothing for a time before it. Nothing is claimed of the result.
#[verifier::external_body]
pub(crate) fn since_unix_epoch(now: &std::time::SystemTime) -> (passed: Option<
    std::time::Duration,
>) {
    now.duration_since(std::time::UNIX_EPOCH).ok()
}

/// Calls `std::time::Duration::as_millis`. Nothing is claimed of the
/// result: a duration is opaque here.
#[verifier::external_body]
pub(crate) fn duration_millis(d: &std::time::Duration) -> (millis: u128) {
    d.as_millis()
}

/// The whole milliseconds since the Unix epoch, zero before it.
pub fn unix_millis() -> (millis: u128) {
    let passed = match since_unix_epoch(&system_now()) {
        Some(time) => Some(duration_millis(&time)),
        None => None,
    };
    millis_or_zero(passed)
}

/// The whole milliseconds since `start`, as far as 64 bits hold them.
pub fn elapsed_millis(start: &std::time::Instant) -> (millis: u64) {
    let passed = instant_elapsed(start);
    saturated_millis(duration_millis(&passed))
}

/// The milliseconds of a time that has passed, or zero where there is
/// none.
pub fn millis_or_zero(passed: Option<u128>) -> (millis: u128)
    ensures
        millis == match passed {
            Some(m) => m,
            None => 0,
        },
{
    match passed {
        Some(m) => m,
        None => 0,
    }
}

/// A number of milliseconds as far as 64 bits hold it: the number, or the
/// largest that they hold.
pub open spec fn spec_saturated_millis(millis: u128) -> u64 {
    if millis > u64::MAX {
        u64::MAX
    } else {
        millis as u64
    }
}

/// A number of milliseconds as far as 64 bits hold it.
pub fn saturated_millis(millis: u128) -> (held: u64)
    ensures
        held == spec_saturated_millis(millis),
{
    if millis > 0xFFFF_FFFF_FFFF_FFFF {
        0xFFFF_FFFF_FFFF_FFFF
    } else {
        millis as u64
    }
}

} // verus!
