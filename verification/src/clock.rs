//! The system clock, read through `std::time`.
use vstd::prelude::*;

use std::time::{Duration, SystemTime};

verus! {

#[verifier::external_type_specification]
#[verifier::external_body]
pub struct ExSystemTime(SystemTime);

/// `UNIX_EPOCH.elapsed()`: the time from the Unix epoch to the system clock's
/// present reading, or `None` when the clock reads earlier than the epoch.
/// Nothing is stated of the duration: it is whatever the clock reads.
#[verifier::external_body]
fn elapsed_since_unix_epoch() -> Option<Duration> {
    match std::time::UNIX_EPOCH.elapsed() {
        Ok(elapsed) => Some(elapsed),
        Err(_) => None,
    }
}

/// `Duration::as_millis`: the whole milliseconds of a duration. A duration is
/// opaque here, so nothing is stated of the number.
#[verifier::external_body]
fn duration_as_millis(duration: &Duration) -> u128 {
    duration.as_millis()
}

/// `Duration::new`: a duration of `secs` seconds and `nanos` nanoseconds. Below one
/// second of nanoseconds it cannot overflow, hence the bound. The duration is opaque.
#[verifier::external_body]
pub(crate) fn duration_new(secs: u64, nanos: u32) -> Duration
    requires
        nanos < 1_000_000_000,
{
    Duration::new(secs, nanos)
}

/// `UNIX_EPOCH.checked_add(duration)`: the point in time `duration` after the Unix
/// epoch, or `None` when it does not fit in the platform's time type. Points in
/// time are opaque; nothing is stated of which one it is.
#[verifier::external_body]
pub(crate) fn unix_epoch_checked_add(duration: Duration) -> Option<SystemTime> {
    std::time::UNIX_EPOCH.checked_add(duration)
}

/// `format!("{:?}", time)`: the `Debug` text of a point in time. Its wording is
/// std's own; nothing is stated of it.
#[verifier::external_body]
pub(crate) fn debug_system_time(time: &SystemTime) -> String {
    format!("{:?}", time)
}

/// The system clock in milliseconds since the Unix epoch, cut to 64 bits, or `None`
/// when the clock reads earlier than the epoch.
pub fn unix_time_ms() -> Option<u64> {
    match elapsed_since_unix_epoch() {
        Some(elapsed) => {
            let ms = duration_as_millis(&elapsed);
            Some(#[verifier::truncate] (ms as u64))
        },
        None => None,
    }
}

} // verus!
