//! Readings of the system clock.  Nothing is promised of a reading: it is
//! the time.

use vstd::prelude::*;
use std::time::{Duration, SystemTime};

verus! {

/// `std::time::SystemTime`, carried through opaquely.
#[verifier::external_type_specification]
#[verifier::external_body]
pub struct ExSystemTime(SystemTime);

/// `SystemTime::now`: the current time on the system clock.
#[verifier::external_body]
pub(crate) fn system_now() -> (t: SystemTime) {
    SystemTime::now()
}

/// `SystemTime::duration_since(UNIX_EPOCH)`: the time elapsed since the Unix
/// epoch, `None` when `t` is before it.
#[verifier::external_body]
pub(crate) fn since_epoch(t: &SystemTime) -> (d: Option<Duration>) {
    match t.duration_since(std::time::UNIX_EPOCH) {
        Ok(d) => Some(d),
        Err(_) => None,
    }
}

/// `Duration::as_secs`: the whole seconds of `d`.
#[verifier::external_body]
pub(crate) fn whole_seconds(d: &Duration) -> (s: u64) {
    d.as_secs()
}

/// `Duration::as_nanos`: `d` in nanoseconds.
#[verifier::external_body]
pub(crate) fn total_nanos(d: &Duration) -> (n: u128) {
    d.as_nanos()
}

/// Whole seconds since the Unix epoch on the system clock; `None` when the
/// clock reads before the epoch.
pub(crate) fn epoch_seconds() -> (s: Option<u64>) {
    match since_epoch(&system_now()) {
        Some(d) => Some(whole_seconds(&d)),
        None => None,
    }
}

/// Nanoseconds since the Unix epoch on the system clock; `None` when the
/// clock reads before the epoch.
pub(crate) fn epoch_nanos() -> (n: Option<u128>) {
    match since_epoch(&system_now()) {
        Some(d) => Some(total_nanos(&d)),
        None => None,
    }
}

} // verus!
