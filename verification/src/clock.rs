use std::time::{Duration, SystemTime};
use vstd::prelude::*;

verus! {

/// A point in time of `std`, carried from one call to the next.
#[verifier::external_type_specification]
#[verifier::external_body]
pub struct ExSystemTime(SystemTime);

/// Calls `std::time::SystemTime::now`. Nothing is said of the result: it
/// changes from call to call.
#[verifier::external_body]
pub(crate) fn now() -> (time: SystemTime) {
    SystemTime::now()
}

/// Calls `std::time::SystemTime::duration_since` with the Unix epoch;
/// `None` where the time stands before the epoch.
#[verifier::external_body]
pub(crate) fn since_epoch(time: &SystemTime) -> (elapsed: Option<Duration>) {
    match time.duration_since(SystemTime::UNIX_EPOCH) {
        Ok(elapsed) => Some(elapsed),
        Err(_) => None,
    }
}

/// Calls `std::time::Duration::as_millis`.
#[verifier::external_body]
pub(crate) fn whole_millis(elapsed: &Duration) -> (millis: u128) {
    elapsed.as_millis()
}

/// The time of the call in milliseconds since the Unix epoch; `None` where
/// the clock stands before the epoch.
pub(crate) fn unix_millis() -> (millis: Option<u128>) {
    let time = now();
    match since_epoch(&time) {
        Some(elapsed) => Some(whole_millis(&elapsed)),
        None => None,
    }
}

} // verus!
