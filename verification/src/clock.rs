//! Wall-clock time as an abstract source of Unix-epoch seconds.
//!
//! The engine itself never reads a clock: every operation takes `now` as an
//! argument, so its behaviour is verified for every instant. The trait is
//! for the callers that have to come up with `now`.

use vstd::prelude::*;
use std::time::{SystemTime, UNIX_EPOCH};

verus! {

/// A source of the current time, in whole seconds since the Unix epoch.
/// Implementations decide what "now" means; tests substitute a fixed one.
pub trait Clock {
    fn unix_now_secs(&self) -> u64;
}

/// Relies on `std::time::SystemTime::now` (with `duration_since` and
/// `as_secs` converting the result): seconds since the Unix epoch, or 0 if
/// the wall clock is set before it. Nothing can be promised of the wall
/// clock's value.
#[verifier::external_body]
fn system_now_secs() -> u64 {
    SystemTime::now().duration_since(UNIX_EPOCH).unwrap_or_default().as_secs()
}

/// The production clock, backed by the system's wall clock.
pub struct SystemClock;

impl Clock for SystemClock {
    fn unix_now_secs(&self) -> u64 {
        system_now_secs()
    }
}

} // verus!
