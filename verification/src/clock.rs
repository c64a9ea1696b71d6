//! Time: the server clock, read through `std::time::Instant`,
//! and the wall clock that seeds key generation.

use vstd::prelude::*;
use std::time::Instant;

verus! {

#[verifier::external_type_specification]
#[verifier::external_body]
pub struct ExInstant(Instant);

/// Nanoseconds since the Unix epoch, from `std::time::SystemTime::now`, cut
/// to 64 bits; a clock set before the epoch reads as 0. Nothing is stated of
/// the value: it depends on the machine's clock and on when it is read.
#[verifier::external_body]
pub(crate) fn clock_nanos() -> u64 {
    match std::time::SystemTime::now().duration_since(std::time::UNIX_EPOCH) {
        Ok(d) => d.as_nanos() as u64,
        Err(_) => 0,
    }
}

/// `Instant::now`: the current reading of the system's `Instant` clock. Nothing is
/// stated of it: it depends on when it is read.
#[verifier::external_body]
fn instant_now() -> Instant {
    Instant::now()
}

/// `Instant::elapsed` of `origin`, in nanoseconds cut to 64 bits. Nothing is
/// stated of the value: it depends on when it is read.
#[verifier::external_body]
fn nanos_since(origin: &Instant) -> u64 {
    origin.elapsed().as_nanos() as u64
}

/// The server's clock: it reads the nanoseconds that `Instant::elapsed` gives
/// since the moment it was started. All times of the server (session
/// activity, cache use, rate windows, uptime) are readings of one such clock.
/// Nothing is stated of the readings, not even their order: the laws on
/// rate windows take non-decreasing times as their premise.
pub struct Clock {
    origin: Instant,
}

impl Clock {
    /// A clock that starts now.
    pub fn start() -> Clock {
        Clock { origin: instant_now() }
    }

    /// Nanoseconds since the clock was started.
    pub fn now_nanos(&self) -> u64 {
        nanos_since(&self.origin)
    }
}

} // verus!
