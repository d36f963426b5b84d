//! Spans of time and a monotonic clock measured in nanoseconds.
use vstd::prelude::*;

verus! {

/// A span of time, counted in whole nanoseconds.
#[derive(Clone, Copy, Debug, PartialEq, Eq)]
pub struct Duration {
    nanos: u128,
}

impl Duration {
    /// The number of nanoseconds in the span.
    pub closed spec fn spec_nanos(self) -> nat {
        self.nanos as nat
    }

    /// A span of `nanos` nanoseconds.
    pub fn from_nanos(nanos: u128) -> (d: Duration)
        ensures
            d.spec_nanos() == nanos,
    {
        Duration { nanos }
    }

    /// A span of `millis` milliseconds.
    pub fn from_millis(millis: u64) -> (d: Duration)
        ensures
            d.spec_nanos() == millis * 1_000_000,
    {
        Duration { nanos: millis as u128 * 1_000_000 }
    }

    /// A span of `secs` seconds.
    pub fn from_secs(secs: u64) -> (d: Duration)
        ensures
            d.spec_nanos() == secs * 1_000_000_000,
    {
        Duration { nanos: secs as u128 * 1_000_000_000 }
    }

    /// The number of nanoseconds in the span.
    pub fn as_nanos(&self) -> (n: u128)
        ensures
            n == self.spec_nanos(),
    {
        self.nanos
    }
}

} // verus!

verus! {

/// Nanoseconds from `then` to `now`, or zero where `then` is the later of the two.
pub open spec fn elapsed_nanos(now: int, then: int) -> int {
    if now >= then {
        now - then
    } else {
        0
    }
}

/// Nanoseconds from `then` to `now`, saturating at zero.
pub fn elapsed_between(now: u128, then: u128) -> (r: u128)
    ensures
        r == elapsed_nanos(now as int, then as int),
{
    if now >= then {
        now - then
    } else {
        0
    }
}

#[verifier::external_type_specification]
#[verifier::external_body]
pub struct ExInstant(std::time::Instant);

/// Reads the system's monotonic clock (`std::time::Instant::now`). Nothing is
/// claimed of the instant it returns: it depends on when it is called.
#[verifier::external_body]
fn instant_now() -> std::time::Instant {
    std::time::Instant::now()
}

/// The whole nanoseconds that passed on the monotonic clock since `origin`
/// (`std::time::Instant::elapsed`). It depends on when it is called, so
/// nothing is claimed of the number.
#[verifier::external_body]
fn nanos_since(origin: &std::time::Instant) -> u128 {
    origin.elapsed().as_nanos()
}

/// A monotonic clock that reads moments as nanoseconds since it was started.
pub struct Clock {
    origin: std::time::Instant,
}

impl Clock {
    /// A clock whose moment zero is now.
    pub fn start() -> Clock {
        Clock { origin: instant_now() }
    }

    /// The current moment, in nanoseconds since the clock was started.
    pub fn now(&self) -> u128 {
        nanos_since(&self.origin)
    }
}

} // verus!
