//! Spans of time in nanoseconds, and points in time read from the system clock.

use vstd::prelude::*;
use std::time::Instant;

verus! {

/// A point in time read from the monotonic clock (`std::time::Instant`).
#[verifier::external_type_specification]
#[verifier::external_body]
pub struct ExInstant(std::time::Instant);

/// The longest span that `std::time::Duration` holds, in nanoseconds.
pub const MAX_SPAN_NANOS: u128 = 18446744073709551615999999999;

/// A span of time, counted in nanoseconds.
#[derive(Debug, Clone, Copy, PartialEq, Eq, Structural)]
pub struct TimeSpan {
    /// Length in nanoseconds.
    pub nanos: u128,
}

impl TimeSpan {
    /// The empty span.
    pub fn zero() -> (t: TimeSpan)
        ensures
            t.nanos == 0,
    {
        TimeSpan { nanos: 0 }
    }

    /// A span of `n` nanoseconds.
    pub fn from_nanos(n: u128) -> (t: TimeSpan)
        ensures
            t.nanos == n,
    {
        TimeSpan { nanos: n }
    }

    /// A span of `us` microseconds.
    pub fn from_micros(us: u64) -> (t: TimeSpan)
        ensures
            t.nanos == us * 1000,
    {
        TimeSpan { nanos: us as u128 * 1000 }
    }

    /// A span of `ms` milliseconds.
    pub fn from_millis(ms: u64) -> (t: TimeSpan)
        ensures
            t.nanos == ms * 1_000_000,
    {
        TimeSpan { nanos: ms as u128 * 1_000_000 }
    }

    /// A span of `s` seconds.
    pub fn from_secs(s: u64) -> (t: TimeSpan)
        ensures
            t.nanos == s * 1_000_000_000,
    {
        TimeSpan { nanos: s as u128 * 1_000_000_000 }
    }

    /// Length in nanoseconds.
    pub fn as_nanos(&self) -> (n: u128)
        ensures
            n == self.nanos,
    {
        self.nanos
    }

    /// Length in whole microseconds.
    pub fn as_micros(&self) -> (n: u128)
        ensures
            n == self.nanos / 1000,
    {
        self.nanos / 1000
    }
}

/// Read the monotonic clock (`Instant::now`). Nothing is promised of the value.
#[verifier::external_body]
pub(crate) fn now() -> (t: Instant) {
    Instant::now()
}

/// The time passed since `earlier` (`Instant::elapsed`), in nanoseconds. It depends on the
/// clock; nothing is promised but that it fits in a `Duration`.
#[verifier::external_body]
pub(crate) fn elapsed_since(earlier: &Instant) -> (t: TimeSpan)
    ensures
        t.nanos <= MAX_SPAN_NANOS,
{
    TimeSpan { nanos: earlier.elapsed().as_nanos() }
}

/// The time from `earlier` to `later` (`Instant::duration_since`, zero when `later` is not after
/// `earlier`), in nanoseconds. It depends on the clock readings; nothing is promised but that it
/// fits in a `Duration`.
#[verifier::external_body]
pub(crate) fn duration_between(later: &Instant, earlier: &Instant) -> (t: TimeSpan)
    ensures
        t.nanos <= MAX_SPAN_NANOS,
{
    TimeSpan { nanos: later.duration_since(*earlier).as_nanos() }
}

} // verus!
