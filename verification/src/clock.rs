//! Spans of time and points in time, as whole nanoseconds. The clock that
//! produces them stays outside the library.

use vstd::prelude::*;

verus! {

pub const NANOS_PER_SEC: u128 = 1_000_000_000;

pub const NANOS_PER_MILLI: u128 = 1_000_000;

/// A span of time.
#[derive(Clone, Copy, Debug, PartialEq, Eq, Structural)]
pub struct Duration {
    pub nanos: u128,
}

impl Duration {
    pub open spec fn of_secs(secs: nat) -> int {
        secs * NANOS_PER_SEC
    }

    pub fn from_secs(secs: u64) -> (d: Duration)
        ensures
            d.nanos == Duration::of_secs(secs as nat),
            d.nanos == secs * 1_000_000_000,
    {
        Duration { nanos: secs as u128 * NANOS_PER_SEC }
    }

    pub fn from_millis(millis: u64) -> (d: Duration)
        ensures
            d.nanos == millis * NANOS_PER_MILLI,
            d.nanos == millis * 1_000_000,
    {
        Duration { nanos: millis as u128 * NANOS_PER_MILLI }
    }

    /// The whole seconds in the span.
    pub fn as_secs(&self) -> (secs: u128)
        ensures
            secs == self.nanos / NANOS_PER_SEC,
            secs * 1_000_000_000 <= self.nanos < (secs + 1) * 1_000_000_000,
    {
        self.nanos / NANOS_PER_SEC
    }

    pub fn is_zero(&self) -> (r: bool)
        ensures
            r == (self.nanos == 0),
    {
        self.nanos == 0
    }
}

/// A point in time, counted from an origin that the caller chooses once.
#[derive(Clone, Copy, Debug, PartialEq, Eq, Structural)]
pub struct Instant {
    pub nanos: u128,
}

/// The nanoseconds from `since` to `now`, or zero where `since` is later.
pub open spec fn elapsed(now: Instant, since: Instant) -> int {
    if since.nanos <= now.nanos {
        now.nanos - since.nanos
    } else {
        0
    }
}

impl Instant {
    /// The time that has passed since `earlier`; zero if `earlier` is later.
    pub fn duration_since(&self, earlier: Instant) -> (d: Duration)
        ensures
            d.nanos == elapsed(*self, earlier),
            earlier.nanos <= self.nanos ==> earlier.nanos + d.nanos == self.nanos,
            earlier.nanos > self.nanos ==> d.nanos == 0,
    {
        if earlier.nanos <= self.nanos {
            Duration { nanos: self.nanos - earlier.nanos }
        } else {
            Duration { nanos: 0 }
        }
    }

    pub fn plus(&self, d: Duration) -> (later: Instant)
        requires
            self.nanos + d.nanos <= u128::MAX,
        ensures
            later.nanos == self.nanos + d.nanos,
            elapsed(later, *self) == d.nanos,
    {
        Instant { nanos: self.nanos + d.nanos }
    }
}

/// A second has a thousand million nanoseconds.
pub proof fn lemma_seconds_in_nanoseconds(secs: nat)
    ensures
        Duration::of_secs(secs) == secs * 1_000_000_000,
{
}

/// The time elapsed takes the earlier point to the later one, and none has
/// where the points are the other way round.
pub proof fn lemma_elapsed_takes_then_to_now(now: Instant, since: Instant)
    ensures
        since.nanos <= now.nanos ==> since.nanos + elapsed(now, since) == now.nanos,
        now.nanos <= since.nanos ==> elapsed(now, since) == 0,
{
}

} // verus!
