//! Points and spans of monotonic time, in nanoseconds.
use vstd::prelude::*;

verus! {

/// A span of time.
#[derive(Clone, Copy, Debug, Eq, PartialEq, Structural, PartialOrd, Ord, Hash)]
pub struct Duration {
    pub nanos: u128,
}

/// A point of a monotonic clock, as the span since the clock's origin.
#[derive(Clone, Copy, Debug, Eq, PartialEq, Structural, PartialOrd, Ord, Hash)]
pub struct Instant {
    pub nanos: u128,
}

impl Duration {
    pub open spec fn of_secs(secs: u64) -> Duration {
        Duration { nanos: (secs * 1_000_000_000) as u128 }
    }

    pub open spec fn of_millis(millis: u64) -> Duration {
        Duration { nanos: (millis * 1_000_000) as u128 }
    }

    pub fn from_secs(secs: u64) -> (duration: Duration)
        ensures
            duration.nanos == secs * 1_000_000_000,
            duration == Duration::of_secs(secs),
    {
        Duration { nanos: secs as u128 * 1_000_000_000 }
    }

    pub fn from_millis(millis: u64) -> (duration: Duration)
        ensures
            duration.nanos == millis * 1_000_000,
            duration == Duration::of_millis(millis),
    {
        Duration { nanos: millis as u128 * 1_000_000 }
    }

    pub fn from_micros(micros: u64) -> (duration: Duration)
        ensures
            duration.nanos == micros * 1_000,
    {
        Duration { nanos: micros as u128 * 1_000 }
    }

    /// The whole milliseconds of the span.
    pub fn as_millis(&self) -> (millis: u128)
        ensures
            millis == self.nanos / 1_000_000,
    {
        self.nanos / 1_000_000
    }
}

impl Instant {
    /// The span from `earlier` to this point, zero where `earlier` is later.
    pub open spec fn since(self, earlier: Instant) -> Duration {
        Duration {
            nanos: if self.nanos >= earlier.nanos {
                (self.nanos - earlier.nanos) as u128
            } else {
                0
            },
        }
    }

    /// The span from `earlier` to this point, zero where `earlier` is later.
    pub fn saturating_duration_since(&self, earlier: Instant) -> (duration: Duration)
        ensures
            duration == self.since(earlier),
    {
        Duration {
            nanos: if self.nanos >= earlier.nanos {
                self.nanos - earlier.nanos
            } else {
                0
            },
        }
    }

    /// The point that lies `duration` after this one.
    pub fn plus(&self, duration: Duration) -> (later: Instant)
        requires
            self.nanos + duration.nanos <= u128::MAX,
        ensures
            later.nanos == self.nanos + duration.nanos,
    {
        Instant { nanos: self.nanos + duration.nanos }
    }
}

/// The span between two points brings the earlier one to the later one, and a point is no
/// span away from any that is not earlier.
pub proof fn lemma_span_between(earlier: Instant, later: Instant)
    ensures
        earlier.nanos <= later.nanos ==> earlier.nanos + later.since(earlier).nanos == later.nanos,
        earlier.nanos >= later.nanos ==> later.since(earlier).nanos == 0,
{
}

/// A second has a thousand milliseconds.
pub proof fn lemma_seconds_and_milliseconds(secs: u64)
    requires
        secs * 1_000 <= u64::MAX,
    ensures
        Duration::of_secs(secs) == Duration::of_millis((secs * 1_000) as u64),
        Duration::of_millis(1_000).nanos == 1_000_000_000,
{
}

} // verus!
