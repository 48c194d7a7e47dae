//! Spans of time and readings of a monotonic clock.

use vstd::prelude::*;

verus! {

/// Nanoseconds in one second.
pub const NANOS_PER_SEC: u128 = 1_000_000_000;

/// Nanoseconds in one millisecond.
pub const NANOS_PER_MILLI: u128 = 1_000_000;

/// A span of time in whole nanoseconds.
#[derive(Clone, Copy, Debug, PartialEq, Eq, Structural, Hash, PartialOrd, Ord)]
pub struct Duration {
    pub nanos: u128,
}

impl Duration {
    /// The empty span.
    pub fn zero() -> (d: Duration)
        ensures
            d.nanos == 0,
    {
        Duration { nanos: 0 }
    }

    /// A span of whole seconds.
    pub fn from_secs(secs: u64) -> (d: Duration)
        ensures
            d.nanos == secs * NANOS_PER_SEC,
    {
        Duration { nanos: secs as u128 * NANOS_PER_SEC }
    }

    /// A span of whole milliseconds.
    pub fn from_millis(millis: u64) -> (d: Duration)
        ensures
            d.nanos == millis * NANOS_PER_MILLI,
    {
        Duration { nanos: millis as u128 * NANOS_PER_MILLI }
    }

    /// The span in whole nanoseconds.
    pub fn as_nanos(&self) -> (nanos: u128)
        ensures
            nanos == self.nanos,
    {
        self.nanos
    }

    /// The span in whole milliseconds.
    pub fn as_millis(&self) -> (millis: u128)
        ensures
            millis == self.nanos / NANOS_PER_MILLI,
    {
        self.nanos / NANOS_PER_MILLI
    }

    /// The span in whole seconds.
    pub fn as_secs(&self) -> (secs: u128)
        ensures
            secs == self.nanos / NANOS_PER_SEC,
    {
        self.nanos / NANOS_PER_SEC
    }

    /// Whether the span is empty.
    pub fn is_zero(&self) -> (empty: bool)
        ensures
            empty == (self.nanos == 0),
    {
        self.nanos == 0
    }
}

/// A reading of a monotonic clock, in nanoseconds from an arbitrary origin.
#[derive(Clone, Copy, Debug, PartialEq, Eq, Structural, Hash, PartialOrd, Ord)]
pub struct Instant {
    pub nanos: u128,
}

impl Instant {
    /// How long after `earlier` this reading is; zero if it is not after it.
    pub open spec fn spec_since(self, earlier: Instant) -> Duration {
        Duration {
            nanos: if self.nanos >= earlier.nanos {
                (self.nanos - earlier.nanos) as u128
            } else {
                0
            },
        }
    }

    /// How long after `earlier` this reading is; zero if it is not after it.
    pub fn duration_since(&self, earlier: Instant) -> (d: Duration)
        ensures
            d == self.spec_since(earlier),
    {
        Duration { nanos: self.nanos.saturating_sub(earlier.nanos) }
    }

    /// The reading `span` later.
    pub fn plus(&self, span: Duration) -> (later: Instant)
        requires
            self.nanos + span.nanos <= u128::MAX,
        ensures
            later.nanos == self.nanos + span.nanos,
    {
        Instant { nanos: self.nanos + span.nanos }
    }
}

/// The time since an earlier reading is what has to be added to it; since a
/// later one no time has gone by.
pub proof fn time_since_adds_up(now: Instant, then_read: Instant)
    ensures
        then_read.nanos <= now.nanos ==> then_read.nanos + now.spec_since(then_read).nanos
            == now.nanos,
        then_read.nanos > now.nanos ==> now.spec_since(then_read).nanos == 0,
{
}

} // verus!
