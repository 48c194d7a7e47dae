//! A wall clock that follows the timer clock.

use crate::runtime::time::{since_epoch, unix_millis, unix_nanos, unix_secs};
use crate::time::{Duration, Instant, NANOS_PER_MILLI, NANOS_PER_SEC};
use vstd::prelude::*;

verus! {

/// Unix timestamps derived from one reading of the platform clock: every later
/// timestamp adds what elapsed on the timer clock since.
#[derive(Clone, Copy, Debug, PartialEq, Eq, Structural)]
pub struct WallClock {
    /// The span since the Unix epoch at the anchor.
    pub epoch: Duration,
    /// The timer clock at the anchor.
    pub instant: Instant,
}

impl WallClock {
    /// The span since the Unix epoch at `now`.
    pub open spec fn span_at(self, now: Instant) -> int {
        self.epoch.nanos + now.spec_since(self.instant).nanos
    }

    /// The span at `now` is one a clock can show.
    pub open spec fn reaches(self, now: Instant) -> bool {
        self.span_at(now) < (u64::MAX + 1) * NANOS_PER_SEC
    }

    /// Read the platform clock once, at `now` on the timer clock.
    pub fn anchored(now: Instant) -> (clock: WallClock)
        ensures
            clock.instant == now,
            clock.reaches(now),
    {
        WallClock { epoch: since_epoch(), instant: now }
    }

    fn since_epoch(&self, now: Instant) -> (since: Duration)
        requires
            self.reaches(now),
        ensures
            since.nanos == self.span_at(now),
            crate::runtime::time::clock_span(since),
    {
        Duration { nanos: self.epoch.nanos + now.duration_since(self.instant).nanos }
    }

    /// The Unix timestamp at `now` in whole seconds.
    pub fn now_unix_secs(&self, now: Instant) -> (secs: u64)
        requires
            self.reaches(now),
        ensures
            secs == self.span_at(now) / (NANOS_PER_SEC as int),
    {
        unix_secs(self.since_epoch(now))
    }

    /// The Unix timestamp at `now` in whole milliseconds, modulo `2^64`.
    pub fn now_unix_millis(&self, now: Instant) -> (millis: u64)
        requires
            self.reaches(now),
        ensures
            self.span_at(now) / (NANOS_PER_MILLI as int) <= u64::MAX ==> millis == self.span_at(now)
                / (NANOS_PER_MILLI as int),
            millis == (self.span_at(now) / (NANOS_PER_MILLI as int)) as u64,
    {
        unix_millis(self.since_epoch(now))
    }

    /// The Unix timestamp at `now` in nanoseconds, modulo `2^64`.
    pub fn now_unix_nanos(&self, now: Instant) -> (nanos: i64)
        requires
            self.reaches(now),
        ensures
            self.span_at(now) <= i64::MAX ==> nanos == self.span_at(now),
            nanos == self.span_at(now) as i64,
    {
        unix_nanos(self.since_epoch(now))
    }
}

/// Between two readings the clock moves by exactly what elapsed on the timer
/// clock, once the anchor is past.
pub proof fn clock_follows_the_timer(clock: WallClock, earlier: Instant, later: Instant)
    requires
        clock.instant.nanos <= earlier.nanos <= later.nanos,
    ensures
        clock.span_at(later) - clock.span_at(earlier) == later.spec_since(earlier).nanos,
{
}

/// The clock never goes back while the timer clock does not.
pub proof fn clock_is_monotonic(clock: WallClock, earlier: Instant, later: Instant)
    requires
        earlier.nanos <= later.nanos,
    ensures
        clock.span_at(earlier) <= clock.span_at(later),
{
}

/// The clock shows the span at its anchor, and later that and the time since.
pub proof fn the_clock_starts_at_its_anchor(clock: WallClock, now: Instant)
    ensures
        clock.span_at(clock.instant) == clock.epoch.nanos,
        now.nanos >= clock.instant.nanos ==> clock.span_at(now) == clock.epoch.nanos + (now.nanos
            - clock.instant.nanos),
        now.nanos < clock.instant.nanos ==> clock.span_at(now) == clock.epoch.nanos,
{
}

} // verus!
