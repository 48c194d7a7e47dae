//! A lazily armed periodic interval.

use crate::time::{Duration, Instant};
use vstd::prelude::*;

verus! {

/// A timer that was armed at a reading of the clock and fires after a span.
#[derive(Clone, Copy, Debug, PartialEq, Eq, Structural)]
pub struct ArmedTimer {
    pub armed_at: Instant,
    pub span: Duration,
}

impl ArmedTimer {
    /// Whether the timer has fired at `now`.
    pub open spec fn fired_at(self, now: Instant) -> bool {
        now.nanos >= self.armed_at.nanos + self.span.nanos
    }

    /// Whether the timer has fired at `now`.
    pub fn has_fired(&self, now: Instant) -> (fired: bool)
        ensures
            fired == self.fired_at(now),
    {
        now.nanos >= self.armed_at.nanos && now.nanos - self.armed_at.nanos >= self.span.nanos
    }

    /// How long after `now` the timer fires; zero once it has, and the longest
    /// span where the wait is longer still.
    pub fn time_left(&self, now: Instant) -> (left: Duration)
        ensures
            ({
                let wait = self.armed_at.nanos + self.span.nanos - now.nanos;
                left.nanos == if wait < 0 {
                    0
                } else if wait > u128::MAX {
                    u128::MAX as int
                } else {
                    wait
                }
            }),
    {
        if now.nanos >= self.armed_at.nanos {
            Duration { nanos: self.span.nanos.saturating_sub(now.nanos - self.armed_at.nanos) }
        } else {
            Duration { nanos: self.span.nanos.saturating_add(self.armed_at.nanos - now.nanos) }
        }
    }
}

/// A periodic interval whose timer is armed when it is first polled, and again
/// after each tick: a late poll waits a whole period from its tick on instead
/// of catching up.
#[derive(Clone, Copy, Debug, PartialEq, Eq, Structural)]
pub struct Interval {
    pub period: Duration,
    /// Delay before the first armed timer.
    pub first_delay: Duration,
    /// The armed timer.
    pub timer: Option<ArmedTimer>,
    /// The first poll ticks before any wait.
    pub first_tick_pending: bool,
}

/// An interval whose first tick is immediate.
pub fn interval(period: Duration) -> (ticker: Interval)
    ensures
        ticker == (Interval {
            period,
            first_delay: period,
            timer: None,
            first_tick_pending: true,
        }),
{
    Interval { period, first_delay: period, timer: None, first_tick_pending: true }
}

/// An interval whose first tick comes after `delay`.
pub fn interval_after(delay: Duration, period: Duration) -> (ticker: Interval)
    ensures
        ticker == (Interval { period, first_delay: delay, timer: None, first_tick_pending: false }),
{
    Interval { period, first_delay: delay, timer: None, first_tick_pending: false }
}

impl Interval {
    /// The timer that runs once the interval was polled at `now`.
    pub open spec fn armed_for(self, now: Instant) -> ArmedTimer {
        match self.timer {
            Some(timer) => timer,
            None => ArmedTimer { armed_at: now, span: self.first_delay },
        }
    }

    /// Whether a poll at `now` ticks.
    pub open spec fn ticks_at(self, now: Instant) -> bool {
        self.first_tick_pending || self.armed_for(now).fired_at(now)
    }

    /// The interval after a poll at `now`.
    pub open spec fn polled(self, now: Instant) -> Interval {
        Interval {
            first_tick_pending: false,
            timer: Some(
                if self.ticks_at(now) {
                    ArmedTimer { armed_at: now, span: self.period }
                } else {
                    self.armed_for(now)
                },
            ),
            ..self
        }
    }

    /// Whether the interval ticks at `now`. Arms the timer on first use, and
    /// again after each tick.
    pub fn poll_tick(&mut self, now: Instant) -> (ticked: bool)
        ensures
            ticked == old(self).ticks_at(now),
            *final(self) == old(self).polled(now),
    {
        if self.first_tick_pending {
            self.first_tick_pending = false;
            self.timer = Some(ArmedTimer { armed_at: now, span: self.period });
            return true;
        }
        let timer: ArmedTimer = match self.timer {
            Some(timer) => timer,
            None => ArmedTimer { armed_at: now, span: self.first_delay },
        };
        if timer.has_fired(now) {
            self.timer = Some(ArmedTimer { armed_at: now, span: self.period });
            true
        } else {
            self.timer = Some(timer);
            false
        }
    }

    /// The time between ticks.
    pub fn period(&self) -> (period: Duration)
        ensures
            period == self.period,
    {
        self.period
    }
}

/// After a tick, the next one comes a whole period later, and not before:
/// ticks that were missed are late and never burst.
pub proof fn ticks_are_a_period_apart(ticker: Interval, tick: Instant, later: Instant)
    requires
        ticker.ticks_at(tick),
    ensures
        ticker.polled(tick).ticks_at(later) == (later.nanos >= tick.nanos + ticker.period.nanos),
        ticker.polled(tick).period == ticker.period,
{
}

/// Polling early loses nothing: a poll that does not tick leaves the running
/// wait alone, so that the interval ticks later exactly when it would have
/// without the early poll, once it is armed.
pub proof fn early_polls_lose_no_tick(ticker: Interval, early: Instant, later: Instant)
    requires
        ticker.timer is Some,
        !ticker.first_tick_pending,
        !ticker.ticks_at(early),
    ensures
        ticker.polled(early) == ticker,
        ticker.polled(early).ticks_at(later) == ticker.ticks_at(later),
{
}

/// The first tick of an [`interval`] is immediate, whatever its period, and
/// the second a period after it; the first tick of an [`interval_after`] comes
/// after its delay.
pub proof fn first_tick(period: Duration, delay: Duration, start: Instant, later: Instant)
    ensures
        ({
            let prompt = Interval {
                period,
                first_delay: period,
                timer: None,
                first_tick_pending: true,
            };
            &&& prompt.ticks_at(start)
            &&& prompt.polled(start).ticks_at(later) == (later.nanos >= start.nanos + period.nanos)
        }),
        ({
            let delayed = Interval {
                period,
                first_delay: delay,
                timer: None,
                first_tick_pending: false,
            };
            &&& delayed.ticks_at(start) == (delay.nanos == 0)
            &&& !delayed.ticks_at(start) ==> delayed.polled(start).ticks_at(later) == (later.nanos
                >= start.nanos + delay.nanos)
        }),
{
}

/// A running timer is waited for: the interval ticks once the span that it was
/// armed for has passed, and not before.
pub proof fn a_running_timer_is_waited_for(ticker: Interval, timer: ArmedTimer, now: Instant)
    requires
        !ticker.first_tick_pending,
        ticker.timer == Some(timer),
    ensures
        ticker.ticks_at(now) <==> now.nanos >= timer.armed_at.nanos + timer.span.nanos,
{
}

} // verus!
