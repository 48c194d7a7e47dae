//! Graceful shutdown: how many tasks are left, and when the wait for them ends.

use crate::time::{Duration, Instant};
use vstd::prelude::*;

verus! {

/// Counts the active tasks that take part in graceful shutdown.
#[derive(Clone, Copy, Debug, PartialEq, Eq, Structural)]
pub struct GracefulShutdownCounter {
    pub count: usize,
}

/// What a waiting thread does next.
#[derive(Clone, Copy, Debug, PartialEq, Eq, Structural)]
pub enum WaitStep {
    /// The wait is over; whether all tasks completed.
    Done(bool),
    /// Sleep until a task completes.
    Block,
    /// Sleep until a task completes, but no longer than this.
    BlockFor(Duration),
}

impl GracefulShutdownCounter {
    /// The counter after one more task.
    pub open spec fn started(self) -> GracefulShutdownCounter {
        GracefulShutdownCounter {
            count: if self.count == usize::MAX {
                0
            } else {
                (self.count + 1) as usize
            },
        }
    }

    /// The counter after one task less.
    pub open spec fn completed(self) -> GracefulShutdownCounter {
        GracefulShutdownCounter {
            count: if self.count == 0 {
                usize::MAX
            } else {
                (self.count - 1) as usize
            },
        }
    }

    /// No task is active.
    pub fn new() -> (counter: GracefulShutdownCounter)
        ensures
            counter.count == 0,
    {
        GracefulShutdownCounter { count: 0 }
    }

    /// One more task is active.
    pub fn increment(&mut self)
        ensures
            *final(self) == old(self).started(),
    {
        self.count = self.count.wrapping_add(1);
    }

    /// A task completed. Returns whether it was the last one, so that the
    /// waiting thread is to be woken.
    pub fn decrement(&mut self) -> (wake: bool)
        ensures
            *final(self) == old(self).completed(),
            wake == (old(self).count == 1),
    {
        let previous: usize = self.count;
        self.count = self.count.wrapping_sub(1);
        previous == 1
    }

    /// How many tasks are active.
    pub fn load(&self) -> (count: usize)
        ensures
            count == self.count,
    {
        self.count
    }

    /// The next step of a wait without a deadline.
    pub fn wait(&self) -> (step: WaitStep)
        ensures
            step == if self.count == 0 {
                WaitStep::Done(true)
            } else {
                WaitStep::Block
            },
    {
        if self.count > 0 {
            WaitStep::Block
        } else {
            WaitStep::Done(true)
        }
    }

    /// The next step, at `now`, of a wait until `deadline`. `timed_out` is
    /// whether the last sleep ran its full length.
    pub fn wait_until(&self, deadline: Instant, now: Instant, timed_out: bool) -> (step: WaitStep)
        ensures
            step == if self.count == 0 {
                WaitStep::Done(true)
            } else if timed_out || now.nanos >= deadline.nanos {
                WaitStep::Done(false)
            } else {
                WaitStep::BlockFor(deadline.spec_since(now))
            },
    {
        if self.count == 0 {
            return WaitStep::Done(true);
        }
        if timed_out {
            return WaitStep::Done(false);
        }
        let remaining: Duration = deadline.duration_since(now);
        if remaining.is_zero() {
            WaitStep::Done(false)
        } else {
            WaitStep::BlockFor(remaining)
        }
    }
}

/// A wait for the shutdown signal by a task that holds up the shutdown until
/// it has cleaned up.
#[derive(Clone, Copy, Debug, PartialEq, Eq, Structural)]
pub struct GracefulShutdown {
    /// The guard has not been handed out.
    pub guarded: bool,
}

impl GracefulShutdown {
    /// A wait whose guard is counted.
    pub fn new(counter: &mut GracefulShutdownCounter) -> (shutdown: GracefulShutdown)
        ensures
            shutdown.guarded,
            *final(counter) == old(counter).started(),
    {
        counter.increment();
        GracefulShutdown { guarded: true }
    }

    /// Poll the wait, given whether the signal was fired. It hands out the
    /// guard once; polled again it stays pending.
    pub fn poll(&mut self, fired: bool) -> (ready: bool)
        ensures
            ready == (fired && old(self).guarded),
            final(self).guarded == (old(self).guarded && !fired),
    {
        if fired && self.guarded {
            self.guarded = false;
            true
        } else {
            false
        }
    }

    /// Whether the guard was handed out.
    pub fn is_terminated(&self) -> (terminated: bool)
        ensures
            terminated == !self.guarded,
    {
        !self.guarded
    }

    /// A second wait for the same signal; its guard counts too, if the first
    /// still has one.
    pub fn duplicate(&self, counter: &mut GracefulShutdownCounter) -> (copy: GracefulShutdown)
        ensures
            copy == *self,
            *final(counter) == if self.guarded {
                old(counter).started()
            } else {
                *old(counter)
            },
    {
        if self.guarded {
            counter.increment();
        }
        GracefulShutdown { guarded: self.guarded }
    }
}

/// A task that completes leaves the counter as it was before the task started.
pub proof fn completing_undoes_starting(counter: GracefulShutdownCounter)
    ensures
        counter.started().completed() == counter,
{
}

/// A task that starts counts one more and one that completes one less.
pub proof fn tasks_count_by_one(counter: GracefulShutdownCounter)
    ensures
        counter.count < usize::MAX ==> counter.started().count == counter.count + 1,
        counter.count > 0 ==> counter.completed().count + 1 == counter.count,
{
}

} // verus!
