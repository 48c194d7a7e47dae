//! Timer helpers.

use crate::time::{Duration, NANOS_PER_MILLI};
use vstd::prelude::*;

verus! {

/// A deadline elapsed before the awaited work completed.
#[derive(Clone, Copy, Debug, PartialEq, Eq, Structural)]
pub struct Elapsed;

impl Elapsed {
    /// The error as text.
    pub fn message(&self) -> (text: &'static str)
        ensures
            text@ == "deadline elapsed"@,
    {
        "deadline elapsed"
    }
}

impl From<Elapsed> for &'static str {
    fn from(_elapsed: Elapsed) -> (label: &'static str) {
        "elapsed"
    }
}

impl vstd::std_specs::convert::FromSpecImpl<Elapsed> for &'static str {
    open spec fn obeys_from_spec() -> bool {
        true
    }

    open spec fn from_spec(_elapsed: Elapsed) -> &'static str {
        "elapsed"
    }
}

impl From<&Elapsed> for &'static str {
    fn from(_elapsed: &Elapsed) -> (label: &'static str) {
        "elapsed"
    }
}

impl vstd::std_specs::convert::FromSpecImpl<&Elapsed> for &'static str {
    open spec fn obeys_from_spec() -> bool {
        true
    }

    open spec fn from_spec(_elapsed: &Elapsed) -> &'static str {
        "elapsed"
    }
}

/// The whole milliseconds of a timer that takes no more than 32 bits of them:
/// a longer span becomes the longest timer.
pub fn timer_millis(duration: Duration) -> (millis: u32)
    ensures
        millis == if duration.nanos / NANOS_PER_MILLI <= u32::MAX {
            (duration.nanos / NANOS_PER_MILLI) as u32
        } else {
            u32::MAX
        },
{
    let millis: u128 = duration.as_millis();
    if millis <= u32::MAX as u128 {
        millis as u32
    } else {
        u32::MAX
    }
}

} // verus!
