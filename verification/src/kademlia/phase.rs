//! Explicit topology phase machine.
//!
//! Names the connection-building lifecycle. The phase is derived from
//! observable routing state, so it can always be derived again from a fresh
//! snapshot:
//!
//! - [`TopologyPhase::Bootstrap`]: published depth is zero, and every bin fills
//!   toward the bootstrap target.
//! - [`TopologyPhase::Converging`]: depth is above zero but moved within the
//!   stability window, or the neighborhood is not saturated yet.
//! - [`TopologyPhase::Stable`]: depth is above zero, has not moved for the
//!   stability window, and the neighborhood is saturated.

use crate::primitives::NeighborhoodDepth;
use crate::time::{Duration, Instant};
use vstd::prelude::*;

verus! {

/// Phase of the topology connection-building lifecycle.
#[derive(Clone, Copy, Debug, PartialEq, Eq, Structural)]
pub enum TopologyPhase {
    /// Published depth is zero: fill every bin toward the bootstrap target.
    Bootstrap,
    /// Depth is climbing or the neighborhood is unsaturated.
    Converging,
    /// Depth steady for the stability window with a saturated neighborhood.
    Stable,
}

impl TopologyPhase {
    /// All phases, in lifecycle order.
    pub const ALL: [TopologyPhase; 3] = [
        TopologyPhase::Bootstrap,
        TopologyPhase::Converging,
        TopologyPhase::Stable,
    ];

    /// The metric label of a phase.
    pub open spec fn spec_label(self) -> Seq<char> {
        match self {
            TopologyPhase::Bootstrap => "bootstrap"@,
            TopologyPhase::Converging => "converging"@,
            TopologyPhase::Stable => "stable"@,
        }
    }

    /// The metric label of the phase.
    pub fn label(self) -> (label: &'static str)
        ensures
            label@ == self.spec_label(),
    {
        match self {
            TopologyPhase::Bootstrap => "bootstrap",
            TopologyPhase::Converging => "converging",
            TopologyPhase::Stable => "stable",
        }
    }
}

/// A committed phase transition.
#[derive(Clone, Copy, Debug, PartialEq, Eq, Structural)]
pub struct PhaseTransition {
    /// Phase before the transition.
    pub from: TopologyPhase,
    /// Phase after the transition.
    pub to: TopologyPhase,
    /// Neighborhood depth observed at the transition.
    pub depth: NeighborhoodDepth,
    /// Time spent in the previous phase.
    pub time_in_phase: Duration,
}

/// The phase that a depth, held for `steady`, with a saturated neighborhood or
/// without one, belongs to.
pub open spec fn derived_phase(
    depth: NeighborhoodDepth,
    saturated: bool,
    steady: Duration,
    window: Duration,
) -> TopologyPhase {
    if depth.raw == 0 {
        TopologyPhase::Bootstrap
    } else if !saturated || steady.nanos < window.nanos {
        TopologyPhase::Converging
    } else {
        TopologyPhase::Stable
    }
}

/// Owns the current phase and computes transitions from observed state.
///
/// Callers supply the observation time. Recording transitions is their concern.
#[derive(Clone, Copy, Debug)]
pub struct PhaseTracker {
    pub phase: TopologyPhase,
    pub entered_at: Instant,
    pub stability_window: Duration,
    pub last_depth: NeighborhoodDepth,
    pub last_depth_change: Instant,
}

impl PhaseTracker {
    /// When the depth last moved, given that it is `depth` at `now`.
    pub open spec fn depth_since(self, depth: NeighborhoodDepth, now: Instant) -> Instant {
        if depth == self.last_depth {
            self.last_depth_change
        } else {
            now
        }
    }

    /// The phase that an observation at `now` derives.
    pub open spec fn observed_phase(
        self,
        depth: NeighborhoodDepth,
        saturated: bool,
        now: Instant,
    ) -> TopologyPhase {
        derived_phase(
            depth,
            saturated,
            now.spec_since(self.depth_since(depth, now)),
            self.stability_window,
        )
    }

    /// The tracker after an observation at `now`.
    pub open spec fn evaluated(
        self,
        depth: NeighborhoodDepth,
        saturated: bool,
        now: Instant,
    ) -> PhaseTracker {
        let phase = self.observed_phase(depth, saturated, now);
        PhaseTracker {
            phase,
            entered_at: if phase == self.phase {
                self.entered_at
            } else {
                now
            },
            stability_window: self.stability_window,
            last_depth: depth,
            last_depth_change: self.depth_since(depth, now),
        }
    }

    /// The transition that an observation at `now` commits, if any.
    pub open spec fn spec_transition(
        self,
        depth: NeighborhoodDepth,
        saturated: bool,
        now: Instant,
    ) -> Option<PhaseTransition> {
        let phase = self.observed_phase(depth, saturated, now);
        if phase == self.phase {
            None
        } else {
            Some(
                PhaseTransition {
                    from: self.phase,
                    to: phase,
                    depth,
                    time_in_phase: now.spec_since(self.entered_at),
                },
            )
        }
    }

    /// Start tracking in [`TopologyPhase::Bootstrap`] at `now`.
    pub fn new(stability_window: Duration, now: Instant) -> (tracker: PhaseTracker)
        ensures
            tracker == (PhaseTracker {
                phase: TopologyPhase::Bootstrap,
                entered_at: now,
                stability_window,
                last_depth: NeighborhoodDepth { raw: 0 },
                last_depth_change: now,
            }),
    {
        PhaseTracker {
            phase: TopologyPhase::Bootstrap,
            entered_at: now,
            stability_window,
            last_depth: NeighborhoodDepth::zero(),
            last_depth_change: now,
        }
    }

    /// The current phase.
    pub fn phase(&self) -> (phase: TopologyPhase)
        ensures
            phase == self.phase,
    {
        self.phase
    }

    /// Time spent in the current phase as of `now`.
    pub fn time_in_phase(&self, now: Instant) -> (d: Duration)
        ensures
            d == now.spec_since(self.entered_at),
    {
        now.duration_since(self.entered_at)
    }

    /// Derive the phase from the observed state and commit a transition when
    /// it moved. Depth movement is timestamped here, so churn that leaves the
    /// derived phase unchanged commits nothing.
    pub fn evaluate(
        &mut self,
        depth: NeighborhoodDepth,
        neighborhood_saturated: bool,
        now: Instant,
    ) -> (transition: Option<PhaseTransition>)
        ensures
            *final(self) == old(self).evaluated(depth, neighborhood_saturated, now),
            transition == old(self).spec_transition(depth, neighborhood_saturated, now),
    {
        if depth != self.last_depth {
            self.last_depth = depth;
            self.last_depth_change = now;
        }
        let steady: Duration = now.duration_since(self.last_depth_change);
        let next: TopologyPhase = if depth.get() == 0 {
            TopologyPhase::Bootstrap
        } else if !neighborhood_saturated || steady.nanos < self.stability_window.nanos {
            TopologyPhase::Converging
        } else {
            TopologyPhase::Stable
        };
        if next == self.phase {
            return None;
        }
        let transition: PhaseTransition = PhaseTransition {
            from: self.phase,
            to: next,
            depth,
            time_in_phase: self.time_in_phase(now),
        };
        self.phase = next;
        self.entered_at = now;
        Some(transition)
    }
}

/// A depth that moved more recently than the stability window never reads as
/// stable, so churn cannot flap the phase into [`TopologyPhase::Stable`].
pub proof fn moving_depth_is_not_stable(
    tracker: PhaseTracker,
    depth: NeighborhoodDepth,
    saturated: bool,
    now: Instant,
)
    requires
        depth != tracker.last_depth,
        tracker.stability_window.nanos > 0,
    ensures
        tracker.observed_phase(depth, saturated, now) != TopologyPhase::Stable,
{
}

/// The node is in bootstrap exactly while the published depth is zero.
pub proof fn bootstrap_is_depth_zero(
    tracker: PhaseTracker,
    depth: NeighborhoodDepth,
    saturated: bool,
    now: Instant,
)
    ensures
        tracker.observed_phase(depth, saturated, now) == TopologyPhase::Bootstrap <==> depth.raw
            == 0,
{
}

/// What an observation makes of the phase: at depth zero the node bootstraps;
/// above it the node converges until its neighborhood is saturated and the depth
/// has held for the stability window, counted from the observation that last saw
/// it move; from there on it is stable.
pub proof fn phase_follows_the_observation(
    tracker: PhaseTracker,
    depth: NeighborhoodDepth,
    saturated: bool,
    now: Instant,
)
    ensures
        ({
            let after = tracker.evaluated(depth, saturated, now);
            &&& depth.raw == 0 ==> after.phase == TopologyPhase::Bootstrap
            &&& depth.raw > 0 && !saturated ==> after.phase == TopologyPhase::Converging
            &&& depth.raw > 0 && depth.raw != tracker.last_depth.raw
                && tracker.stability_window.nanos > 0 ==> after.phase == TopologyPhase::Converging
            &&& depth.raw > 0 && saturated && depth.raw == tracker.last_depth.raw && now.nanos
                >= tracker.last_depth_change.nanos + tracker.stability_window.nanos ==> after.phase
                == TopologyPhase::Stable
            &&& depth.raw > 0 && depth.raw == tracker.last_depth.raw
                && tracker.stability_window.nanos > 0 && now.nanos
                < tracker.last_depth_change.nanos + tracker.stability_window.nanos ==> after.phase
                == TopologyPhase::Converging
            &&& depth.raw > 0 && saturated && tracker.stability_window.nanos == 0 ==> after.phase
                == TopologyPhase::Stable
            &&& after.last_depth.raw == depth.raw
            &&& depth.raw == tracker.last_depth.raw ==> after.last_depth_change
                == tracker.last_depth_change
            &&& depth.raw != tracker.last_depth.raw ==> after.last_depth_change == now
            &&& after.phase == tracker.phase ==> after.entered_at == tracker.entered_at
            &&& after.phase != tracker.phase ==> after.entered_at == now
            &&& after.stability_window == tracker.stability_window
        }),
{
}

/// A transition is committed exactly when the phase moved; it names the phases
/// before and after, the depth observed, and the time since the former was
/// entered.
pub proof fn transitions_tell_the_move(
    tracker: PhaseTracker,
    depth: NeighborhoodDepth,
    saturated: bool,
    now: Instant,
)
    ensures
        ({
            let after = tracker.evaluated(depth, saturated, now);
            match tracker.spec_transition(depth, saturated, now) {
                None => after.phase == tracker.phase,
                Some(transition) => {
                    &&& after.phase != tracker.phase
                    &&& transition.from == tracker.phase
                    &&& transition.to == after.phase
                    &&& transition.depth == depth
                    &&& tracker.entered_at.nanos <= now.nanos ==> tracker.entered_at.nanos
                        + transition.time_in_phase.nanos == now.nanos
                },
            }
        }),
{
}

/// The labels of the phases.
pub proof fn phases_are_labelled()
    ensures
        TopologyPhase::Bootstrap.spec_label() == "bootstrap"@,
        TopologyPhase::Converging.spec_label() == "converging"@,
        TopologyPhase::Stable.spec_label() == "stable"@,
{
}

} // verus!
