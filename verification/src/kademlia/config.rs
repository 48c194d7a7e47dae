//! Kademlia routing configuration.
//!
//! [`KademliaConfig`] bundles the depth-aware per-bin targets with the
//! per-round candidate budget. Each connection-evaluation round selects at most
//! `max_neighbor_candidates + max_balanced_candidates` new peers to dial, split
//! between the neighborhood bins and the balanced bins below them. The
//! depth-aware targets, not this budget, decide how many candidates become
//! connections.

use super::limits::DepthAwareLimits;
use crate::time::Duration;
use vstd::prelude::*;

verus! {

/// Max new neighborhood candidates enqueued per evaluation round.
pub const DEFAULT_MAX_NEIGHBOR_CANDIDATES: usize = 16;

/// Max new balanced candidates enqueued per evaluation round.
pub const DEFAULT_MAX_BALANCED_CANDIDATES: usize = 16;

/// Default stability window of the topology phase machine, in seconds.
pub const DEFAULT_PHASE_STABILITY_SECS: u64 = 60;

/// Default window, in seconds, that the neighborhood must stay saturated at an
/// unchanged depth before it counts as ready.
pub const DEFAULT_NEIGHBORHOOD_STABILITY_SECS: u64 = 30;

/// Default window, in seconds, before a marginal depth lowering is published.
pub const DEFAULT_DEPTH_LOWER_SECS: u64 = 30;

/// Configuration for Kademlia routing.
#[derive(Clone, Copy, Debug, PartialEq, Eq, Structural)]
pub struct KademliaConfig {
    /// Depth-aware per-bin capacity limits.
    pub limits: DepthAwareLimits,
    /// Maximum concurrent pending candidates for neighborhood bins.
    pub max_neighbor_candidates: usize,
    /// Maximum concurrent pending candidates for balanced bins.
    pub max_balanced_candidates: usize,
    /// How long the neighborhood must stay saturated at an unchanged depth
    /// before it is considered stable.
    pub neighborhood_stability_window: Duration,
    /// How long a depth lowering by a single-peer deficit is held back.
    pub depth_lower_window: Duration,
    /// How long the depth must hold still, with a saturated neighborhood,
    /// before the topology phase is stable.
    pub phase_stability_window: Duration,
}

impl Default for KademliaConfig {
    fn default() -> (config: KademliaConfig)
        ensures
            config == KademliaConfig::spec_default(),
    {
        KademliaConfig {
            limits: DepthAwareLimits::default(),
            max_neighbor_candidates: DEFAULT_MAX_NEIGHBOR_CANDIDATES,
            max_balanced_candidates: DEFAULT_MAX_BALANCED_CANDIDATES,
            neighborhood_stability_window: Duration::from_secs(DEFAULT_NEIGHBORHOOD_STABILITY_SECS),
            depth_lower_window: Duration::from_secs(DEFAULT_DEPTH_LOWER_SECS),
            phase_stability_window: Duration::from_secs(DEFAULT_PHASE_STABILITY_SECS),
        }
    }
}

impl KademliaConfig {
    /// The configuration of a node on the reference network.
    pub open spec fn spec_default() -> KademliaConfig {
        KademliaConfig {
            limits: DepthAwareLimits::spec_default(),
            max_neighbor_candidates: DEFAULT_MAX_NEIGHBOR_CANDIDATES,
            max_balanced_candidates: DEFAULT_MAX_BALANCED_CANDIDATES,
            neighborhood_stability_window: Duration { nanos: 30_000_000_000 },
            depth_lower_window: Duration { nanos: 30_000_000_000 },
            phase_stability_window: Duration { nanos: 60_000_000_000 },
        }
    }

    /// Create with custom depth-aware limits.
    pub fn with_limits(limits: DepthAwareLimits) -> (config: KademliaConfig)
        ensures
            config == (KademliaConfig { limits, ..KademliaConfig::spec_default() }),
    {
        let mut config: KademliaConfig = KademliaConfig::default();
        config.limits = limits;
        config
    }

    /// Replace the total target, preserving all other limits.
    pub fn with_total_target(self, total: usize) -> (config: KademliaConfig)
        ensures
            config == (KademliaConfig {
                limits: DepthAwareLimits { total_target: total, ..self.limits },
                ..self
            }),
    {
        KademliaConfig { limits: self.limits.with_total_target(total), ..self }
    }

    /// Replace the nominal minimum per bin, preserving all other limits.
    pub fn with_nominal(self, nominal: usize) -> (config: KademliaConfig)
        ensures
            config == (KademliaConfig {
                limits: DepthAwareLimits { nominal, ..self.limits },
                ..self
            }),
    {
        KademliaConfig { limits: self.limits.with_nominal(nominal), ..self }
    }

    /// Replace the inbound headroom, preserving all other limits.
    pub fn with_inbound_headroom(self, headroom: usize) -> (config: KademliaConfig)
        ensures
            config == (KademliaConfig {
                limits: DepthAwareLimits { inbound_headroom: headroom, ..self.limits },
                ..self
            }),
    {
        KademliaConfig { limits: self.limits.with_inbound_headroom(headroom), ..self }
    }

    /// Replace the per-bin fill target used at depth zero.
    pub fn with_bootstrap_target(self, target: usize) -> (config: KademliaConfig)
        ensures
            config == (KademliaConfig {
                limits: DepthAwareLimits { bootstrap_target: target, ..self.limits },
                ..self
            }),
    {
        KademliaConfig { limits: self.limits.with_bootstrap_target(target), ..self }
    }

    /// Replace the per-bin oversaturation level.
    pub fn with_oversaturation_peers(self, oversaturation: usize) -> (config: KademliaConfig)
        ensures
            config == (KademliaConfig {
                limits: DepthAwareLimits { oversaturation, ..self.limits },
                ..self
            }),
    {
        KademliaConfig { limits: self.limits.with_oversaturation_peers(oversaturation), ..self }
    }

    /// Replace the saturation threshold.
    pub fn with_saturation(self, saturation: usize) -> (config: KademliaConfig)
        ensures
            config == (KademliaConfig {
                limits: DepthAwareLimits { saturation, ..self.limits },
                ..self
            }),
    {
        KademliaConfig { limits: self.limits.with_saturation(saturation), ..self }
    }

    /// Set the neighborhood stability window: how long the neighborhood must
    /// stay saturated without the depth moving before it is ready. Any depth
    /// change or saturation dip restarts the clock.
    pub fn with_neighborhood_stability_window(self, window: Duration) -> (config: KademliaConfig)
        ensures
            config == (KademliaConfig { neighborhood_stability_window: window, ..self }),
    {
        KademliaConfig { neighborhood_stability_window: window, ..self }
    }

    /// Set the window for publishing a marginal depth lowering.
    ///
    /// Raising depth is always applied immediately. Lowering is applied
    /// immediately only when the saturation deficit below the published depth
    /// exceeds one peer; a single-peer deficit is held for this window.
    pub fn with_depth_lower_window(self, window: Duration) -> (config: KademliaConfig)
        ensures
            config == (KademliaConfig { depth_lower_window: window, ..self }),
    {
        KademliaConfig { depth_lower_window: window, ..self }
    }

    /// Set the phase-machine stability window.
    pub fn with_phase_stability_window(self, window: Duration) -> (config: KademliaConfig)
        ensures
            config == (KademliaConfig { phase_stability_window: window, ..self }),
    {
        KademliaConfig { phase_stability_window: window, ..self }
    }
}

/// What a node that configures nothing works with.
pub proof fn defaults_of_the_table()
    ensures
        ({
            let config = KademliaConfig::spec_default();
            &&& config.max_neighbor_candidates == 16
            &&& config.max_balanced_candidates == 16
            &&& config.neighborhood_stability_window.nanos == 30 * crate::time::NANOS_PER_SEC
            &&& config.depth_lower_window.nanos == 30 * crate::time::NANOS_PER_SEC
            &&& config.phase_stability_window.nanos == 60 * crate::time::NANOS_PER_SEC
            &&& config.limits.total_target == 160
            &&& config.limits.nominal == 3
            &&& config.limits.inbound_headroom == 4
            &&& config.limits.bootstrap_target == 18
            &&& config.limits.saturation == 8
            &&& config.limits.oversaturation == 18
        }),
{
}

} // verus!
