//! Command-line arguments for the Kademlia routing configuration.

use super::config::KademliaConfig;
use super::limits::DepthAwareLimits;
use vstd::prelude::*;

verus! {

/// Kademlia routing arguments; each one left out keeps its default.
///
/// Pacing knobs (candidate budgets, evaluation cadence, dial rate) are not
/// here: they are bundled per connection profile.
#[derive(Clone, Copy, Debug, PartialEq, Eq, Structural)]
pub struct RoutingArgs {
    /// Total target connected peers across all bins.
    pub total_target: Option<usize>,
    /// Minimum peers per bin for depth estimation.
    pub nominal: Option<usize>,
    /// Extra headroom for accepting inbound connections above target.
    pub inbound_headroom: Option<usize>,
}

impl Default for RoutingArgs {
    fn default() -> (args: RoutingArgs)
        ensures
            args == (RoutingArgs { total_target: None, nominal: None, inbound_headroom: None }),
    {
        RoutingArgs { total_target: None, nominal: None, inbound_headroom: None }
    }
}

/// An argument's value, or the default where it was left out.
pub open spec fn given_or(argument: Option<usize>, default: usize) -> usize {
    match argument {
        Some(value) => value,
        None => default,
    }
}

impl RoutingArgs {
    /// Build the Kademlia routing configuration.
    pub fn routing_config(&self) -> (config: KademliaConfig)
        ensures
            config == (KademliaConfig {
                limits: DepthAwareLimits {
                    total_target: given_or(
                        self.total_target,
                        KademliaConfig::spec_default().limits.total_target,
                    ),
                    nominal: given_or(self.nominal, KademliaConfig::spec_default().limits.nominal),
                    inbound_headroom: given_or(
                        self.inbound_headroom,
                        KademliaConfig::spec_default().limits.inbound_headroom,
                    ),
                    ..KademliaConfig::spec_default().limits
                },
                ..KademliaConfig::spec_default()
            }),
    {
        let defaults: KademliaConfig = KademliaConfig::default();
        let total_target: usize = self.total_target.unwrap_or(defaults.limits.total_target());
        let nominal: usize = self.nominal.unwrap_or(defaults.limits.nominal());
        let mut limits: DepthAwareLimits = defaults.limits.with_total_target(
            total_target,
        ).with_nominal(nominal);
        if let Some(headroom) = self.inbound_headroom {
            limits = limits.with_inbound_headroom(headroom);
        }
        KademliaConfig { limits, ..defaults }
    }
}

/// An argument that was given is taken, and only one that was not is replaced
/// by the default.
pub proof fn given_arguments_are_taken(value: usize, default: usize)
    ensures
        given_or(Some(value), default) == value,
        given_or(None, default) == default,
{
}

} // verus!
