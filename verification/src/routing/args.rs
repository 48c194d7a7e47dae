//! Command-line arguments of the watermark-based routing table.

use super::config::KademliaConfig;
use vstd::prelude::*;

verus! {

/// Routing arguments; each one left out keeps its default.
#[derive(Clone, Copy, Debug, PartialEq, Eq, Structural)]
pub struct RoutingArgs {
    /// Target peers per bin before saturation.
    pub saturation_peers: Option<usize>,
    /// Maximum full nodes per bin.
    pub high_watermark: Option<usize>,
    /// Slots reserved for light nodes per bin.
    pub client_reserved_slots: Option<usize>,
    /// Minimum peers per bin for the depth calculation.
    pub low_watermark: Option<usize>,
    /// Max connection attempts before peer removal.
    pub max_connect_attempts: Option<usize>,
    /// Max connection attempts for neighbor peers.
    pub max_neighbor_attempts: Option<usize>,
    /// Max pending connections for neighbor bins.
    pub max_neighbor_candidates: Option<usize>,
    /// Max pending connections for balanced bins.
    pub max_balanced_candidates: Option<usize>,
}

impl Default for RoutingArgs {
    fn default() -> (args: RoutingArgs)
        ensures
            args == (RoutingArgs {
                saturation_peers: None,
                high_watermark: None,
                client_reserved_slots: None,
                low_watermark: None,
                max_connect_attempts: None,
                max_neighbor_attempts: None,
                max_neighbor_candidates: None,
                max_balanced_candidates: None,
            }),
    {
        RoutingArgs {
            saturation_peers: None,
            high_watermark: None,
            client_reserved_slots: None,
            low_watermark: None,
            max_connect_attempts: None,
            max_neighbor_attempts: None,
            max_neighbor_candidates: None,
            max_balanced_candidates: None,
        }
    }
}

impl RoutingArgs {
    /// Build the routing configuration.
    pub fn routing_config(&self) -> (config: KademliaConfig)
        ensures
            ({
                let defaults = KademliaConfig::spec_default();
                config == KademliaConfig {
                    saturation_peers: crate::kademlia::args::given_or(self.saturation_peers, defaults.saturation_peers),
                    high_watermark: crate::kademlia::args::given_or(self.high_watermark, defaults.high_watermark),
                    client_reserved_slots: crate::kademlia::args::given_or(
                        self.client_reserved_slots,
                        defaults.client_reserved_slots,
                    ),
                    low_watermark: crate::kademlia::args::given_or(self.low_watermark, defaults.low_watermark),
                    max_connect_attempts: crate::kademlia::args::given_or(
                        self.max_connect_attempts,
                        defaults.max_connect_attempts,
                    ),
                    max_neighbor_attempts: crate::kademlia::args::given_or(
                        self.max_neighbor_attempts,
                        defaults.max_neighbor_attempts,
                    ),
                    max_neighbor_candidates: crate::kademlia::args::given_or(
                        self.max_neighbor_candidates,
                        defaults.max_neighbor_candidates,
                    ),
                    max_balanced_candidates: crate::kademlia::args::given_or(
                        self.max_balanced_candidates,
                        defaults.max_balanced_candidates,
                    ),
                }
            }),
    {
        let defaults: KademliaConfig = KademliaConfig::default();
        KademliaConfig {
            saturation_peers: self.saturation_peers.unwrap_or(defaults.saturation_peers),
            high_watermark: self.high_watermark.unwrap_or(defaults.high_watermark),
            client_reserved_slots: self.client_reserved_slots.unwrap_or(
                defaults.client_reserved_slots,
            ),
            low_watermark: self.low_watermark.unwrap_or(defaults.low_watermark),
            max_connect_attempts: self.max_connect_attempts.unwrap_or(
                defaults.max_connect_attempts,
            ),
            max_neighbor_attempts: self.max_neighbor_attempts.unwrap_or(
                defaults.max_neighbor_attempts,
            ),
            max_neighbor_candidates: self.max_neighbor_candidates.unwrap_or(
                defaults.max_neighbor_candidates,
            ),
            max_balanced_candidates: self.max_balanced_candidates.unwrap_or(
                defaults.max_balanced_candidates,
            ),
        }
    }
}

} // verus!
