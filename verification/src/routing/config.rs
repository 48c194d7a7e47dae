//! Configuration of the watermark-based routing table.

use vstd::prelude::*;

verus! {

pub const DEFAULT_SATURATION_PEERS: usize = 8;

pub const DEFAULT_HIGH_WATERMARK: usize = 16;

pub const DEFAULT_CLIENT_RESERVED_SLOTS: usize = 2;

pub const DEFAULT_LOW_WATERMARK: usize = 3;

pub const DEFAULT_MAX_CONNECT_ATTEMPTS: usize = 4;

pub const DEFAULT_MAX_NEIGHBOR_ATTEMPTS: usize = 6;

pub const DEFAULT_MAX_NEIGHBOR_CANDIDATES: usize = 16;

pub const DEFAULT_MAX_BALANCED_CANDIDATES: usize = 16;

/// Configuration for Kademlia routing.
#[derive(Clone, Copy, Debug, PartialEq, Eq, Structural)]
pub struct KademliaConfig {
    /// Target number of peers per bin before considering it saturated.
    pub saturation_peers: usize,
    /// Maximum full nodes per bin.
    pub high_watermark: usize,
    /// Slots reserved for client nodes per bin.
    pub client_reserved_slots: usize,
    /// Minimum peers required in a bin for the depth calculation.
    pub low_watermark: usize,
    /// Maximum failed connection attempts before removing a peer.
    pub max_connect_attempts: usize,
    /// Maximum failed connection attempts for neighbor peers.
    pub max_neighbor_attempts: usize,
    /// Maximum pending connection candidates for neighbor bins.
    pub max_neighbor_candidates: usize,
    /// Maximum pending connection candidates for balanced bins.
    pub max_balanced_candidates: usize,
}

impl Default for KademliaConfig {
    fn default() -> (config: KademliaConfig)
        ensures
            config == KademliaConfig::spec_default(),
    {
        KademliaConfig {
            saturation_peers: DEFAULT_SATURATION_PEERS,
            high_watermark: DEFAULT_HIGH_WATERMARK,
            client_reserved_slots: DEFAULT_CLIENT_RESERVED_SLOTS,
            low_watermark: DEFAULT_LOW_WATERMARK,
            max_connect_attempts: DEFAULT_MAX_CONNECT_ATTEMPTS,
            max_neighbor_attempts: DEFAULT_MAX_NEIGHBOR_ATTEMPTS,
            max_neighbor_candidates: DEFAULT_MAX_NEIGHBOR_CANDIDATES,
            max_balanced_candidates: DEFAULT_MAX_BALANCED_CANDIDATES,
        }
    }
}

impl KademliaConfig {
    /// The default configuration.
    pub open spec fn spec_default() -> KademliaConfig {
        KademliaConfig {
            saturation_peers: DEFAULT_SATURATION_PEERS,
            high_watermark: DEFAULT_HIGH_WATERMARK,
            client_reserved_slots: DEFAULT_CLIENT_RESERVED_SLOTS,
            low_watermark: DEFAULT_LOW_WATERMARK,
            max_connect_attempts: DEFAULT_MAX_CONNECT_ATTEMPTS,
            max_neighbor_attempts: DEFAULT_MAX_NEIGHBOR_ATTEMPTS,
            max_neighbor_candidates: DEFAULT_MAX_NEIGHBOR_CANDIDATES,
            max_balanced_candidates: DEFAULT_MAX_BALANCED_CANDIDATES,
        }
    }

    /// Connections that a bin takes from a node of the given kind: a client
    /// may also use the reserved slots.
    pub open spec fn threshold(self, is_full_node: bool) -> usize {
        if is_full_node {
            self.high_watermark
        } else {
            crate::arith::saturate(self.high_watermark + self.client_reserved_slots)
        }
    }

    /// Total maximum peers per bin (high watermark and reserved slots).
    pub fn max_peers_per_bin(&self) -> (n: usize)
        ensures
            n == self.threshold(false),
    {
        self.high_watermark.saturating_add(self.client_reserved_slots)
    }

    /// Replace the saturation threshold.
    pub fn with_saturation_peers(self, count: usize) -> (config: KademliaConfig)
        ensures
            config == (KademliaConfig { saturation_peers: count, ..self }),
    {
        KademliaConfig { saturation_peers: count, ..self }
    }

    /// Replace the high watermark.
    pub fn with_high_watermark(self, count: usize) -> (config: KademliaConfig)
        ensures
            config == (KademliaConfig { high_watermark: count, ..self }),
    {
        KademliaConfig { high_watermark: count, ..self }
    }

    /// Replace the low watermark.
    pub fn with_low_watermark(self, count: usize) -> (config: KademliaConfig)
        ensures
            config == (KademliaConfig { low_watermark: count, ..self }),
    {
        KademliaConfig { low_watermark: count, ..self }
    }
}

/// A full node may fill a bin up to the high watermark, a client the reserved
/// slots beyond it too.
pub proof fn clients_may_use_the_reserved_slots(config: KademliaConfig)
    ensures
        config.threshold(true) == config.high_watermark,
        config.high_watermark + config.client_reserved_slots <= usize::MAX ==> config.threshold(
            false,
        ) == config.high_watermark + config.client_reserved_slots,
        config.threshold(false) >= config.threshold(true),
{
}

/// What a table that is configured with nothing works with.
pub proof fn defaults_of_the_watermarks()
    ensures
        ({
            let config = KademliaConfig::spec_default();
            &&& config.saturation_peers == 8
            &&& config.high_watermark == 16
            &&& config.client_reserved_slots == 2
            &&& config.low_watermark == 3
            &&& config.max_connect_attempts == 4
            &&& config.max_neighbor_attempts == 6
            &&& config.max_neighbor_candidates == 16
            &&& config.max_balanced_candidates == 16
        }),
{
}

} // verus!
