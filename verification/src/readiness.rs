//! Readiness of a node, assembled from its routing table and peer book.

use crate::kademlia::phase::TopologyPhase;
use crate::primitives::{Bin, NeighborhoodDepth, SwarmNodeType};
use crate::time::Duration;
use vstd::prelude::*;

verus! {

/// Connection shortfall of one bin relative to its depth-aware target.
#[derive(Clone, Copy, Debug, PartialEq, Eq, Structural)]
pub struct BinReadiness {
    pub bin: Bin,
    /// Connected peers in the bin.
    pub connected: usize,
    /// The bin's target, or `None` for a neighborhood bin, which connects to
    /// every available peer.
    pub target: Option<usize>,
    /// Peers still missing before the bin reaches its target.
    pub deficit: usize,
}

/// A snapshot of the node's readiness.
#[derive(Debug)]
pub struct ReadinessSnapshot {
    /// The local node's type.
    pub local_node_type: SwarmNodeType,
    /// Connected peers in the routing table.
    pub connected_peers: usize,
    /// Connected peers that store chunks.
    pub connected_storers: usize,
    /// Current neighborhood depth.
    pub depth: NeighborhoodDepth,
    /// Connected peers in bins at or beyond the depth.
    pub neighborhood_connected: usize,
    /// What the neighborhood must reach to be saturated.
    pub saturation_threshold: usize,
    /// Readiness of every bin, shallowest first.
    pub bins: Vec<BinReadiness>,
    /// Bins with a finite target that they meet.
    pub bins_at_target: usize,
    /// How long the neighborhood has been saturated at an unchanged depth.
    pub neighborhood_stable_for: Option<Duration>,
    /// How long it must have been to be ready.
    pub neighborhood_stability_window: Duration,
    /// Current topology phase.
    pub phase: TopologyPhase,
    /// Time spent in it.
    pub time_in_phase: Duration,
}

impl ReadinessSnapshot {
    /// There is a connected storer to ask.
    pub open spec fn routable(self) -> bool {
        self.connected_storers > 0
    }

    /// There is a depth boundary and enough peers are connected inside it.
    pub open spec fn saturated(self) -> bool {
        self.depth.raw > 0 && self.neighborhood_connected >= self.saturation_threshold
    }

    /// Whether a chunk push or retrieval has a peer to ask: at least one
    /// connected storer.
    pub fn is_routable(&self) -> (yes: bool)
        ensures
            yes == self.routable(),
    {
        self.connected_storers > 0
    }

    /// Whether the depth has reached `min_depth`.
    pub fn depth_reached(&self, min_depth: NeighborhoodDepth) -> (yes: bool)
        ensures
            yes == (self.depth.raw >= min_depth.raw),
    {
        self.depth.raw >= min_depth.raw
    }

    /// Whether the neighborhood is saturated: a depth boundary is established
    /// and the bins at or beyond it together hold the saturation threshold.
    pub fn is_saturated(&self) -> (yes: bool)
        ensures
            yes == self.saturated(),
    {
        self.depth.raw > 0 && self.neighborhood_connected >= self.saturation_threshold
    }

    /// Whether the neighborhood is ready for pull-syncing: saturated at an
    /// unchanged depth for the whole stability window.
    pub fn is_neighborhood_ready(&self) -> (yes: bool)
        ensures
            yes == (self.neighborhood_stable_for matches Some(stable) && stable.nanos
                >= self.neighborhood_stability_window.nanos),
    {
        match self.neighborhood_stable_for {
            Some(stable) => stable.nanos >= self.neighborhood_stability_window.nanos,
            None => false,
        }
    }

    /// The composite warm signal: a storer is warm once it is routable and its
    /// neighborhood saturated, every other node as soon as it is routable.
    pub fn is_warm(&self) -> (yes: bool)
        ensures
            yes == (self.routable() && (self.local_node_type == SwarmNodeType::Storer
                ==> self.saturated())),
    {
        if self.local_node_type.requires_storage() {
            self.is_routable() && self.is_saturated()
        } else {
            self.is_routable()
        }
    }
}

/// A snapshot is routable with any connected storer, and saturated where there
/// is a depth and no fewer peers within it than the threshold.
pub proof fn readiness_follows_the_counts(snapshot: ReadinessSnapshot)
    ensures
        snapshot.routable() <==> snapshot.connected_storers >= 1,
        snapshot.saturated() ==> snapshot.depth.raw >= 1,
        snapshot.saturated() ==> snapshot.neighborhood_connected >= snapshot.saturation_threshold,
        snapshot.depth.raw >= 1 && snapshot.neighborhood_connected
            >= snapshot.saturation_threshold ==> snapshot.saturated(),
{
}

} // verus!
