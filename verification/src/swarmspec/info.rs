//! Current state of the Swarm network.

use vstd::prelude::*;

verus! {

/// Current status of the Swarm network.
#[derive(Clone, Copy, Debug, PartialEq, Eq)]
pub struct SwarmInfo {
    /// The hash of the highest fully synced block.
    pub best_hash: [u8; 32],
    /// The number of the highest fully synced block.
    pub best_number: u64,
    /// The estimated network size.
    pub network_size: u64,
    /// The global postage price per chunk.
    pub global_postage_price: u64,
    /// The neighborhood radius.
    pub neighborhood_radius: u8,
    /// How many peers are connected.
    pub connected_peers: u16,
}

impl Default for SwarmInfo {
    fn default() -> (info: SwarmInfo)
        ensures
            info.best_hash@ == Seq::new(32, |i: int| 0u8),
            info.best_number == 0,
            info.network_size == 0,
            info.global_postage_price == 0,
            info.neighborhood_radius == 0,
            info.connected_peers == 0,
    {
        let info = SwarmInfo {
            best_hash: [0u8; 32],
            best_number: 0,
            network_size: 0,
            global_postage_price: 0,
            neighborhood_radius: 0,
            connected_peers: 0,
        };
        proof {
            assert(info.best_hash@ =~= Seq::new(32, |i: int| 0u8));
        }
        info
    }
}

} // verus!
