//! Kademlia-based peer routing for the Swarm overlay network.

pub mod admission;
pub mod args;
pub mod candidate_queues;
pub mod candidates;
pub mod capacity;
pub mod config;
pub mod evaluator;
pub mod eviction;
pub mod limits;
pub mod nearest;
pub mod peer_selection;
pub mod peers;
pub mod phase;
pub mod proximity_index;
pub mod routing;
pub mod saturation;
pub mod slots;
pub mod trim;
