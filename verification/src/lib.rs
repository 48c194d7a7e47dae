//! Swarm overlay topology: Kademlia routing, connection capacity, peer
//! reachability, network specifications and the task and clock helpers around
//! them. Every function states what it does as a proved contract, but for
//! those whose result is up to the operating system's entropy source:
//! `crypto_rng`, `try_crypto_rng` and `non_crypto_rng` of [`runtime::entropy`]
//! promise nothing of the generator they return.

pub mod arith;
pub mod error;
pub mod events;
pub mod kademlia;
pub mod metrics;
pub mod nat_discovery;
pub mod primitives;
pub mod profile;
pub mod protocol;
pub mod protocol_handlers;
pub mod reachability;
pub mod readiness;
pub mod routing;
pub mod runtime;
pub mod service;
pub mod swarmspec;
pub mod tasks;
pub mod time;
