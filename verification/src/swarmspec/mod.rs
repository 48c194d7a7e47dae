//! The specification of a Swarm network: its chain, token, contracts,
//! hardforks and incentives.

pub mod chain;
pub mod constants;
pub mod contracts;
pub mod hardforks;
pub mod info;
pub mod lightclient;
pub mod spec;
