//! Watermark-based peer routing: known and connected peers by bin, with a
//! fixed number of connections per bin.

pub mod args;
pub mod config;
pub mod kademlia;
pub mod pslice;

