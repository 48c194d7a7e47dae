//! Wall-clock time and randomness of the platform.

pub mod entropy;
pub mod time;
