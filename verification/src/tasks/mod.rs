//! Task lifecycle: spawning, panics, graceful shutdown and timers.

pub mod executor;
pub mod interval;
pub mod shutdown;
pub mod timer;
pub mod wall;
