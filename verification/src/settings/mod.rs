//! Display settings: colours, modes and the selectors that key a
//! configuration.

pub mod config;
pub mod esp;
