//! Metrics.

pub mod error;
pub mod recorder;
pub mod registry;
pub mod server;
