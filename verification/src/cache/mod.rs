//! The response cache.

pub mod control;
pub mod entry;
pub mod error;
pub mod key;
pub mod l1_local;
pub mod layer;
