//! Rate limiting: a bucket inside this process, then a limit that all gateways share.

pub mod bucket;
pub mod error;
pub mod key;
pub mod l1_local;
pub mod l2_shared;
pub mod limiter;
