//! Forwarding requests: endpoints, upstreams, admission and the request pipeline.

pub mod balance;
pub mod concurrency;
pub mod endpoint;
pub mod error;
pub mod pipeline;
pub mod response;
pub mod retry;
pub mod shutdown;
pub mod upstream;
