//! The request-handling logic of an API gateway.

pub mod auth;
pub mod cache;
pub mod clock;
pub mod config;
pub mod gateway;
pub mod http_types;
pub mod json;
pub mod metrics;
pub mod names;
pub mod order;
pub mod pattern;
pub mod ratelimit;
pub mod router;
pub mod text;
