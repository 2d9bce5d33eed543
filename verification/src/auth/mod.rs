//! Authentication: bearer tokens, API keys and client certificates.

pub mod api_key;
pub mod context;
pub mod error;
pub mod jwt;
pub mod mtls;
pub mod pipeline;
