//! The configuration of the gateway.

pub mod defaults;
pub mod error;
pub mod schema;
pub mod validation;
pub mod watcher;

pub use self::error::ConfigError;
pub use self::watcher::ConfigWatcher;
