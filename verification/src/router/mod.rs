//! Matching requests to routes.

pub mod choice;
pub mod error;
pub mod matched;
pub mod path;
pub mod predicate;
pub mod table;
pub mod trie;

pub use self::error::RouterError;
pub use self::matched::MatchedRoute;
pub use self::table::{Router, RouterHandle};
