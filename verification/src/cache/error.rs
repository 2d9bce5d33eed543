//! What can go wrong in the cache.

use vstd::prelude::*;

use crate::text::join;

verus! {

#[derive(Debug)]
pub enum CacheError {
    Redis(String),
    Serialise(String),
    Config(String),
}

impl CacheError {
    /// The message of the error.
    pub open spec fn text(self) -> Seq<char> {
        match self {
            CacheError::Redis(what) => "redis error: "@ + what@,
            CacheError::Serialise(what) => "serialisation error: "@ + what@,
            CacheError::Config(what) => "config error: "@ + what@,
        }
    }

    pub fn message(&self) -> (r: String)
        ensures
            r@ == self.text(),
    {
        match self {
            CacheError::Redis(what) => join("redis error: ", what.as_str()),
            CacheError::Serialise(what) => join("serialisation error: ", what.as_str()),
            CacheError::Config(what) => join("config error: ", what.as_str()),
        }
    }
}

} // verus!
