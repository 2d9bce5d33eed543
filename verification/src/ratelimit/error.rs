//! What can go wrong in rate limiting.

use vstd::prelude::*;

use crate::text::join;

verus! {

#[derive(Debug)]
pub enum RateLimitError {
    Exceeded,
    Redis(String),
    Script(String),
    UnknownPolicy(String),
    Config(String),
}

impl RateLimitError {
    /// The message of the error.
    pub open spec fn text(self) -> Seq<char> {
        match self {
            RateLimitError::Exceeded => "rate limit exceeded"@,
            RateLimitError::Redis(what) => "redis error: "@ + what@,
            RateLimitError::Script(what) => "lua script error: "@ + what@,
            RateLimitError::UnknownPolicy(name) => "unknown rate-limit policy: "@ + name@,
            RateLimitError::Config(what) => "config error: "@ + what@,
        }
    }

    pub fn message(&self) -> (r: String)
        ensures
            r@ == self.text(),
    {
        match self {
            RateLimitError::Exceeded => "rate limit exceeded".to_owned(),
            RateLimitError::Redis(what) => join("redis error: ", what.as_str()),
            RateLimitError::Script(what) => join("lua script error: ", what.as_str()),
            RateLimitError::UnknownPolicy(name) => join(
                "unknown rate-limit policy: ",
                name.as_str(),
            ),
            RateLimitError::Config(what) => join("config error: ", what.as_str()),
        }
    }
}

} // verus!
