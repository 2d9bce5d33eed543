//! What can go wrong in routing.

use vstd::prelude::*;

use crate::pattern::{error_text, regex_error_message};
use crate::text::{join, join3};

verus! {

#[derive(Debug)]
pub enum RouterError {
    /// No route applies to the path.
    NoMatch(String),
    /// The pattern of a route is no regular expression.
    InvalidRegex { pattern: String, source: regex::Error },
    /// Something else is wrong with a route.
    Config(String),
}

impl RouterError {
    /// The message of the error.
    pub open spec fn text(self) -> Seq<char> {
        match self {
            RouterError::NoMatch(path) => "no route matched: "@ + path@,
            RouterError::InvalidRegex { pattern, source } => "invalid regex pattern `"@ + pattern@
                + "`: "@ + regex_error_message(source),
            RouterError::Config(what) => "route config error: "@ + what@,
        }
    }

    pub fn message(&self) -> (r: String)
        ensures
            r@ == self.text(),
    {
        match self {
            RouterError::NoMatch(path) => join("no route matched: ", path.as_str()),
            RouterError::InvalidRegex { pattern, source } => {
                let head = join3("invalid regex pattern `", pattern.as_str(), "`: ");
                let tail = error_text(source);
                join(head.as_str(), tail.as_str())
            },
            RouterError::Config(what) => join("route config error: ", what.as_str()),
        }
    }
}

} // verus!
