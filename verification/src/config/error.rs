//! What can be wrong with a configuration.

use vstd::prelude::*;

use crate::text::join;

verus! {

#[derive(Debug)]
pub enum ConfigError {
    /// The file could not be read.
    Io(String),
    /// The file is not of the right shape.
    Parse(String),
    /// The configuration contradicts itself.
    Validation(String),
}

impl ConfigError {
    /// The message of the error.
    pub open spec fn text(self) -> Seq<char> {
        match self {
            ConfigError::Io(what) => "io error: "@ + what@,
            ConfigError::Parse(what) => "yaml parse error: "@ + what@,
            ConfigError::Validation(what) => "validation error: "@ + what@,
        }
    }

    pub fn message(&self) -> (r: String)
        ensures
            r@ == self.text(),
    {
        match self {
            ConfigError::Io(what) => join("io error: ", what.as_str()),
            ConfigError::Parse(what) => join("yaml parse error: ", what.as_str()),
            ConfigError::Validation(what) => join("validation error: ", what.as_str()),
        }
    }
}

} // verus!
