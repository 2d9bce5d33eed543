//! What can go wrong in the gateway.

use vstd::prelude::*;

use crate::config::error::ConfigError;
use crate::text::{decimal, decimal_text, join, join3};

verus! {

#[derive(Debug)]
pub enum CoreError {
    Io(String),
    Tls(String),
    /// The request to an endpoint failed.
    Upstream { upstream: String, message: String },
    /// An endpoint did not answer in time.
    UpstreamTimeout { secs: u64 },
    /// No endpoint of the upstream takes traffic.
    NoHealthyEndpoints(String),
    /// The listener could not be bound.
    Bind { addr: String, source: String },
    Hyper(String),
    Http(String),
    Metrics(String),
    Config(ConfigError),
    /// Requests were still in flight when the time to drain was over.
    DrainTimeout,
}

impl CoreError {
    /// The message of the error.
    pub open spec fn text(self) -> Seq<char> {
        match self {
            CoreError::Io(what) => "io error: "@ + what@,
            CoreError::Tls(what) => "tls error: "@ + what@,
            CoreError::Upstream { upstream, message } => "upstream error at "@ + upstream@ + ": "@
                + message@,
            CoreError::UpstreamTimeout { secs } => "upstream timed out after "@ + decimal_text(
                secs as nat,
            ) + "s"@,
            CoreError::NoHealthyEndpoints(name) => "no healthy endpoints for upstream `"@ + name@
                + "`"@,
            CoreError::Bind { addr, source } => "failed to bind listener on "@ + addr@ + ": "@
                + source@,
            CoreError::Hyper(what) => "hyper error: "@ + what@,
            CoreError::Http(what) => "http error: "@ + what@,
            CoreError::Metrics(what) => "metrics error: "@ + what@,
            CoreError::Config(e) => "config error: "@ + e.text(),
            CoreError::DrainTimeout =>
                "shutdown timeout: in-flight requests did not drain in time"@,
        }
    }

    pub fn message(&self) -> (r: String)
        ensures
            r@ == self.text(),
    {
        match self {
            CoreError::Io(what) => join("io error: ", what.as_str()),
            CoreError::Tls(what) => join("tls error: ", what.as_str()),
            CoreError::Upstream { upstream, message } => {
                let head = join3("upstream error at ", upstream.as_str(), ": ");
                join(head.as_str(), message.as_str())
            },
            CoreError::UpstreamTimeout { secs } => {
                let number = decimal(*secs);
                join3("upstream timed out after ", number.as_str(), "s")
            },
            CoreError::NoHealthyEndpoints(name) => join3(
                "no healthy endpoints for upstream `",
                name.as_str(),
                "`",
            ),
            CoreError::Bind { addr, source } => {
                let head = join3("failed to bind listener on ", addr.as_str(), ": ");
                join(head.as_str(), source.as_str())
            },
            CoreError::Hyper(what) => join("hyper error: ", what.as_str()),
            CoreError::Http(what) => join("http error: ", what.as_str()),
            CoreError::Metrics(what) => join("metrics error: ", what.as_str()),
            CoreError::Config(e) => {
                let what = e.message();
                join("config error: ", what.as_str())
            },
            CoreError::DrainTimeout =>
                "shutdown timeout: in-flight requests did not drain in time".to_owned(),
        }
    }
}

} // verus!
