//! What can go wrong with metrics.

use vstd::prelude::*;

use crate::text::{join, join3};

verus! {

#[derive(Debug)]
pub enum MetricsError {
    Prometheus(String),
    Io(String),
    Server(String),
    /// The listener could not be bound.
    Bind { addr: String, source: String },
    /// A metric could not be registered.
    Register { name: String, source: String },
}

impl MetricsError {
    /// The message of the error.
    pub open spec fn text(self) -> Seq<char> {
        match self {
            MetricsError::Prometheus(what) => "prometheus error: "@ + what@,
            MetricsError::Io(what) => "io error: "@ + what@,
            MetricsError::Server(what) => "metrics server error: "@ + what@,
            MetricsError::Bind { addr, source } => "failed to bind metrics listener on "@ + addr@
                + ": "@ + source@,
            MetricsError::Register { name, source } => "failed to register metric `"@ + name@
                + "`: "@ + source@,
        }
    }

    pub fn message(&self) -> (r: String)
        ensures
            r@ == self.text(),
    {
        match self {
            MetricsError::Prometheus(what) => join("prometheus error: ", what.as_str()),
            MetricsError::Io(what) => join("io error: ", what.as_str()),
            MetricsError::Server(what) => join("metrics server error: ", what.as_str()),
            MetricsError::Bind { addr, source } => {
                let head = join3("failed to bind metrics listener on ", addr.as_str(), ": ");
                join(head.as_str(), source.as_str())
            },
            MetricsError::Register { name, source } => {
                let head = join3("failed to register metric `", name.as_str(), "`: ");
                join(head.as_str(), source.as_str())
            },
        }
    }
}

} // verus!
