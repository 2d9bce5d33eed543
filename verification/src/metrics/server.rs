//! Serving the metrics.

use http::Method;
use vstd::prelude::*;

use crate::http_types::{method_str, method_text};
use crate::text::same;

verus! {

/// What a request to the metrics listener gets.
#[derive(Debug, Clone, Copy, PartialEq, Eq, Structural)]
pub enum MetricsAnswer {
    /// All metrics as text.
    Metrics,
    NotFound,
}

/// What a request gets: the metrics for `GET /metrics`, nothing for anything else.
pub open spec fn metrics_answer(method: Seq<char>, path: Seq<char>) -> MetricsAnswer {
    if method == "GET"@ && path == "/metrics"@ {
        MetricsAnswer::Metrics
    } else {
        MetricsAnswer::NotFound
    }
}

/// Decide what a request to the metrics listener gets.
pub fn route_metrics_request(method: &Method, path: &str) -> (r: MetricsAnswer)
    ensures
        r == metrics_answer(method_text(*method), path@),
{
    if same(method_str(method), "GET") && same(path, "/metrics") {
        MetricsAnswer::Metrics
    } else {
        MetricsAnswer::NotFound
    }
}

// ── Laws ────────────────────────────────────────────────────────────────────

/// The metrics are served under one path and for one method; a path that goes on behind it, or
/// another method, gets nothing.
pub proof fn law_metrics_have_one_address(method: Seq<char>, path: Seq<char>)
    ensures
        metrics_answer("GET"@, "/metrics"@) == MetricsAnswer::Metrics,
        method != "GET"@ ==> metrics_answer(method, path) == MetricsAnswer::NotFound,
        path != "/metrics"@ ==> metrics_answer(method, path) == MetricsAnswer::NotFound,
{
}

} // verus!
