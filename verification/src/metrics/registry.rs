//! The metrics that the gateway keeps.

use vstd::arithmetic::power2::{lemma2_to64, lemma_pow2_unfold, pow2};
use vstd::prelude::*;

use crate::text::views;

verus! {

/// The metrics.
#[derive(Debug, Clone, Copy, PartialEq, Eq, Structural)]
pub enum Metric {
    /// Requests, by route, method and class of status.
    Requests,
    /// Time from a request to its response.
    RequestDuration,
    RequestSize,
    ResponseSize,
    /// Requests that went to an upstream.
    UpstreamRequests,
    /// Time from a request to the upstream to its response.
    UpstreamDuration,
    RateLimitDenied,
    CacheLookups,
    AuthFailures,
    /// Connections that are open now.
    ActiveConnections,
    ConfigReloads,
    /// The health of every endpoint.
    EndpointHealth,
    ConcurrencyRejected,
}

/// How a metric counts.
#[derive(Debug, Clone, Copy, PartialEq, Eq, Structural)]
pub enum MetricKind {
    Counter,
    /// A whole number that goes up and down.
    Gauge,
    /// A fraction that goes up and down.
    FractionGauge,
    /// A distribution of times.
    Latencies,
    /// A distribution of sizes.
    Sizes,
}

impl Metric {
    /// The name of the metric.
    pub open spec fn name_text(self) -> Seq<char> {
        match self {
            Metric::Requests => "stateform_requests_total"@,
            Metric::RequestDuration => "stateform_request_duration_seconds"@,
            Metric::RequestSize => "stateform_request_size_bytes"@,
            Metric::ResponseSize => "stateform_response_size_bytes"@,
            Metric::UpstreamRequests => "stateform_upstream_requests_total"@,
            Metric::UpstreamDuration => "stateform_upstream_duration_seconds"@,
            Metric::RateLimitDenied => "stateform_rate_limit_denied_total"@,
            Metric::CacheLookups => "stateform_cache_lookups_total"@,
            Metric::AuthFailures => "stateform_auth_failures_total"@,
            Metric::ActiveConnections => "stateform_active_connections"@,
            Metric::ConfigReloads => "stateform_config_reloads_total"@,
            Metric::EndpointHealth => "stateform_endpoint_health"@,
            Metric::ConcurrencyRejected => "stateform_concurrency_rejected_total"@,
        }
    }

    /// What the metric tells.
    pub open spec fn help_text(self) -> Seq<char> {
        match self {
            Metric::Requests => "Total inbound requests"@,
            Metric::RequestDuration => "End-to-end request latency in seconds"@,
            Metric::RequestSize => "Request body size in bytes"@,
            Metric::ResponseSize => "Response body size in bytes"@,
            Metric::UpstreamRequests => "Requests forwarded to upstream"@,
            Metric::UpstreamDuration => "Upstream response time in seconds"@,
            Metric::RateLimitDenied => "Requests denied by rate limiter"@,
            Metric::CacheLookups => "Cache lookups by result"@,
            Metric::AuthFailures => "Auth failures by mechanism"@,
            Metric::ActiveConnections => "Currently open inbound connections"@,
            Metric::ConfigReloads => "Config reload attempts by status"@,
            Metric::EndpointHealth =>
                "Endpoint health state: 1=Healthy, 0.5=Degraded, 0=Unhealthy"@,
            Metric::ConcurrencyRejected =>
                "Requests rejected due to concurrency limit (global or route)"@,
        }
    }

    /// The names of its labels.
    pub open spec fn label_texts(self) -> Seq<Seq<char>> {
        match self {
            Metric::Requests => seq!["route_id"@, "method"@, "status"@],
            Metric::RequestDuration => seq!["route_id"@, "method"@],
            Metric::RequestSize | Metric::ResponseSize => seq!["route_id"@],
            Metric::UpstreamRequests => seq!["route_id"@, "upstream"@, "status"@],
            Metric::UpstreamDuration => seq!["route_id"@, "upstream"@],
            Metric::RateLimitDenied | Metric::ConcurrencyRejected => seq!["route_id"@, "layer"@],
            Metric::CacheLookups => seq!["route_id"@, "result"@],
            Metric::AuthFailures => seq!["route_id"@, "mechanism"@],
            Metric::ActiveConnections => Seq::empty(),
            Metric::ConfigReloads => seq!["status"@],
            Metric::EndpointHealth => seq!["upstream"@, "address"@],
        }
    }

    /// How it counts.
    pub open spec fn kind_of(self) -> MetricKind {
        match self {
            Metric::RequestDuration | Metric::UpstreamDuration => MetricKind::Latencies,
            Metric::RequestSize | Metric::ResponseSize => MetricKind::Sizes,
            Metric::ActiveConnections => MetricKind::Gauge,
            Metric::EndpointHealth => MetricKind::FractionGauge,
            _ => MetricKind::Counter,
        }
    }

    /// The name of the metric.
    pub fn name(self) -> (r: &'static str)
        ensures
            r@ == self.name_text(),
    {
        match self {
            Metric::Requests => "stateform_requests_total",
            Metric::RequestDuration => "stateform_request_duration_seconds",
            Metric::RequestSize => "stateform_request_size_bytes",
            Metric::ResponseSize => "stateform_response_size_bytes",
            Metric::UpstreamRequests => "stateform_upstream_requests_total",
            Metric::UpstreamDuration => "stateform_upstream_duration_seconds",
            Metric::RateLimitDenied => "stateform_rate_limit_denied_total",
            Metric::CacheLookups => "stateform_cache_lookups_total",
            Metric::AuthFailures => "stateform_auth_failures_total",
            Metric::ActiveConnections => "stateform_active_connections",
            Metric::ConfigReloads => "stateform_config_reloads_total",
            Metric::EndpointHealth => "stateform_endpoint_health",
            Metric::ConcurrencyRejected => "stateform_concurrency_rejected_total",
        }
    }

    /// What the metric tells.
    pub fn help(self) -> (r: &'static str)
        ensures
            r@ == self.help_text(),
    {
        match self {
            Metric::Requests => "Total inbound requests",
            Metric::RequestDuration => "End-to-end request latency in seconds",
            Metric::RequestSize => "Request body size in bytes",
            Metric::ResponseSize => "Response body size in bytes",
            Metric::UpstreamRequests => "Requests forwarded to upstream",
            Metric::UpstreamDuration => "Upstream response time in seconds",
            Metric::RateLimitDenied => "Requests denied by rate limiter",
            Metric::CacheLookups => "Cache lookups by result",
            Metric::AuthFailures => "Auth failures by mechanism",
            Metric::ActiveConnections => "Currently open inbound connections",
            Metric::ConfigReloads => "Config reload attempts by status",
            Metric::EndpointHealth => "Endpoint health state: 1=Healthy, 0.5=Degraded, 0=Unhealthy",
            Metric::ConcurrencyRejected =>
                "Requests rejected due to concurrency limit (global or route)",
        }
    }

    /// The names of its labels.
    pub fn labels(self) -> (r: Vec<String>)
        ensures
            views(r@) == self.label_texts(),
    {
        let mut r: Vec<String> = Vec::new();
        match self {
            Metric::Requests => {
                r.push("route_id".to_owned());
                r.push("method".to_owned());
                r.push("status".to_owned());
            },
            Metric::RequestDuration => {
                r.push("route_id".to_owned());
                r.push("method".to_owned());
            },
            Metric::RequestSize | Metric::ResponseSize => {
                r.push("route_id".to_owned());
            },
            Metric::UpstreamRequests => {
                r.push("route_id".to_owned());
                r.push("upstream".to_owned());
                r.push("status".to_owned());
            },
            Metric::UpstreamDuration => {
                r.push("route_id".to_owned());
                r.push("upstream".to_owned());
            },
            Metric::RateLimitDenied | Metric::ConcurrencyRejected => {
                r.push("route_id".to_owned());
                r.push("layer".to_owned());
            },
            Metric::CacheLookups => {
                r.push("route_id".to_owned());
                r.push("result".to_owned());
            },
            Metric::AuthFailures => {
                r.push("route_id".to_owned());
                r.push("mechanism".to_owned());
            },
            Metric::ActiveConnections => {},
            Metric::ConfigReloads => {
                r.push("status".to_owned());
            },
            Metric::EndpointHealth => {
                r.push("upstream".to_owned());
                r.push("address".to_owned());
            },
        }
        proof {
            assert(views(r@) =~= self.label_texts());
        }
        r
    }

    /// How it counts.
    pub fn kind(self) -> (r: MetricKind)
        ensures
            r == self.kind_of(),
    {
        match self {
            Metric::RequestDuration | Metric::UpstreamDuration => MetricKind::Latencies,
            Metric::RequestSize | Metric::ResponseSize => MetricKind::Sizes,
            Metric::ActiveConnections => MetricKind::Gauge,
            Metric::EndpointHealth => MetricKind::FractionGauge,
            _ => MetricKind::Counter,
        }
    }
}

/// All metrics, in the order in which they are registered.
pub open spec fn metric_list() -> Seq<Metric> {
    seq![
        Metric::Requests,
        Metric::RequestDuration,
        Metric::RequestSize,
        Metric::ResponseSize,
        Metric::UpstreamRequests,
        Metric::UpstreamDuration,
        Metric::RateLimitDenied,
        Metric::CacheLookups,
        Metric::AuthFailures,
        Metric::ActiveConnections,
        Metric::ConfigReloads,
        Metric::EndpointHealth,
        Metric::ConcurrencyRejected,
    ]
}

/// All metrics, in the order in which they are registered.
pub fn all_metrics() -> (r: Vec<Metric>)
    ensures
        r@ == metric_list(),
{
    let r = vec![
        Metric::Requests,
        Metric::RequestDuration,
        Metric::RequestSize,
        Metric::ResponseSize,
        Metric::UpstreamRequests,
        Metric::UpstreamDuration,
        Metric::RateLimitDenied,
        Metric::CacheLookups,
        Metric::AuthFailures,
        Metric::ActiveConnections,
        Metric::ConfigReloads,
        Metric::EndpointHealth,
        Metric::ConcurrencyRejected,
    ];
    proof {
        assert(r@ =~= metric_list());
    }
    r
}

/// The upper bounds of the classes of a distribution of times, in nanoseconds: 18 of them,
/// from half a millisecond on, each twice the one before.
pub fn latency_buckets_nanos() -> (r: Vec<u64>)
    ensures
        r@.len() == 18,
        forall|i: int| 0 <= i < 18 ==> #[trigger] r@[i] == 500_000 * pow2(i as nat),
{
    let mut r: Vec<u64> = Vec::new();
    let mut bound: u64 = 500_000;
    proof {
        lemma2_to64();
    }
    for i in 0..18usize
        invariant
            r@.len() == i,
            bound == 500_000 * pow2(i as nat),
            i <= 18 ==> bound <= 500_000 * 0x4_0000,
            forall|j: int| 0 <= j < i ==> #[trigger] r@[j] == 500_000 * pow2(j as nat),
    {
        proof {
            lemma2_to64();
            lemma_pow2_unfold((i + 1) as nat);
            lemma_pow2_bound((i + 1) as nat, 18);
        }
        r.push(bound);
        bound = 2 * bound;
    }
    r
}

proof fn lemma_pow2_bound(a: nat, b: nat)
    requires
        a <= b,
    ensures
        pow2(a) <= pow2(b),
    decreases b - a,
{
    if a < b {
        lemma_pow2_bound(a, (b - 1) as nat);
        lemma_pow2_unfold(b);
    }
}

/// The upper bounds of the classes of a distribution of sizes, in bytes: 14 of them, from 64
/// on, each four times the one before.
pub fn size_buckets() -> (r: Vec<u64>)
    ensures
        r@.len() == 14,
        forall|i: int| 0 <= i < 14 ==> #[trigger] r@[i] == 64 * pow2((2 * i) as nat),
{
    let mut r: Vec<u64> = Vec::new();
    let mut bound: u64 = 64;
    proof {
        lemma2_to64();
    }
    for i in 0..14usize
        invariant
            r@.len() == i,
            bound == 64 * pow2((2 * i) as nat),
            i <= 14 ==> bound <= 64 * 0x1000_0000,
            forall|j: int| 0 <= j < i ==> #[trigger] r@[j] == 64 * pow2((2 * j) as nat),
    {
        proof {
            lemma2_to64();
            lemma_pow2_unfold((2 * i + 1) as nat);
            lemma_pow2_unfold((2 * i + 2) as nat);
            lemma_pow2_bound((2 * i + 2) as nat, 28);
        }
        r.push(bound);
        bound = 4 * bound;
    }
    r
}

// ── Laws ────────────────────────────────────────────────────────────────────

/// Every metric is listed exactly once.
pub proof fn law_every_metric_is_registered_once(m: Metric)
    ensures
        metric_list().contains(m),
        metric_list().no_duplicates(),
{
    let list = metric_list();
    let i = match m {
        Metric::Requests => 0int,
        Metric::RequestDuration => 1,
        Metric::RequestSize => 2,
        Metric::ResponseSize => 3,
        Metric::UpstreamRequests => 4,
        Metric::UpstreamDuration => 5,
        Metric::RateLimitDenied => 6,
        Metric::CacheLookups => 7,
        Metric::AuthFailures => 8,
        Metric::ActiveConnections => 9,
        Metric::ConfigReloads => 10,
        Metric::EndpointHealth => 11,
        Metric::ConcurrencyRejected => 12,
    };
    assert(list[i] == m);
}

/// No two metrics share a name, so that all of them can be registered side by side.
pub proof fn law_metric_names_differ(a: Metric, b: Metric)
    requires
        a != b,
    ensures
        a.name_text() != b.name_text(),
{
    lemma_name_marks(a);
    lemma_name_marks(b);
}

/// The length of a name, and its eleventh and thirteenth characters: together they tell the
/// names apart.
spec fn name_marks(m: Metric) -> (nat, char, char) {
    match m {
        Metric::Requests => (24, 'r', 'q'),
        Metric::RequestDuration => (34, 'r', 'q'),
        Metric::RequestSize => (28, 'r', 'q'),
        Metric::ResponseSize => (29, 'r', 's'),
        Metric::UpstreamRequests => (33, 'u', 's'),
        Metric::UpstreamDuration => (35, 'u', 's'),
        Metric::RateLimitDenied => (33, 'r', 't'),
        Metric::CacheLookups => (29, 'c', 'c'),
        Metric::AuthFailures => (29, 'a', 't'),
        Metric::ActiveConnections => (28, 'a', 't'),
        Metric::ConfigReloads => (30, 'c', 'n'),
        Metric::EndpointHealth => (25, 'e', 'd'),
        Metric::ConcurrencyRejected => (36, 'c', 'n'),
    }
}

proof fn lemma_name_marks(m: Metric)
    ensures
        m.name_text().len() == name_marks(m).0,
        m.name_text()[10] == name_marks(m).1,
        m.name_text()[12] == name_marks(m).2,
{
    reveal_strlit("stateform_requests_total");
    reveal_strlit("stateform_request_duration_seconds");
    reveal_strlit("stateform_request_size_bytes");
    reveal_strlit("stateform_response_size_bytes");
    reveal_strlit("stateform_upstream_requests_total");
    reveal_strlit("stateform_upstream_duration_seconds");
    reveal_strlit("stateform_rate_limit_denied_total");
    reveal_strlit("stateform_cache_lookups_total");
    reveal_strlit("stateform_auth_failures_total");
    reveal_strlit("stateform_active_connections");
    reveal_strlit("stateform_config_reloads_total");
    reveal_strlit("stateform_endpoint_health");
    reveal_strlit("stateform_concurrency_rejected_total");
}

/// The name of a metric tells how it counts: counters are totals, distributions of times are
/// in seconds and distributions of sizes in bytes, and nothing else is called so.
pub proof fn law_names_tell_the_kind(m: Metric)
    ensures
        ({
            let name = m.name_text();
            let n = name.len() as int;
            &&& m.kind_of() is Counter <==> name.subrange(n - 6, n) == "_total"@
            &&& m.kind_of() is Latencies <==> name.subrange(n - 8, n) == "_seconds"@
            &&& m.kind_of() is Sizes <==> name.subrange(n - 6, n) == "_bytes"@
            &&& m.kind_of() is Gauge <==> m == Metric::ActiveConnections
            &&& m.kind_of() is FractionGauge <==> m == Metric::EndpointHealth
        }),
{
    lemma_name_marks(m);
    reveal_strlit("stateform_requests_total");
    reveal_strlit("stateform_request_duration_seconds");
    reveal_strlit("stateform_request_size_bytes");
    reveal_strlit("stateform_response_size_bytes");
    reveal_strlit("stateform_upstream_requests_total");
    reveal_strlit("stateform_upstream_duration_seconds");
    reveal_strlit("stateform_rate_limit_denied_total");
    reveal_strlit("stateform_cache_lookups_total");
    reveal_strlit("stateform_auth_failures_total");
    reveal_strlit("stateform_active_connections");
    reveal_strlit("stateform_config_reloads_total");
    reveal_strlit("stateform_endpoint_health");
    reveal_strlit("stateform_concurrency_rejected_total");
    reveal_strlit("_total");
    reveal_strlit("_seconds");
    reveal_strlit("_bytes");
    let name = m.name_text();
    let n = name.len() as int;
    let six = name.subrange(n - 6, n);
    let eight = name.subrange(n - 8, n);
    assert(six.len() == 6 && eight.len() == 8);
    match m.kind_of() {
        MetricKind::Counter => {
            assert(six =~= "_total"@);
            assert(six[5] == 'l' && eight[7] == 'l');
        },
        MetricKind::Latencies => {
            assert(eight =~= "_seconds"@);
            assert(six[4] == 'd');
        },
        MetricKind::Sizes => {
            assert(six =~= "_bytes"@);
            assert(six[5] == 's' && eight[6] == 'e');
        },
        MetricKind::Gauge => {
            assert(six[4] == 'n' && eight[6] == 'n');
        },
        MetricKind::FractionGauge => {
            assert(six[5] == 'h' && eight[7] == 'h');
        },
    }
}

} // verus!
