//! What is recorded of what happens.

use std::time::{Duration, Instant};

use vstd::prelude::*;

use crate::auth::error::AuthError;
use crate::cache::layer::CacheLookup;
use crate::clock::{time_between, time_since};
use crate::gateway::concurrency::RefusedBy;
use crate::gateway::endpoint::Health;
use crate::metrics::registry::Metric;
use crate::ratelimit::limiter::{DeniedBy, RateLimitOutcome};
use crate::text::{to_upper, upper, views};

verus! {

/// One change of a metric.
#[derive(Debug)]
pub enum Sample {
    /// One more.
    Increment { metric: Metric, labels: Vec<String> },
    /// One less.
    Decrement { metric: Metric, labels: Vec<String> },
    /// A time for a distribution.
    Time { metric: Metric, labels: Vec<String>, time: Duration },
    /// A size for a distribution.
    Size { metric: Metric, labels: Vec<String>, bytes: usize },
    /// A new value, in thousandths.
    Level { metric: Metric, labels: Vec<String>, milli: u32 },
}

/// One change of a metric.
pub enum SampleView {
    Increment(Metric, Seq<Seq<char>>),
    Decrement(Metric, Seq<Seq<char>>),
    Time(Metric, Seq<Seq<char>>, Duration),
    Size(Metric, Seq<Seq<char>>, usize),
    Level(Metric, Seq<Seq<char>>, u32),
}

impl Sample {
    pub open spec fn view(self) -> SampleView {
        match self {
            Sample::Increment { metric, labels } => SampleView::Increment(metric, views(labels@)),
            Sample::Decrement { metric, labels } => SampleView::Decrement(metric, views(labels@)),
            Sample::Time { metric, labels, time } => SampleView::Time(metric, views(labels@), time),
            Sample::Size { metric, labels, bytes } => SampleView::Size(
                metric,
                views(labels@),
                bytes,
            ),
            Sample::Level { metric, labels, milli } => SampleView::Level(metric, views(labels@), milli),
        }
    }
}

/// Changes of metrics.
pub open spec fn sample_views(samples: Seq<Sample>) -> Seq<SampleView> {
    samples.map_values(|s: Sample| s.view())
}

/// A change that its metric can take: of the kind that the metric is of, with a value for
/// each of its labels and no more.
pub open spec fn fits(s: SampleView) -> bool {
    match s {
        SampleView::Increment(m, labels) => labels.len() == m.label_texts().len() && (m.kind_of()
            is Counter || m.kind_of() is Gauge),
        SampleView::Decrement(m, labels) => labels.len() == m.label_texts().len()
            && m.kind_of() is Gauge,
        SampleView::Time(m, labels, _) => labels.len() == m.label_texts().len()
            && m.kind_of() is Latencies,
        SampleView::Size(m, labels, _) => labels.len() == m.label_texts().len()
            && m.kind_of() is Sizes,
        SampleView::Level(m, labels, _) => labels.len() == m.label_texts().len()
            && m.kind_of() is FractionGauge,
    }
}

fn labels1(a: &str) -> (r: Vec<String>)
    ensures
        views(r@) == seq![a@],
{
    let mut r: Vec<String> = Vec::new();
    r.push(a.to_owned());
    proof {
        assert(views(r@) =~= seq![a@]);
    }
    r
}

fn labels2(a: &str, b: &str) -> (r: Vec<String>)
    ensures
        views(r@) == seq![a@, b@],
{
    let mut r: Vec<String> = Vec::new();
    r.push(a.to_owned());
    r.push(b.to_owned());
    proof {
        assert(views(r@) =~= seq![a@, b@]);
    }
    r
}

fn labels3(a: &str, b: &str, c: &str) -> (r: Vec<String>)
    ensures
        views(r@) == seq![a@, b@, c@],
{
    let mut r: Vec<String> = Vec::new();
    r.push(a.to_owned());
    r.push(b.to_owned());
    r.push(c.to_owned());
    proof {
        assert(views(r@) =~= seq![a@, b@, c@]);
    }
    r
}

// ── Requests ────────────────────────────────────────────────────────────────

/// The class of a status.
pub open spec fn class_of(status: u16) -> Seq<char> {
    if 100 <= status <= 199 {
        "1xx"@
    } else if 200 <= status <= 299 {
        "2xx"@
    } else if 300 <= status <= 399 {
        "3xx"@
    } else if 400 <= status <= 499 {
        "4xx"@
    } else if 500 <= status <= 599 {
        "5xx"@
    } else {
        "unknown"@
    }
}

/// The class of a status.
pub fn status_class(status: u16) -> (r: &'static str)
    ensures
        r@ == class_of(status),
{
    if status >= 100 && status <= 199 {
        "1xx"
    } else if status >= 200 && status <= 299 {
        "2xx"
    } else if status >= 300 && status <= 399 {
        "3xx"
    } else if status >= 400 && status <= 499 {
        "4xx"
    } else if status >= 500 && status <= 599 {
        "5xx"
    } else {
        "unknown"
    }
}

/// What is recorded of a request: that it came, how long it took, and the sizes of its
/// bodies where they are not empty.
pub open spec fn request_samples(
    route_id: Seq<char>,
    method: Seq<char>,
    status: u16,
    duration: Duration,
    request_bytes: usize,
    response_bytes: usize,
) -> Seq<SampleView> {
    let always = seq![
        SampleView::Increment(Metric::Requests, seq![route_id, upper(method), class_of(status)]),
        SampleView::Time(Metric::RequestDuration, seq![route_id, upper(method)], duration),
    ];
    let request = if request_bytes > 0 {
        seq![SampleView::Size(Metric::RequestSize, seq![route_id], request_bytes)]
    } else {
        Seq::empty()
    };
    let response = if response_bytes > 0 {
        seq![SampleView::Size(Metric::ResponseSize, seq![route_id], response_bytes)]
    } else {
        Seq::empty()
    };
    always + request + response
}

/// What is recorded of the time that a request took.
pub fn record_request_time(route_id: &str, method: &str, duration: Duration) -> (r: Sample)
    ensures
        r.view() == SampleView::Time(Metric::RequestDuration, seq![route_id@, method@], duration),
        fits(r.view()),
{
    Sample::Time {
        metric: Metric::RequestDuration,
        labels: labels2(route_id, method),
        time: duration,
    }
}

/// How long a request has taken so far.
#[derive(Debug)]
pub struct RequestTimer {
    pub route_id: String,
    pub method: String,
    pub started: Instant,
}

impl RequestTimer {
    /// Start to time a request.
    pub fn start(route_id: &str, method: &str) -> (r: RequestTimer)
        ensures
            r.route_id@ == route_id@,
            r.method@ == method@,
    {
        RequestTimer {
            route_id: route_id.to_owned(),
            method: method.to_owned(),
            started: Instant::now(),
        }
    }

    /// The time since the start, by a reading of the clock.
    pub fn elapsed(&self) -> (d: Duration)
        ensures
            exists|now: Instant| d == #[trigger] time_between(self.started, now),
    {
        time_since(&self.started)
    }

    /// What is recorded when the request ends: the time that it took, under its route and
    /// method.
    pub fn stop(self) -> (r: Sample)
        ensures
            exists|now: Instant|
                r.view() == SampleView::Time(
                    Metric::RequestDuration,
                    seq![self.route_id@, self.method@],
                    #[trigger] time_between(self.started, now),
                ),
            fits(r.view()),
    {
        record_request_time(self.route_id.as_str(), self.method.as_str(), self.elapsed())
    }
}

/// What is recorded of a request to an upstream.
pub open spec fn upstream_samples(
    route_id: Seq<char>,
    upstream_name: Seq<char>,
    status: u16,
    duration: Duration,
) -> Seq<SampleView> {
    seq![
        SampleView::Increment(
            Metric::UpstreamRequests,
            seq![route_id, upstream_name, class_of(status)],
        ),
        SampleView::Time(Metric::UpstreamDuration, seq![route_id, upstream_name], duration),
    ]
}

// ── Stages ──────────────────────────────────────────────────────────────────

/// The name of the limit that denied a request.
pub open spec fn layer_of(denied_by: Option<DeniedBy>) -> Seq<char> {
    match denied_by {
        Some(DeniedBy::L1Local) => "l1_local"@,
        Some(DeniedBy::L2Distributed) => "l2_distributed"@,
        None => "unknown"@,
    }
}

/// The name of what a lookup came to; a hit is named by its tier.
pub open spec fn result_of(lookup: CacheLookup) -> Seq<char> {
    match lookup {
        CacheLookup::Hit(_) => "hit_l1"@,
        CacheLookup::SharedHit(_) => "hit_l2"@,
        CacheLookup::Miss => "miss"@,
        CacheLookup::Bypass => "bypass"@,
    }
}

/// The name of the mechanism that an error comes from.
pub open spec fn mechanism_of(e: AuthError) -> Seq<char> {
    match e {
        AuthError::MissingToken | AuthError::InvalidToken(_) | AuthError::JwksFetch(_)
        | AuthError::UnknownKid(_) => "jwt"@,
        AuthError::MissingApiKey | AuthError::InvalidApiKey | AuthError::ApiKeyStore(_) =>
            "api_key"@,
        AuthError::MissingClientCert | AuthError::InvalidClientCert(_) => "mtls"@,
        AuthError::NoProviderEnabled | AuthError::Config(_) => "none"@,
    }
}

/// The name of the limit that refused a request.
pub open spec fn refusal_of(by: RefusedBy) -> Option<Seq<char>> {
    match by {
        RefusedBy::Global => Some("global"@),
        RefusedBy::Route => Some("route"@),
        RefusedBy::Shutdown => None,
    }
}

// ── The gateway itself ──────────────────────────────────────────────────────

fn no_labels() -> (r: Vec<String>)
    ensures
        views(r@) == Seq::<Seq<char>>::empty(),
{
    let r: Vec<String> = Vec::new();
    proof {
        assert(views(r@) =~= Seq::<Seq<char>>::empty());
    }
    r
}

/// What is recorded of a new configuration.
fn record_config_reload(succeeded: bool) -> (r: Sample)
    ensures
        r.view() == SampleView::Increment(
            Metric::ConfigReloads,
            seq![if succeeded { "success"@ } else { "failure"@ }],
        ),
        fits(r.view()),
{
    let status = if succeeded {
        "success"
    } else {
        "failure"
    };
    Sample::Increment { metric: Metric::ConfigReloads, labels: labels1(status) }
}

// ── The recorder ────────────────────────────────────────────────────────────

/// Says what is to be recorded. All metrics are named here; where they are kept is up to
/// the caller.
#[derive(Debug, Clone, Copy)]
pub struct MetricsRecorder;

impl MetricsRecorder {
    /// What is recorded of a request.
    pub fn record_request(
        &self,
        route_id: &str,
        method: &str,
        status: u16,
        duration: Duration,
        request_bytes: usize,
        response_bytes: usize,
    ) -> (r: Vec<Sample>)
        ensures
            sample_views(r@) == request_samples(
                route_id@,
                method@,
                status,
                duration,
                request_bytes,
                response_bytes,
            ),
            forall|i: int| 0 <= i < r@.len() ==> fits(#[trigger] r@[i].view()),
    {
        let method = to_upper(method);
        let m = method.as_str();
        let mut r: Vec<Sample> = Vec::new();
        r.push(
            Sample::Increment {
                metric: Metric::Requests,
                labels: labels3(route_id, m, status_class(status)),
            },
        );
        r.push(
            Sample::Time {
                metric: Metric::RequestDuration,
                labels: labels2(route_id, m),
                time: duration,
            },
        );
        if request_bytes > 0 {
            r.push(
                Sample::Size {
                    metric: Metric::RequestSize,
                    labels: labels1(route_id),
                    bytes: request_bytes,
                },
            );
        }
        if response_bytes > 0 {
            r.push(
                Sample::Size {
                    metric: Metric::ResponseSize,
                    labels: labels1(route_id),
                    bytes: response_bytes,
                },
            );
        }
        r
    }

    /// What is recorded of a request to an upstream.
    pub fn record_upstream(&self, route_id: &str, upstream_name: &str, status: u16, duration: Duration) -> (r:
        Vec<Sample>)
        ensures
            sample_views(r@) == upstream_samples(route_id@, upstream_name@, status, duration),
            forall|i: int| 0 <= i < r@.len() ==> fits(#[trigger] r@[i].view()),
    {
        let mut r: Vec<Sample> = Vec::new();
        r.push(
            Sample::Increment {
                metric: Metric::UpstreamRequests,
                labels: labels3(route_id, upstream_name, status_class(status)),
            },
        );
        r.push(
            Sample::Time {
                metric: Metric::UpstreamDuration,
                labels: labels2(route_id, upstream_name),
                time: duration,
            },
        );
        proof {
            assert(sample_views(r@) =~= upstream_samples(route_id@, upstream_name@, status, duration));
        }
        r
    }

    /// What is recorded of rate limiting: only what was denied.
    pub fn record_rate_limit(&self, route_id: &str, outcome: &RateLimitOutcome) -> (r: Option<Sample>)
        ensures
            match r {
                Some(s) => !outcome.allowed && s.view() == SampleView::Increment(
                    Metric::RateLimitDenied,
                    seq![route_id@, layer_of(outcome.denied_by)],
                ),
                None => outcome.allowed,
            },
            r matches Some(s) ==> fits(s.view()),
    {
        if outcome.allowed {
            return None;
        }
        let layer = match outcome.denied_by {
            Some(DeniedBy::L1Local) => "l1_local",
            Some(DeniedBy::L2Distributed) => "l2_distributed",
            None => "unknown",
        };
        Some(Sample::Increment { metric: Metric::RateLimitDenied, labels: labels2(route_id, layer) })
    }

    /// What is recorded of a lookup in the cache.
    pub fn record_cache_lookup(&self, route_id: &str, lookup: &CacheLookup) -> (r: Sample)
        ensures
            r.view() == SampleView::Increment(
                Metric::CacheLookups,
                seq![route_id@, result_of(*lookup)],
            ),
            fits(r.view()),
    {
        let result = match lookup {
            CacheLookup::Hit(_) => "hit_l1",
            CacheLookup::SharedHit(_) => "hit_l2",
            CacheLookup::Miss => "miss",
            CacheLookup::Bypass => "bypass",
        };
        Sample::Increment { metric: Metric::CacheLookups, labels: labels2(route_id, result) }
    }

    /// What is recorded of a failure to authenticate.
    pub fn record_auth_failure(&self, route_id: &str, err: &AuthError) -> (r: Sample)
        ensures
            r.view() == SampleView::Increment(
                Metric::AuthFailures,
                seq![route_id@, mechanism_of(*err)],
            ),
            fits(r.view()),
    {
        let mechanism = match err {
            AuthError::MissingToken | AuthError::InvalidToken(_) | AuthError::JwksFetch(_)
            | AuthError::UnknownKid(_) => "jwt",
            AuthError::MissingApiKey | AuthError::InvalidApiKey | AuthError::ApiKeyStore(_) => "api_key",
            AuthError::MissingClientCert | AuthError::InvalidClientCert(_) => "mtls",
            AuthError::NoProviderEnabled | AuthError::Config(_) => "none",
        };
        Sample::Increment { metric: Metric::AuthFailures, labels: labels2(route_id, mechanism) }
    }

    /// What is recorded of a request that was not admitted: nothing while the gateway shuts
    /// down.
    pub fn record_concurrency_rejected(&self, route_id: &str, by: RefusedBy) -> (r: Option<Sample>)
        ensures
            match r {
                Some(s) => refusal_of(by) is Some && s.view() == SampleView::Increment(
                    Metric::ConcurrencyRejected,
                    seq![route_id@, refusal_of(by)->0],
                ),
                None => refusal_of(by) is None,
            },
            r matches Some(s) ==> fits(s.view()),
    {
        let layer = match by {
            RefusedBy::Global => "global",
            RefusedBy::Route => "route",
            RefusedBy::Shutdown => {
                return None;
            },
        };
        Some(
            Sample::Increment { metric: Metric::ConcurrencyRejected, labels: labels2(route_id, layer) },
        )
    }

    /// What is recorded of a connection that opens.
    pub fn connection_open(&self) -> (r: Sample)
        ensures
            r.view() == SampleView::Increment(Metric::ActiveConnections, Seq::empty()),
            fits(r.view()),
    {
        Sample::Increment { metric: Metric::ActiveConnections, labels: no_labels() }
    }

    /// What is recorded of a connection that closes.
    pub fn connection_close(&self) -> (r: Sample)
        ensures
            r.view() == SampleView::Decrement(Metric::ActiveConnections, Seq::empty()),
            fits(r.view()),
    {
        Sample::Decrement { metric: Metric::ActiveConnections, labels: no_labels() }
    }

    /// What is recorded of a new configuration that is in use.
    pub fn record_config_reload_success(&self) -> (r: Sample)
        ensures
            r.view() == SampleView::Increment(Metric::ConfigReloads, seq!["success"@]),
            fits(r.view()),
    {
        record_config_reload(true)
    }

    /// What is recorded of a new configuration that could not be used.
    pub fn record_config_reload_failure(&self) -> (r: Sample)
        ensures
            r.view() == SampleView::Increment(Metric::ConfigReloads, seq!["failure"@]),
            fits(r.view()),
    {
        record_config_reload(false)
    }

    /// What is recorded of the health of an endpoint: 1 if it is healthy, one half if it is
    /// degraded, 0 if it is unhealthy.
    pub fn record_endpoint_health(&self, upstream: &str, address: &str, health: Health) -> (r: Sample)
        ensures
            r.view() == SampleView::Level(
                Metric::EndpointHealth,
                seq![upstream@, address@],
                match health {
                    Health::Healthy => 1000u32,
                    Health::Degraded => 500,
                    Health::Unhealthy => 0,
                },
            ),
            fits(r.view()),
    {
        Sample::Level {
            metric: Metric::EndpointHealth,
            labels: labels2(upstream, address),
            milli: health.as_gauge_milli(),
        }
    }
}

// ── Laws ────────────────────────────────────────────────────────────────────

/// The class of a status is its first digit and `xx`, for the five hundreds that have a
/// meaning.
pub proof fn law_classes_are_hundreds(status: u16)
    ensures
        1 <= status / 100 <= 5 ==> class_of(status).len() == 3 && class_of(status)[0] as u32 == 48
            + status / 100 && class_of(status)[1] == 'x' && class_of(status)[2] == 'x',
        !(1 <= status / 100 <= 5) ==> class_of(status) == "unknown"@,
{
    reveal_strlit("1xx");
    reveal_strlit("2xx");
    reveal_strlit("3xx");
    reveal_strlit("4xx");
    reveal_strlit("5xx");
}

/// Of every request it is recorded that it came, by its route, its method in capital letters
/// and the class of its status, and how long it took; the size of a body is recorded exactly
/// where it is not empty.
pub proof fn law_requests_are_counted_once(
    route_id: Seq<char>,
    method: Seq<char>,
    status: u16,
    duration: Duration,
    request_bytes: usize,
    response_bytes: usize,
)
    ensures
        ({
            let r = request_samples(
                route_id,
                method,
                status,
                duration,
                request_bytes,
                response_bytes,
            );
            &&& r[0] == SampleView::Increment(
                Metric::Requests,
                seq![route_id, upper(method), class_of(status)],
            )
            &&& r[1] == SampleView::Time(
                Metric::RequestDuration,
                seq![route_id, upper(method)],
                duration,
            )
            &&& r.len() == 2 + (if request_bytes > 0 { 1int } else { 0 }) + (if response_bytes > 0 {
                1int
            } else {
                0
            })
            &&& request_bytes > 0 ==> r[2] == SampleView::Size(
                Metric::RequestSize,
                seq![route_id],
                request_bytes,
            )
            &&& response_bytes > 0 ==> r.last() == SampleView::Size(
                Metric::ResponseSize,
                seq![route_id],
                response_bytes,
            )
        }),
{
}

/// Of every answer of an upstream it is recorded that it came, by the route, the upstream and
/// the class of its status, and how long it took.
pub proof fn law_upstream_answers_are_counted_once(
    route_id: Seq<char>,
    upstream_name: Seq<char>,
    status: u16,
    duration: Duration,
)
    ensures
        ({
            let r = upstream_samples(route_id, upstream_name, status, duration);
            &&& r.len() == 2
            &&& r[0] == SampleView::Increment(
                Metric::UpstreamRequests,
                seq![route_id, upstream_name, class_of(status)],
            )
            &&& r[1] == SampleView::Time(
                Metric::UpstreamDuration,
                seq![route_id, upstream_name],
                duration,
            )
        }),
{
}

/// A hit is told by the tier that it came from, and apart from a miss and from a request that
/// the cache does not serve.
pub proof fn law_lookups_are_told_apart(lookup: CacheLookup)
    ensures
        result_of(lookup) == "hit_l1"@ <==> lookup is Hit,
        result_of(lookup) == "hit_l2"@ <==> lookup is SharedHit,
        result_of(lookup) == "miss"@ <==> lookup is Miss,
        result_of(lookup) == "bypass"@ <==> lookup is Bypass,
{
    reveal_strlit("hit_l1");
    reveal_strlit("hit_l2");
    reveal_strlit("miss");
    reveal_strlit("bypass");
    assert("hit_l1"@[5] != "hit_l2"@[5]);
    assert("hit_l1"@[0] == 'h' && "hit_l2"@[0] == 'h' && "miss"@[0] == 'm' && "bypass"@[0] == 'b');
}

/// A denial is told by the limit that it came from.
pub proof fn law_limits_are_told_apart(denied_by: Option<DeniedBy>, by: RefusedBy)
    ensures
        layer_of(denied_by) == "l1_local"@ <==> denied_by == Some(DeniedBy::L1Local),
        layer_of(denied_by) == "l2_distributed"@ <==> denied_by == Some(DeniedBy::L2Distributed),
        layer_of(denied_by) == "unknown"@ <==> denied_by is None,
        refusal_of(by) == Some("global"@) <==> by == RefusedBy::Global,
        refusal_of(by) == Some("route"@) <==> by == RefusedBy::Route,
        refusal_of(by) is None <==> by == RefusedBy::Shutdown,
{
    reveal_strlit("l1_local");
    reveal_strlit("l2_distributed");
    reveal_strlit("unknown");
    reveal_strlit("global");
    reveal_strlit("route");
    assert("l1_local"@[1] == '1' && "l2_distributed"@[1] == '2' && "unknown"@[1] == 'n');
    assert("global"@[0] == 'g' && "route"@[0] == 'r');
}

/// A failure to authenticate is told by the mechanism that it came from: tokens and their
/// keys, API keys and their store, or certificates.
pub proof fn law_failures_name_their_mechanism(e: AuthError)
    ensures
        mechanism_of(e) == "jwt"@ <==> e is MissingToken || e is InvalidToken || e is JwksFetch || e
            is UnknownKid,
        mechanism_of(e) == "api_key"@ <==> e is MissingApiKey || e is InvalidApiKey || e
            is ApiKeyStore,
        mechanism_of(e) == "mtls"@ <==> e is MissingClientCert || e is InvalidClientCert,
        mechanism_of(e) == "none"@ <==> e is NoProviderEnabled || e is Config,
{
    reveal_strlit("jwt");
    reveal_strlit("api_key");
    reveal_strlit("mtls");
    reveal_strlit("none");
    assert("jwt"@[0] == 'j' && "api_key"@[0] == 'a' && "mtls"@[0] == 'm' && "none"@[0] == 'n');
}

/// Every sample has a value for each label of its metric: counters and gauges go up, gauges
/// alone go down, and times, sizes and fractions go where such values are kept.
pub proof fn law_samples_fit_their_metric(s: SampleView)
    requires
        fits(s),
    ensures
        s matches SampleView::Increment(m, labels) ==> labels.len() == m.label_texts().len() && (
        m.kind_of() is Counter || m.kind_of() is Gauge),
        s matches SampleView::Decrement(m, labels) ==> labels.len() == m.label_texts().len()
            && m.kind_of() is Gauge,
        s matches SampleView::Time(m, labels, _) ==> labels.len() == m.label_texts().len()
            && m.kind_of() is Latencies,
        s matches SampleView::Size(m, labels, _) ==> labels.len() == m.label_texts().len()
            && m.kind_of() is Sizes,
        s matches SampleView::Level(m, labels, _) ==> labels.len() == m.label_texts().len()
            && m.kind_of() is FractionGauge,
{
}

} // verus!
