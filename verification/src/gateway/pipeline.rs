//! The way of a request through the gateway.
//!
//! A request is routed, its caller is authenticated, its rate is checked and the cache is
//! asked, in this order; only then it goes to the upstream. Each stage hands on to the next
//! or answers the request. A stage can only be reached through those before it.

use std::sync::Arc;
use std::time::Duration;

use bytes::Bytes;
use http::{HeaderMap, Method};
use vstd::prelude::*;
use vstd::utf8::encode_utf8;

use crate::auth::context::AuthContext;
use crate::auth::error::AuthError;
use crate::cache::entry::{bytes_clone, bytes_contents, bytes_len, EntryView};
use crate::cache::key::{arg_text, base_key};
use crate::cache::layer::{
    is_after_store, write_views, AnswerView, CacheLookup, CacheRequest, ResponseCache, SharedWrite,
};
use crate::config::schema::{HeaderMutations, LoadBalancingConfig, RouteConfig, UpstreamConfig};
use crate::gateway::balance::{
    counter_after, law_selection_finds_what_takes_traffic, selectable, selected,
};
use crate::gateway::error::CoreError;
use crate::gateway::response::{
    after_removals, after_settings, apply_request_mutations, apply_response_mutations,
    build_cached_response, cached_view, error_response, error_view, law_unnamed_headers_stay,
    mutated_request, mutated_response, too_many_requests, too_many_view, GatewayResponse,
    ResponseView,
};
use crate::gateway::upstream::{hash_key, key_of, with_request, UpstreamPool, UpstreamRegistry};
use crate::http_types::{
    header_contents, header_text, may_be_full, method_str, method_text, text_under,
};
use crate::metrics::recorder::{
    layer_of, mechanism_of, request_samples, result_of, sample_views, upstream_samples,
    MetricsRecorder, Sample, SampleView,
};
use crate::metrics::registry::Metric;
use crate::names::{lemma_position_found, lookup, position};
use crate::ratelimit::error::RateLimitError;
use crate::ratelimit::limiter::RateLimitOutcome;
use crate::router::choice::{chosen, request_view};
use crate::router::matched::{param_texts, MatchedRoute};
use crate::router::table::Router;
use crate::text::{
    contains, has_substring, lower, occurs_at, parse_u64, parsed_u64, to_lower, views,
};

verus! {

// ── What each stage says ────────────────────────────────────────────────────

/// What rate limiting counts as, when it could not be done: the request is allowed.
pub open spec fn outcome_or_open(result: Result<RateLimitOutcome, RateLimitError>) -> RateLimitOutcome {
    match result {
        Ok(outcome) => outcome,
        Err(_) => RateLimitOutcome {
            allowed: true,
            remaining: 0,
            limit: 0,
            retry_after_ms: 0,
            denied_by: None,
        },
    }
}

/// What rate limiting counts as.
pub fn rate_limit_outcome(result: Result<RateLimitOutcome, RateLimitError>) -> (r: RateLimitOutcome)
    ensures
        r == outcome_or_open(result),
{
    match result {
        Ok(outcome) => outcome,
        Err(_) => RateLimitOutcome::failed_open(),
    }
}

/// The status that answers a failure of the upstream: 504 if it took too long, else 502.
pub open spec fn failure_status(e: CoreError) -> u16 {
    if e is UpstreamTimeout {
        504
    } else {
        502
    }
}

/// What a lookup came to.
pub enum LookupView {
    Hit(EntryView),
    Miss,
    Bypass,
}

impl CacheLookup {
    pub open spec fn view(&self) -> LookupView {
        match self {
            CacheLookup::Hit(entry) => LookupView::Hit(entry.view()),
            CacheLookup::SharedHit(entry) => LookupView::Hit(entry.view()),
            CacheLookup::Miss => LookupView::Miss,
            CacheLookup::Bypass => LookupView::Bypass,
        }
    }
}

// ── Stages ──────────────────────────────────────────────────────────────────

/// A request that has a route.
#[derive(Debug)]
pub struct Routed {
    matched: MatchedRoute,
}

/// A request whose caller is known, or whose route is open to all.
#[derive(Debug)]
pub struct Identified {
    matched: MatchedRoute,
    caller: Option<AuthContext>,
}

/// A request that keeps within its rate.
#[derive(Debug)]
pub struct Admitted {
    matched: MatchedRoute,
    caller: Option<AuthContext>,
}

/// A request that the cache has no response for.
#[derive(Debug)]
pub struct Uncached {
    matched: MatchedRoute,
    caller: Option<AuthContext>,
}

/// A request that goes to its upstream.
#[derive(Debug)]
pub struct Forwarding {
    matched: MatchedRoute,
    caller: Option<AuthContext>,
}

/// A request that its upstream answered.
#[derive(Debug)]
pub struct Answered {
    matched: MatchedRoute,
    status: u16,
    headers: HeaderMap,
    body: Bytes,
}

/// What a request looks like on the wire, but for its body.
pub struct RequestLine<'a> {
    pub method: &'a Method,
    pub path: &'a str,
    pub query: Option<&'a str>,
    /// Its headers, as the client sent them.
    pub headers: &'a HeaderMap,
}

impl<'a> RequestLine<'a> {
    /// The plain name of the response to this request on a route.
    pub open spec fn base(&self, route_id: Seq<char>) -> Seq<char> {
        base_key(method_text(*self.method), route_id, self.path@, arg_text(self.query))
    }
}

/// The answer of an upstream, and the time that it took.
#[derive(Debug)]
pub struct UpstreamAnswer {
    pub status: u16,
    pub headers: HeaderMap,
    pub body: Bytes,
    pub time: Duration,
}

impl UpstreamAnswer {
    pub open spec fn view(&self) -> AnswerView {
        AnswerView {
            status: self.status,
            headers: header_contents(self.headers),
            body: bytes_contents(self.body),
        }
    }
}

/// What the client gets of the answer of an upstream.
#[derive(Debug)]
pub struct Delivered {
    pub status: u16,
    pub headers: HeaderMap,
    pub body: Bytes,
}

/// Find the route of a request.
pub fn begin(router: &Router, path: &str, method: &Method, headers: &HeaderMap) -> (r: Result<
    Routed,
    GatewayResponse,
>)
    ensures
        match r {
            Ok(run) => chosen(router.routes(), path@, request_view(*method, *headers)) == Some(
                (run.route(), run.params()),
            ),
            Err(response) => {
                &&& chosen(router.routes(), path@, request_view(*method, *headers)) is None
                &&& response.view() == error_view(404, "no route matched"@)
            },
        },
{
    match router.match_request(path, method, headers) {
        Ok(matched) => Ok(Routed { matched }),
        Err(_) => Err(error_response(404, "no route matched")),
    }
}

impl Routed {
    /// The route of the request.
    pub closed spec fn route(&self) -> Arc<RouteConfig> {
        self.matched.route
    }

    /// The parameters in its path.
    pub closed spec fn params(&self) -> Seq<(Seq<char>, Seq<char>)> {
        param_texts(self.matched.path_params@)
    }

    /// The match that the request goes by.
    pub fn matched(&self) -> (r: &MatchedRoute)
        ensures
            r.route == self.route(),
            param_texts(r.path_params@) == self.params(),
    {
        &self.matched
    }

    /// Go on after the caller was authenticated.
    pub fn authenticated(self, result: Result<Option<AuthContext>, AuthError>) -> (r: Result<
        Identified,
        GatewayResponse,
    >)
        ensures
            match result {
                Ok(ctx) => r matches Ok(run) && run.route() == self.route() && run.caller() == ctx,
                Err(e) => r matches Err(response) && response.view() == error_view(
                    e.status(),
                    e.text(),
                ),
            },
    {
        match result {
            Ok(caller) => Ok(Identified { matched: self.matched, caller }),
            Err(e) => {
                let message = e.message();
                Err(error_response(e.status_code(), message.as_str()))
            },
        }
    }
}

impl Identified {
    pub closed spec fn route(&self) -> Arc<RouteConfig> {
        self.matched.route
    }

    /// The caller, if it is known.
    pub closed spec fn caller(&self) -> Option<AuthContext> {
        self.caller
    }

    /// The match that the request goes by.
    pub fn matched(&self) -> (r: &MatchedRoute)
        ensures
            r.route == self.route(),
    {
        &self.matched
    }

    /// The caller, if it is known.
    pub fn auth_context(&self) -> (r: Option<&AuthContext>)
        ensures
            match r {
                Some(ctx) => self.caller() == Some(*ctx),
                None => self.caller() is None,
            },
    {
        match &self.caller {
            Some(ctx) => Some(ctx),
            None => None,
        }
    }

    /// Go on after the rate was checked.
    pub fn rate_checked(self, outcome: &RateLimitOutcome) -> (r: Result<Admitted, GatewayResponse>)
        ensures
            if outcome.allowed {
                r matches Ok(run) && run.route() == self.route() && run.caller() == self.caller()
            } else {
                r matches Err(response) && response.view() == too_many_view(*outcome)
            },
    {
        if outcome.allowed {
            Ok(Admitted { matched: self.matched, caller: self.caller })
        } else {
            Err(too_many_requests(outcome))
        }
    }
}

impl Admitted {
    pub closed spec fn route(&self) -> Arc<RouteConfig> {
        self.matched.route
    }

    pub closed spec fn caller(&self) -> Option<AuthContext> {
        self.caller
    }

    /// The match that the request goes by.
    pub fn matched(&self) -> (r: &MatchedRoute)
        ensures
            r.route == self.route(),
    {
        &self.matched
    }

    /// Go on after the cache was asked, at `now`.
    pub fn looked_up(self, lookup: CacheLookup, now: u64) -> (r: Result<Uncached, GatewayResponse>)
        ensures
            match lookup.view() {
                LookupView::Hit(entry) => r matches Err(response) && response.view() == cached_view(
                    entry,
                    now,
                ),
                _ => r matches Ok(run) && run.route() == self.route() && run.caller()
                    == self.caller(),
            },
    {
        match lookup {
            CacheLookup::Hit(entry) => Err(build_cached_response(entry, now)),
            CacheLookup::SharedHit(entry) => Err(build_cached_response(entry, now)),
            CacheLookup::Miss => Ok(Uncached { matched: self.matched, caller: self.caller }),
            CacheLookup::Bypass => Ok(Uncached { matched: self.matched, caller: self.caller }),
        }
    }
}

impl Uncached {
    pub closed spec fn route(&self) -> Arc<RouteConfig> {
        self.matched.route
    }

    pub closed spec fn caller(&self) -> Option<AuthContext> {
        self.caller
    }

    /// The name of the upstream that the request goes to.
    pub fn upstream(&self) -> (r: &str)
        ensures
            r@ == self.route().upstream@,
    {
        self.matched.upstream()
    }

    /// Go on after the upstream was looked for.
    pub fn upstream_looked_for(self, found: bool) -> (r: Result<Forwarding, GatewayResponse>)
        ensures
            if found {
                r matches Ok(run) && run.route() == self.route() && run.caller() == self.caller()
            } else {
                r matches Err(response) && response.view() == error_view(
                    502,
                    "upstream not configured"@,
                )
            },
    {
        if found {
            Ok(Forwarding { matched: self.matched, caller: self.caller })
        } else {
            Err(error_response(502, "upstream not configured"))
        }
    }
}

impl Forwarding {
    pub closed spec fn route(&self) -> Arc<RouteConfig> {
        self.matched.route
    }

    pub closed spec fn caller(&self) -> Option<AuthContext> {
        self.caller
    }

    /// The match that the request goes by.
    pub fn matched(&self) -> (r: &MatchedRoute)
        ensures
            r.route == self.route(),
    {
        &self.matched
    }

    /// The algorithm that chooses the endpoint: that of the route, else that of the upstream.
    pub fn algorithm<'a>(&'a self, upstream: &'a UpstreamConfig) -> (r: &'a LoadBalancingConfig)
        ensures
            *r == algorithm_for(*self.route(), *upstream),
    {
        match &self.matched.route.load_balancing {
            Some(algorithm) => algorithm,
            None => &upstream.load_balancing,
        }
    }

    /// Answer a request whose upstream failed.
    pub fn failed(self, e: &CoreError) -> (r: GatewayResponse)
        ensures
            r.view() == error_view(failure_status(*e), e.text()),
    {
        let status: u16 = match e {
            CoreError::UpstreamTimeout { .. } => 504,
            _ => 502,
        };
        let message = e.message();
        error_response(status, message.as_str())
    }
}

/// The algorithm that chooses the endpoint: that of the route, else that of the upstream.
pub open spec fn algorithm_for(route: RouteConfig, upstream: UpstreamConfig) -> LoadBalancingConfig {
    match route.load_balancing {
        Some(algorithm) => algorithm,
        None => upstream.load_balancing,
    }
}

/// The position of the endpoint of an upstream that a request on a route goes to, by the
/// headers that its client sent; none if none can be selected.
pub open spec fn endpoint_for(
    route: RouteConfig,
    pool: UpstreamPool,
    headers: Map<Seq<char>, Seq<Seq<u8>>>,
) -> Option<int> {
    let algorithm = algorithm_for(route, *pool.config);
    if selectable(pool.endpoints@, algorithm) {
        selected(pool.endpoints@, algorithm, key_of(algorithm, headers), pool.rr_counter)
    } else {
        None
    }
}

/// Whether an upstream becomes `after` when a request on a route sets out for an endpoint of
/// it: the endpoint counts it, and nothing else changes; nothing at all where no endpoint can
/// be selected.
pub open spec fn is_set_out(
    route: RouteConfig,
    before: UpstreamPool,
    headers: Map<Seq<char>, Seq<Seq<u8>>>,
    after: UpstreamPool,
) -> bool {
    &&& after.name == before.name
    &&& after.config == before.config
    &&& match endpoint_for(route, before, headers) {
        Some(i) => {
            &&& after.endpoints@ == before.endpoints@.update(i, with_request(before.endpoints@[i]))
            &&& after.rr_counter == counter_after(
                before.endpoints@,
                algorithm_for(route, *before.config),
                before.rr_counter,
            )
        },
        None => after.endpoints@ == before.endpoints@ && after.rr_counter == before.rr_counter,
    }
}

impl Forwarding {
    /// Choose the endpoint that the request goes to, by the headers that its client sent, and
    /// take note that it sets out.
    pub fn select(&self, pool: &mut UpstreamPool, headers: &HeaderMap) -> (r: Result<
        usize,
        CoreError,
    >)
        ensures
            is_set_out(*self.route(), *old(pool), header_contents(*headers), *final(pool)),
            match r {
                Ok(i) => {
                    &&& endpoint_for(*self.route(), *old(pool), header_contents(*headers)) == Some(
                        i as int,
                    )
                    &&& i < old(pool).endpoints@.len()
                },
                Err(e) => {
                    &&& endpoint_for(*self.route(), *old(pool), header_contents(*headers)) is None
                    &&& e matches CoreError::NoHealthyEndpoints(name) && name@ == old(pool).name@
                },
            },
    {
        let config = Arc::clone(&pool.config);
        let algorithm = self.algorithm(&config);
        if !pool.can_select(algorithm) {
            return Err(CoreError::NoHealthyEndpoints(pool.name.clone()));
        }
        let key = hash_key(algorithm, headers);
        let key = match &key {
            Some(key) => Some(key.as_str()),
            None => None,
        };
        pool.begin_send(algorithm, key)
    }

    /// Change the headers of the request as its route says, for the upstream.
    pub fn prepare(&self, headers: &mut HeaderMap) -> (r: Result<(), GatewayResponse>)
        ensures
            match r {
                Ok(_) => header_contents(*final(headers)) == mutated_request(
                    header_contents(*old(headers)),
                    self.route().headers,
                ),
                Err(response) => {
                    &&& response.view() == error_view(502, no_room_text())
                    &&& exists|k: int|
                        0 <= k < self.route().headers.request_set.pairs().len() && may_be_full(
                            after_settings(
                                after_removals(
                                    header_contents(*old(headers)),
                                    views(self.route().headers.request_remove@),
                                ),
                                #[trigger] self.route().headers.request_set.pairs().take(k),
                            ),
                        )
                },
            },
    {
        match apply_request_mutations(headers, &self.matched.route.headers) {
            Ok(_) => Ok(()),
            Err(_) => Err(no_room()),
        }
    }

    /// Go on after the upstream answered, at `now`: the answer goes to the cache of the route.
    /// What comes back besides is to be written to the shared tier of the cache, and to be
    /// recorded.
    pub fn answered(
        self,
        cache: &mut ResponseCache,
        line: &RequestLine,
        answer: UpstreamAnswer,
        now: u64,
    ) -> (r: (Answered, Vec<SharedWrite>, Vec<Sample>))
        ensures
            r.0.route() == self.route(),
            r.0.answer() == answer.view(),
            is_after_store(
                self.route().middleware.cache,
                line.base(self.route().id@),
                header_contents(*line.headers),
                answer.view(),
                now,
                old(cache).local(),
                final(cache).local(),
                write_views(r.1@),
            ),
            sample_views(r.2@) == upstream_samples(
                self.route().id@,
                self.route().upstream@,
                answer.status,
                answer.time,
            ),
    {
        let route = &self.matched.route;
        let request = CacheRequest {
            route_id: route.id.as_str(),
            method: method_str(line.method),
            path: line.path,
            query: line.query,
            headers: line.headers,
        };
        let cfg = match &route.middleware.cache {
            Some(cfg) => Some(cfg),
            None => None,
        };
        let writes = cache.store(
            cfg,
            &request,
            answer.status,
            &answer.headers,
            bytes_clone(&answer.body),
            now,
        );
        let samples = MetricsRecorder.record_upstream(
            route.id.as_str(),
            route.upstream.as_str(),
            answer.status,
            answer.time,
        );
        let run = Answered {
            matched: self.matched,
            status: answer.status,
            headers: answer.headers,
            body: answer.body,
        };
        (run, writes, samples)
    }
}

/// The message to a client whose response has no room for the headers of the gateway.
pub open spec fn no_room_text() -> Seq<char> {
    "http error: "@ + "too many headers"@
}

fn no_room() -> (r: GatewayResponse)
    ensures
        r.view() == error_view(502, no_room_text()),
{
    let e = CoreError::Http("too many headers".to_owned());
    let message = e.message();
    error_response(502, message.as_str())
}

/// Whether `result` is what a client gets of an answer: its status and body, and its headers
/// with those that the route sets and a mark that it does not come from the cache. Where the
/// headers find no room, the client is told so.
pub open spec fn is_delivered(
    result: Result<Delivered, GatewayResponse>,
    answer: AnswerView,
    mutations: HeaderMutations,
) -> bool {
    match result {
        Ok(delivered) => {
            &&& delivered.status == answer.status
            &&& bytes_contents(delivered.body) == answer.body
            &&& header_contents(delivered.headers) == mutated_response(answer.headers, mutations)
        },
        Err(response) => {
            &&& response.view() == error_view(502, no_room_text())
            &&& exists|k: int|
                0 <= k <= mutations.response_set.pairs().len() && may_be_full(
                    after_settings(
                        answer.headers,
                        #[trigger] mutations.response_set.pairs().take(k),
                    ),
                )
        },
    }
}

impl Answered {
    pub closed spec fn route(&self) -> Arc<RouteConfig> {
        self.matched.route
    }

    /// What the upstream answered.
    pub closed spec fn answer(&self) -> AnswerView {
        AnswerView {
            status: self.status,
            headers: header_contents(self.headers),
            body: bytes_contents(self.body),
        }
    }

    /// End a request that took `latency`, with a body of `request_bytes`: the client gets the
    /// answer with the headers that the route sets, marked as not coming from the cache. What
    /// comes back besides is to be recorded.
    pub fn finish(self, method: &Method, latency: Duration, request_bytes: usize) -> (r: (
        Result<Delivered, GatewayResponse>,
        Vec<Sample>,
    ))
        ensures
            is_delivered(r.0, self.answer(), self.route().headers),
            sample_views(r.1@) == request_samples(
                self.route().id@,
                method_text(*method),
                self.answer().status,
                latency,
                request_bytes,
                self.answer().body.len() as usize,
            ),
    {
        let route = Arc::clone(&self.matched.route);
        let samples = MetricsRecorder.record_request(
            route.id.as_str(),
            method_str(method),
            self.status,
            latency,
            request_bytes,
            bytes_len(&self.body),
        );
        let mut headers = self.headers;
        match apply_response_mutations(&mut headers, &route.headers) {
            Ok(_) => (Ok(Delivered { status: self.status, headers, body: self.body }), samples),
            Err(_) => (Err(no_room()), samples),
        }
    }
}

// ── At the edge ─────────────────────────────────────────────────────────────

/// Whether a request announces a body that is larger than `max_body_bytes`.
pub open spec fn announces_too_much(
    headers: Map<Seq<char>, Seq<Seq<u8>>>,
    max_body_bytes: usize,
) -> bool {
    text_under(headers, "content-length"@) matches Some(value) && parsed_u64(value) matches Some(n)
        && n > max_body_bytes
}

/// The answer to a request with too large a body.
pub fn body_too_large() -> (r: GatewayResponse)
    ensures
        r.view() == error_view(413, "request body too large"@),
{
    error_response(413, "request body too large")
}

/// Refuse a request that announces too large a body, before the body is read.
pub fn refuse_announced_body(headers: &HeaderMap, max_body_bytes: usize) -> (r: Option<
    GatewayResponse,
>)
    ensures
        match r {
            Some(response) => announces_too_much(header_contents(*headers), max_body_bytes)
                && response.view() == error_view(413, "request body too large"@),
            None => !announces_too_much(header_contents(*headers), max_body_bytes),
        },
{
    if let Some(value) = header_text(headers, "content-length") {
        if let Some(n) = parse_u64(value.as_str()) {
            if n > max_body_bytes as u64 {
                return Some(body_too_large());
            }
        }
    }
    None
}

/// Whether the message of a connection error tells of a client that went away.
pub open spec fn is_benign(message: Seq<char>) -> bool {
    let m = lower(message);
    ||| has_substring(m, "connection reset"@)
    ||| has_substring(m, "broken pipe"@)
    ||| has_substring(m, "connection closed"@)
    ||| has_substring(m, "eof"@)
}

/// Whether a connection error, by its message, is of no interest.
pub fn is_benign_conn_error(message: &str) -> (r: bool)
    ensures
        r == is_benign(message@),
{
    let m = to_lower(message);
    let s = m.as_str();
    contains(s, "connection reset") || contains(s, "broken pipe") || contains(
        s,
        "connection closed",
    ) || contains(s, "eof")
}

// ── The whole way ───────────────────────────────────────────────────────────

/// What each stage would say of a request.
pub struct Findings {
    pub routed: bool,
    pub auth: Result<Option<AuthContext>, AuthError>,
    pub rate: RateLimitOutcome,
    pub lookup: LookupView,
    pub found_upstream: bool,
    pub upstream: Result<u16, CoreError>,
}

/// How a request ends: answered by the gateway itself, or with what the upstream says.
pub enum Ending {
    Answered(ResponseView),
    Forwarded(u16),
}

/// How a request ends, given what each stage says of it at `now`.
pub open spec fn ending(f: Findings, now: u64) -> Ending {
    if !f.routed {
        Ending::Answered(error_view(404, "no route matched"@))
    } else if f.auth is Err {
        Ending::Answered(error_view(f.auth->Err_0.status(), f.auth->Err_0.text()))
    } else if !f.rate.allowed {
        Ending::Answered(too_many_view(f.rate))
    } else if f.lookup is Hit {
        Ending::Answered(cached_view(f.lookup->Hit_0, now))
    } else if !f.found_upstream {
        Ending::Answered(error_view(502, "upstream not configured"@))
    } else {
        match f.upstream {
            Ok(status) => Ending::Forwarded(status),
            Err(e) => Ending::Answered(error_view(failure_status(e), e.text())),
        }
    }
}

/// What the stages found that ask others: the mechanisms of authentication, the rate
/// limits, the cache and the endpoint of the upstream.
#[derive(Debug)]
pub struct StageResults {
    pub auth: Result<Option<AuthContext>, AuthError>,
    pub rate: Result<RateLimitOutcome, RateLimitError>,
    pub lookup: CacheLookup,
    pub upstream: Result<UpstreamAnswer, CoreError>,
}

/// The upstreams by name.
pub type Pools = Seq<(Seq<char>, UpstreamPool)>;

/// What came of sending a request on a route: nothing is sent where no endpoint can be
/// selected.
pub open spec fn sent(
    route: RouteConfig,
    results: StageResults,
    pools: Pools,
    headers: Map<Seq<char>, Seq<Seq<u8>>>,
) -> Result<UpstreamAnswer, CoreError> {
    let pool = lookup(pools, route.upstream@)->0;
    if endpoint_for(route, pool, headers) is Some {
        results.upstream
    } else {
        Err(CoreError::NoHealthyEndpoints(pool.name))
    }
}

/// What the stages say of a request, given its route, if it has one.
pub open spec fn findings(
    route: Option<Arc<RouteConfig>>,
    results: StageResults,
    pools: Pools,
    headers: Map<Seq<char>, Seq<Seq<u8>>>,
) -> Findings {
    Findings {
        routed: route is Some,
        auth: results.auth,
        rate: outcome_or_open(results.rate),
        lookup: results.lookup.view(),
        found_upstream: lookup(pools, route->0.upstream@) is Some,
        upstream: match sent(*route->0, results, pools, headers) {
            Ok(answer) => Ok(answer.status),
            Err(e) => Err(e),
        },
    }
}

/// Whether a request gets so far that an endpoint is selected for it.
pub open spec fn reaches_upstream(f: Findings) -> bool {
    f.routed && f.auth is Ok && f.rate.allowed && !(f.lookup is Hit) && f.found_upstream
}

/// What is recorded of a request, given its route and what the stages found: a failure to
/// authenticate or a rate that is exceeded ends it; a lookup in the cache is recorded, whatever
/// it comes to; and so is an answer of the upstream, with the request as a whole.
pub open spec fn recorded(
    route: Option<Arc<RouteConfig>>,
    results: StageResults,
    pools: Pools,
    headers: Map<Seq<char>, Seq<Seq<u8>>>,
    method: Seq<char>,
    latency: Duration,
    request_bytes: usize,
) -> Seq<SampleView> {
    let outcome = outcome_or_open(results.rate);
    if route is None {
        Seq::empty()
    } else if results.auth is Err {
        seq![
            SampleView::Increment(
                Metric::AuthFailures,
                seq![route->0.id@, mechanism_of(results.auth->Err_0)],
            ),
        ]
    } else if !outcome.allowed {
        seq![
            SampleView::Increment(
                Metric::RateLimitDenied,
                seq![route->0.id@, layer_of(outcome.denied_by)],
            ),
        ]
    } else {
        let lookup = seq![
            SampleView::Increment(
                Metric::CacheLookups,
                seq![route->0.id@, result_of(results.lookup)],
            ),
        ];
        if results.lookup.view() is Hit || crate::names::lookup(pools, route->0.upstream@) is None {
            lookup
        } else {
            match sent(*route->0, results, pools, headers) {
                Err(_) => lookup,
                Ok(answer) => lookup + upstream_samples(
                    route->0.id@,
                    route->0.upstream@,
                    answer.status,
                    answer.time,
                ) + request_samples(
                    route->0.id@,
                    method,
                    answer.status,
                    latency,
                    request_bytes,
                    bytes_contents(answer.body).len() as usize,
                ),
            }
        }
    }
}

/// What came of a request: what the client gets, what is to be written to the shared tier of
/// the cache, and what is to be recorded.
pub struct Handled {
    pub result: Result<Delivered, GatewayResponse>,
    /// The position of the endpoint that the request went to, if it went to one.
    pub endpoint: Option<usize>,
    pub writes: Vec<SharedWrite>,
    pub samples: Vec<Sample>,
}

fn refused(response: GatewayResponse, samples: Vec<Sample>) -> (r: Handled)
    ensures
        r.result == Err::<Delivered, GatewayResponse>(response),
        r.endpoint is None,
        r.writes@.len() == 0,
        r.samples == samples,
{
    Handled { result: Err(response), endpoint: None, writes: Vec::new(), samples }
}

/// The route of what was chosen for a request.
pub open spec fn route_of(
    found: Option<(Arc<RouteConfig>, Seq<(Seq<char>, Seq<char>)>)>,
) -> Option<Arc<RouteConfig>> {
    match found {
        Some(found) => Some(found.0),
        None => None,
    }
}

/// Whether a request goes to the endpoint at position `endpoint` of its upstream: to that which
/// is selected if it gets so far, else to none; and whether the upstreams then become `after`.
pub open spec fn is_sent_by(
    route: Option<Arc<RouteConfig>>,
    pools: Pools,
    headers: Map<Seq<char>, Seq<Seq<u8>>>,
    f: Findings,
    endpoint: Option<usize>,
    after: Pools,
) -> bool {
    if reaches_upstream(f) {
        let p = position(pools, route->0.upstream@);
        &&& after.len() == pools.len()
        &&& forall|q: int| 0 <= q < pools.len() && q != p ==> #[trigger] after[q] == pools[q]
        &&& after[p].0 == pools[p].0
        &&& is_set_out(*route->0, pools[p].1, headers, after[p].1)
        &&& match endpoint {
            Some(i) => endpoint_for(*route->0, pools[p].1, headers) == Some(i as int),
            None => endpoint_for(*route->0, pools[p].1, headers) is None,
        }
    } else {
        endpoint is None && after == pools
    }
}

/// Take a request that took `latency`, with a body of `request_bytes`, through all stages,
/// given what each of them found: the client gets the answer of the endpoint that is selected,
/// which is stored where it may be, or the answer of the gateway.
pub fn handle(
    router: &Router,
    cache: &mut ResponseCache,
    upstreams: &mut UpstreamRegistry,
    line: &RequestLine,
    results: StageResults,
    latency: Duration,
    request_bytes: usize,
    now: u64,
) -> (r: Handled)
    ensures
        ({
            let headers = header_contents(*line.headers);
            let route = route_of(
                chosen(router.routes(), line.path@, request_view(*line.method, *line.headers)),
            );
            let pools = old(upstreams).pairs();
            let f = findings(route, results, pools, headers);
            &&& sample_views(r.samples@) == recorded(
                route,
                results,
                pools,
                headers,
                method_text(*line.method),
                latency,
                request_bytes,
            )
            &&& is_sent_by(route, pools, headers, f, r.endpoint, final(upstreams).pairs())
            &&& match ending(f, now) {
                Ending::Answered(view) => {
                    &&& r.result matches Err(response) && response.view() == view
                    &&& r.writes@.len() == 0
                    &&& final(cache).local() == old(cache).local()
                },
                Ending::Forwarded(_) => {
                    let answer = results.upstream->Ok_0.view();
                    &&& is_delivered(r.result, answer, route->0.headers)
                    &&& is_after_store(
                        route->0.middleware.cache,
                        line.base(route->0.id@),
                        headers,
                        answer,
                        now,
                        old(cache).local(),
                        final(cache).local(),
                        write_views(r.writes@),
                    )
                },
            }
        }),
{
    let ghost headers = header_contents(*line.headers);
    let ghost pools = upstreams.pairs();
    let mut samples: Vec<Sample> = Vec::new();
    proof {
        assert(sample_views(samples@) =~= Seq::<SampleView>::empty());
    }
    let routed = match begin(router, line.path, line.method, line.headers) {
        Ok(run) => run,
        Err(response) => {
            return refused(response, samples);
        },
    };
    let route = Arc::clone(&routed.matched().route);
    let route_id = route.id.as_str();
    if let Err(e) = &results.auth {
        samples.push(MetricsRecorder.record_auth_failure(route_id, e));
    }
    let identified = match routed.authenticated(results.auth) {
        Ok(run) => run,
        Err(response) => {
            proof {
                assert(sample_views(samples@) =~= recorded(
                    Some(route),
                    results,
                    pools,
                    headers,
                    method_text(*line.method),
                    latency,
                    request_bytes,
                ));
            }
            return refused(response, samples);
        },
    };
    let outcome = rate_limit_outcome(results.rate);
    if let Some(sample) = MetricsRecorder.record_rate_limit(route_id, &outcome) {
        samples.push(sample);
    }
    let admitted = match identified.rate_checked(&outcome) {
        Ok(run) => run,
        Err(response) => {
            proof {
                assert(sample_views(samples@) =~= recorded(
                    Some(route),
                    results,
                    pools,
                    headers,
                    method_text(*line.method),
                    latency,
                    request_bytes,
                ));
            }
            return refused(response, samples);
        },
    };
    samples.push(MetricsRecorder.record_cache_lookup(route_id, &results.lookup));
    let ghost lookup = seq![
        SampleView::Increment(Metric::CacheLookups, seq![route.id@, result_of(results.lookup)]),
    ];
    proof {
        assert(sample_views(samples@) =~= lookup);
    }
    let uncached = match admitted.looked_up(results.lookup, now) {
        Ok(run) => run,
        Err(response) => {
            return refused(response, samples);
        },
    };
    let found = upstreams.position_of(route.upstream.as_str());
    let forwarding = match uncached.upstream_looked_for(found.is_some()) {
        Ok(run) => run,
        Err(response) => {
            return refused(response, samples);
        },
    };
    let at: usize = match found {
        Some(at) => at,
        None => {
            return refused(error_response(502, "upstream not configured"), samples);
        },
    };
    proof {
        lemma_position_found(pools, route.upstream@);
    }
    let endpoint: usize = match forwarding.select(upstreams.pool_at(at), line.headers) {
        Ok(endpoint) => endpoint,
        Err(e) => {
            return refused(forwarding.failed(&e), samples);
        },
    };
    let answer = match results.upstream {
        Ok(answer) => answer,
        Err(e) => {
            let mut r = refused(forwarding.failed(&e), samples);
            r.endpoint = Some(endpoint);
            return r;
        },
    };
    let (answered, writes, mut upstream_part) = forwarding.answered(cache, line, answer, now);
    let (result, mut request_part) = answered.finish(line.method, latency, request_bytes);
    let ghost first = samples@;
    let ghost second = upstream_part@;
    let ghost third = request_part@;
    samples.append(&mut upstream_part);
    samples.append(&mut request_part);
    proof {
        assert(sample_views(samples@) =~= sample_views(first) + sample_views(second) + sample_views(
            third,
        ));
    }
    Handled { result, endpoint: Some(endpoint), writes, samples }
}

// ── Laws ────────────────────────────────────────────────────────────────────

/// The answer of an upstream reaches a client only if the request has a route, its caller
/// was authenticated, its rate was allowed and the cache had nothing.
pub proof fn law_upstream_comes_last(f: Findings, now: u64)
    ensures
        ending(f, now) is Forwarded ==> {
            &&& f.routed
            &&& f.auth is Ok
            &&& f.rate.allowed
            &&& !(f.lookup is Hit)
            &&& f.found_upstream
            &&& f.upstream is Ok
        },
{
}

/// The first stage that refuses a request gives the answer, whatever the later ones would
/// say.
pub proof fn law_first_refusal_answers(f: Findings, g: Findings, now: u64)
    requires
        f.routed == g.routed,
        f.auth == g.auth,
        f.rate == g.rate,
        !f.routed || f.auth is Err || !f.rate.allowed,
    ensures
        ending(f, now) == ending(g, now),
{
}

/// Each refusal has its status: 404 without a route, 429 over the rate, 502 or 504 where the
/// upstream fails, and that of the error where authentication fails: 401, 403, 500 or 503.
pub proof fn law_refusals_have_their_status(f: Findings, now: u64)
    ensures
        ending(f, now) matches Ending::Answered(response) ==> {
            ||| !f.routed && response.status == 404
            ||| f.routed && f.auth is Err && (response.status == 401 || response.status == 403
                || response.status == 500 || response.status == 503)
            ||| f.auth is Ok && !f.rate.allowed && response.status == 429
            ||| f.rate.allowed && f.lookup is Hit && response.status == f.lookup->Hit_0.status
            ||| !(f.lookup is Hit) && (response.status == 502 || response.status == 504)
        },
{
}

/// An answer of an upstream that reaches a client is marked as not coming from the cache, and
/// every header that the route does not set is as the upstream sent it.
pub proof fn law_forwarded_answers_are_marked(
    headers: Map<Seq<char>, Seq<Seq<u8>>>,
    mutations: HeaderMutations,
    name: Seq<char>,
)
    ensures
        ({
            let sent = mutated_response(headers, mutations);
            &&& sent.contains_key(lower("X-Cache"@)) && sent[lower("X-Cache"@)] == seq![
                encode_utf8("MISS"@),
            ]
            &&& name != lower("X-Cache"@) && (forall|i: int|
                0 <= i < mutations.response_set.pairs().len() ==> lower(
                    (#[trigger] mutations.response_set.pairs()[i]).0,
                ) != name) ==> (sent.contains_key(name) == headers.contains_key(name) && (
            headers.contains_key(name) ==> sent[name] == headers[name]))
        }),
{
    if forall|i: int|
        0 <= i < mutations.response_set.pairs().len() ==> lower(
            (#[trigger] mutations.response_set.pairs()[i]).0,
        ) != name {
        lemma_settings_leave_others(headers, mutations.response_set.pairs(), name);
    }
}

proof fn lemma_settings_leave_others(
    contents: Map<Seq<char>, Seq<Seq<u8>>>,
    settings: Seq<(Seq<char>, String)>,
    name: Seq<char>,
)
    requires
        forall|i: int| 0 <= i < settings.len() ==> lower((#[trigger] settings[i]).0) != name,
    ensures
        after_settings(contents, settings).contains_key(name) == contents.contains_key(name),
        contents.contains_key(name) ==> after_settings(contents, settings)[name] == contents[name],
{
    law_unnamed_headers_stay(contents, settings, name);
}

/// A response from the cache is marked as such, and serves the body that was stored.
pub proof fn law_cached_responses_are_marked(f: Findings, now: u64)
    requires
        f.routed,
        f.auth is Ok,
        f.rate.allowed,
        f.lookup is Hit,
    ensures
        ending(f, now) matches Ending::Answered(response) && response.headers.contains(
            ("X-Cache"@, "HIT"@),
        ) && response.body == f.lookup->Hit_0.body,
{
    assert(cached_view(f.lookup->Hit_0, now).headers[0] == ("X-Cache"@, "HIT"@));
}

/// The stages answer in their order. A request without a route gets 404. One whose caller is
/// not authenticated gets the status and the message of that error, though it also exceeds its
/// rate. One that exceeds its rate gets 429, though the cache has a response. A response in the
/// cache is served, though the upstream is not there. Where the upstream is not configured the
/// client gets 502; where it took too long, 504; where it failed in another way, 502; else what
/// the upstream says.
pub proof fn law_stages_answer_in_order(f: Findings, now: u64)
    ensures
        !f.routed ==> ending(f, now) == Ending::Answered(error_view(404, "no route matched"@)),
        f.routed ==> {
            &&& f.auth matches Err(e) ==> ending(f, now) == Ending::Answered(
                error_view(e.status(), e.text()),
            )
            &&& f.auth is Ok ==> {
                &&& !f.rate.allowed ==> ending(f, now) == Ending::Answered(too_many_view(f.rate))
                &&& f.rate.allowed ==> {
                    &&& f.lookup matches LookupView::Hit(entry) ==> ending(f, now)
                        == Ending::Answered(cached_view(entry, now))
                    &&& !(f.lookup is Hit) ==> {
                        &&& !f.found_upstream ==> ending(f, now) == Ending::Answered(
                            error_view(502, "upstream not configured"@),
                        )
                        &&& f.found_upstream ==> match f.upstream {
                            Ok(status) => ending(f, now) == Ending::Forwarded(status),
                            Err(CoreError::UpstreamTimeout { secs }) => ending(f, now)
                                == Ending::Answered(
                                error_view(504, (CoreError::UpstreamTimeout { secs }).text()),
                            ),
                            Err(e) => ending(f, now) == Ending::Answered(
                                error_view(502, e.text()),
                            ),
                        }
                    }
                }
            }
        },
{
}

/// A rate that cannot be checked lets the request through; one that was checked counts as it
/// is.
pub proof fn law_rate_limits_fail_open(result: Result<RateLimitOutcome, RateLimitError>)
    ensures
        result is Err ==> outcome_or_open(result).allowed && outcome_or_open(result).denied_by
            is None,
        result matches Ok(outcome) ==> outcome_or_open(result) == outcome,
{
}

/// The algorithm of a route goes before that of its upstream, which counts for the routes that
/// have none.
pub proof fn law_routes_choose_their_algorithm(route: RouteConfig, upstream: UpstreamConfig)
    ensures
        route.load_balancing matches Some(own) ==> algorithm_for(route, upstream) == own,
        route.load_balancing is None ==> algorithm_for(route, upstream) == upstream.load_balancing,
{
}

/// A request that is sent goes to the endpoint that is selected, which counts it; no other
/// endpoint changes. Where no endpoint can be selected none does, and the client is told that
/// its upstream has none.
pub proof fn law_one_endpoint_gets_the_request(
    route: RouteConfig,
    before: UpstreamPool,
    headers: Map<Seq<char>, Seq<Seq<u8>>>,
    after: UpstreamPool,
    k: int,
)
    requires
        is_set_out(route, before, headers, after),
        0 <= k < before.endpoints@.len(),
    ensures
        endpoint_for(route, before, headers) == Some(k) ==> {
            &&& before.endpoints@[k].active_conns < u64::MAX ==> after.endpoints@[k].active_conns
                == before.endpoints@[k].active_conns + 1
            &&& after.endpoints@[k].health == before.endpoints@[k].health
        },
        endpoint_for(route, before, headers) != Some(k) ==> after.endpoints@[k]
            == before.endpoints@[k],
        after.endpoints@.len() == before.endpoints@.len(),
{
    let endpoints = before.endpoints@;
    let counter = before.rr_counter;
    assert forall|algorithm: LoadBalancingConfig, key: Option<Seq<char>>| selectable(
        endpoints,
        algorithm,
    ) implies ((#[trigger] selected(endpoints, algorithm, key, counter)) matches Some(i) ==> 0 <= i
        < endpoints.len()) by {
        law_selection_finds_what_takes_traffic(endpoints, algorithm, key, counter);
    }
}

/// Nothing is sent to an upstream of which no endpoint can be selected, whatever it would have
/// answered: the request fails in the name of the upstream.
pub proof fn law_nothing_is_sent_without_an_endpoint(
    route: RouteConfig,
    results: StageResults,
    pools: Pools,
    headers: Map<Seq<char>, Seq<Seq<u8>>>,
    pool: UpstreamPool,
)
    requires
        lookup(pools, route.upstream@) == Some(pool),
    ensures
        endpoint_for(route, pool, headers) is None ==> sent(route, results, pools, headers) == Err::<
            UpstreamAnswer,
            CoreError,
        >(CoreError::NoHealthyEndpoints(pool.name)),
        endpoint_for(route, pool, headers) is Some ==> sent(route, results, pools, headers)
            == results.upstream,
{
}

/// What the stages find is handed on as it is: whether there is a route, what authentication,
/// the rate limits and the cache say, whether the upstream of the route is there, and the
/// status that it answers.
pub proof fn law_findings_are_handed_on(
    route: Arc<RouteConfig>,
    results: StageResults,
    pools: Pools,
    headers: Map<Seq<char>, Seq<Seq<u8>>>,
)
    ensures
        !findings(None, results, pools, headers).routed,
        ({
            let f = findings(Some(route), results, pools, headers);
            &&& f.routed
            &&& f.auth == results.auth
            &&& results.rate matches Ok(outcome) ==> f.rate == outcome
            &&& results.rate is Err ==> f.rate.allowed
            &&& results.lookup matches CacheLookup::Hit(e) ==> f.lookup == LookupView::Hit(e.view())
            &&& results.lookup matches CacheLookup::SharedHit(e) ==> f.lookup == LookupView::Hit(
                e.view(),
            )
            &&& results.lookup is Miss || results.lookup is Bypass ==> !(f.lookup is Hit)
            &&& f.found_upstream <==> lookup(pools, route.upstream@) is Some
            &&& sent(*route, results, pools, headers) matches Ok(answer) ==> f.upstream == Ok::<
                u16,
                CoreError,
            >(answer.status)
            &&& sent(*route, results, pools, headers) matches Err(e) ==> f.upstream == Err::<
                u16,
                CoreError,
            >(e)
        }),
{
}

/// Of a request that is refused for its caller or for its rate that refusal alone is recorded,
/// under its route; of one without a route nothing is. Of every other one the lookup in the
/// cache is recorded first, and after it, where the upstream answered, that answer and the
/// request as a whole, and nothing else.
pub proof fn law_what_is_recorded(
    route: Arc<RouteConfig>,
    results: StageResults,
    pools: Pools,
    headers: Map<Seq<char>, Seq<Seq<u8>>>,
    method: Seq<char>,
    latency: Duration,
    request_bytes: usize,
)
    ensures
        recorded(None, results, pools, headers, method, latency, request_bytes).len() == 0,
        ({
            let r = recorded(Some(route), results, pools, headers, method, latency, request_bytes);
            let rate = outcome_or_open(results.rate);
            &&& results.auth matches Err(e) ==> r == seq![
                SampleView::Increment(Metric::AuthFailures, seq![route.id@, mechanism_of(e)]),
            ]
            &&& results.auth is Ok && !rate.allowed ==> r == seq![
                SampleView::Increment(
                    Metric::RateLimitDenied,
                    seq![route.id@, layer_of(rate.denied_by)],
                ),
            ]
            &&& results.auth is Ok && rate.allowed ==> {
                &&& r[0] == SampleView::Increment(
                    Metric::CacheLookups,
                    seq![route.id@, result_of(results.lookup)],
                )
                &&& results.lookup is Hit || results.lookup is SharedHit || lookup(
                    pools,
                    route.upstream@,
                ) is None || sent(*route, results, pools, headers) is Err ==> r.len() == 1
                &&& !(results.lookup is Hit) && !(results.lookup is SharedHit) && lookup(
                    pools,
                    route.upstream@,
                ) is Some ==> (sent(*route, results, pools, headers) matches Ok(answer) ==> {
                    let bytes = bytes_contents(answer.body).len() as usize;
                    let whole = request_samples(
                        route.id@,
                        method,
                        answer.status,
                        latency,
                        request_bytes,
                        bytes,
                    );
                    &&& r.len() == 3 + whole.len()
                    &&& r.subrange(1, 3) == upstream_samples(
                        route.id@,
                        route.upstream@,
                        answer.status,
                        answer.time,
                    )
                    &&& r.skip(3) == whole
                })
            }
        }),
{
    let r = recorded(Some(route), results, pools, headers, method, latency, request_bytes);
    if results.auth is Ok && outcome_or_open(results.rate).allowed && !(results.lookup is Hit) && !(
    results.lookup is SharedHit) && lookup(pools, route.upstream@) is Some {
        assert(sent(*route, results, pools, headers) matches Ok(answer) ==> {
            &&& r.subrange(1, 3) =~= upstream_samples(
                route.id@,
                route.upstream@,
                answer.status,
                answer.time,
            )
            &&& r.skip(3) =~= request_samples(
                route.id@,
                method,
                answer.status,
                latency,
                request_bytes,
                bytes_contents(answer.body).len() as usize,
            )
        });
    }
}

/// A request is refused for the size that it announces only if that is a number above the
/// limit; the limit itself is still accepted, and so is a request that announces nothing.
pub proof fn law_announced_size_is_a_number(
    headers: Map<Seq<char>, Seq<Seq<u8>>>,
    max_body_bytes: usize,
    n: u64,
)
    ensures
        text_under(headers, "content-length"@) is None ==> !announces_too_much(
            headers,
            max_body_bytes,
        ),
        text_under(headers, "content-length"@) matches Some(value) ==> {
            &&& parsed_u64(value) is None ==> !announces_too_much(headers, max_body_bytes)
            &&& parsed_u64(value) == Some(n) ==> (announces_too_much(headers, max_body_bytes) <==> n
                >= max_body_bytes + 1)
        },
{
}

/// A connection error is of no interest exactly if its message speaks, in any case and anywhere
/// in it, of a connection that was reset or closed, of a broken pipe, or of the end of a file.
pub proof fn law_clients_may_go_away(message: Seq<char>)
    ensures
        is_benign(message) <==> exists|i: int, text: Seq<char>|
            seq!["connection reset"@, "connection closed"@, "broken pipe"@, "eof"@].contains(text)
                && #[trigger] occurs_at(lower(message), text, i),
{
    let m = lower(message);
    let texts = seq!["connection reset"@, "connection closed"@, "broken pipe"@, "eof"@];
    assert(texts[0] == "connection reset"@ && texts[1] == "connection closed"@ && texts[2]
        == "broken pipe"@ && texts[3] == "eof"@);
    assert forall|text: Seq<char>| texts.contains(text) && has_substring(m, text) implies is_benign(
        message,
    ) by {}
    assert(has_substring(m, texts[0]) || has_substring(m, texts[1]) || has_substring(m, texts[2])
        || has_substring(m, texts[3]) <==> is_benign(message));
    if exists|i: int, text: Seq<char>| texts.contains(text) && #[trigger] occurs_at(m, text, i) {
        let (i, text) = choose|i: int, text: Seq<char>|
            texts.contains(text) && #[trigger] occurs_at(m, text, i);
        assert(has_substring(m, text));
    }
}

/// A request goes to an upstream exactly if it has a route, its caller is authenticated, its
/// rate is kept, the cache has no response, and the upstream is configured.
pub proof fn law_who_reaches_the_upstream(f: Findings)
    ensures
        reaches_upstream(f) <==> {
            &&& f.routed
            &&& f.auth is Ok
            &&& f.rate.allowed
            &&& !(f.lookup is Hit)
            &&& f.found_upstream
        },
{
}

/// The client gets the status and the body of the upstream as they are.
pub proof fn law_answers_are_delivered_whole(
    delivered: Delivered,
    answer: AnswerView,
    mutations: HeaderMutations,
)
    requires
        is_delivered(Ok(delivered), answer, mutations),
    ensures
        delivered.status == answer.status,
        bytes_contents(delivered.body) == answer.body,
{
}

/// A request changes the upstream of its route alone; one that an earlier stage answers
/// changes none. Names and configurations stay as they are.
pub proof fn law_other_upstreams_stay(
    route: Option<Arc<RouteConfig>>,
    pools: Pools,
    headers: Map<Seq<char>, Seq<Seq<u8>>>,
    f: Findings,
    endpoint: Option<usize>,
    after: Pools,
    q: int,
)
    requires
        is_sent_by(route, pools, headers, f, endpoint, after),
        0 <= q < pools.len(),
    ensures
        after.len() == pools.len(),
        after[q].0 == pools[q].0,
        after[q].1.name == pools[q].1.name,
        after[q].1.config == pools[q].1.config,
        !reaches_upstream(f) ==> endpoint is None && after[q] == pools[q],
        reaches_upstream(f) && q != position(pools, route->0.upstream@) ==> after[q] == pools[q],
{
}

} // verus!
