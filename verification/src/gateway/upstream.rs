//! Upstreams: groups of endpoints that requests are spread over.

use std::sync::Arc;

use http::{HeaderMap, Uri};
use vstd::prelude::*;

use crate::config::schema::{
    EndpointConfig, GatewayConfig, HealthCheckConfig, LoadBalancingConfig, UpstreamConfig,
};
use crate::config::validation::{lemma_routes_sound, problem, route_problem};
use crate::gateway::balance::{
    available_upto, counter_after, effective_weight, select_endpoint, selectable, selected,
    weight_of, weight_upto,
};
use crate::gateway::endpoint::{
    after_failure, after_success, next_ewma, smoothing, smoothing_milli, EndpointState, Health,
};
use crate::gateway::error::CoreError;
use crate::http_types::{
    header_contents, header_text, parse_uri, parsed_uri, path_and_query, text_under,
    uri_path_and_query,
};
use crate::names::{lemma_position, lemma_position_found, lookup, position};
use crate::text::{join3, same};

verus! {

/// An upstream while the gateway runs.
#[derive(Debug)]
pub struct UpstreamPool {
    pub name: String,
    pub config: Arc<UpstreamConfig>,
    /// The endpoints that take part.
    pub endpoints: Vec<EndpointState>,
    /// The turns that the weighted round robin has given out.
    pub rr_counter: usize,
}

/// A healthy endpoint that nothing has happened to.
pub open spec fn fresh_endpoint(cfg: EndpointConfig) -> EndpointState {
    EndpointState {
        address: cfg.address,
        weight: cfg.weight,
        health: Health::Healthy,
        consecutive_failures: 0,
        consecutive_successes: 0,
        last_state_change_ms: 0,
        active_conns: 0,
        ewma_latency: 0,
    }
}

/// The endpoints of a configuration that take part, as they start.
pub open spec fn fresh_endpoints(cfgs: Seq<EndpointConfig>) -> Seq<EndpointState>
    decreases cfgs.len(),
{
    if cfgs.len() == 0 {
        Seq::empty()
    } else {
        let before = fresh_endpoints(cfgs.drop_last());
        if cfgs.last().active {
            before.push(fresh_endpoint(cfgs.last()))
        } else {
            before
        }
    }
}

/// The key of a request: the value of the header that the algorithm hashes by.
pub open spec fn key_of(
    algorithm: LoadBalancingConfig,
    headers: Map<Seq<char>, Seq<Seq<u8>>>,
) -> Option<Seq<char>> {
    match algorithm {
        LoadBalancingConfig::ConsistentHashing { hash_header, .. } => text_under(
            headers,
            hash_header@,
        ),
        _ => None,
    }
}

/// Read the key of a request from its headers.
pub fn hash_key(algorithm: &LoadBalancingConfig, headers: &HeaderMap) -> (r: Option<String>)
    ensures
        match r {
            Some(key) => key_of(*algorithm, header_contents(*headers)) == Some(key@),
            None => key_of(*algorithm, header_contents(*headers)) is None,
        },
{
    match algorithm {
        LoadBalancingConfig::ConsistentHashing { hash_header, .. } => header_text(
            headers,
            hash_header.as_str(),
        ),
        _ => None,
    }
}

/// The endpoint after one more request set out for it.
pub open spec fn with_request(e: EndpointState) -> EndpointState {
    EndpointState {
        active_conns: vstd::wrapping::u64_specs::wrapping_add(e.active_conns, 1),
        ..e
    }
}

/// The endpoint after a request that was balanced by `algorithm` came back from it.
pub open spec fn without_request(
    e: EndpointState,
    algorithm: LoadBalancingConfig,
    elapsed_ms: u64,
) -> EndpointState {
    EndpointState {
        active_conns: vstd::wrapping::u64_specs::wrapping_sub(e.active_conns, 1),
        ewma_latency: next_ewma(e.ewma_latency, elapsed_ms, smoothing(algorithm)),
        ..e
    }
}

impl UpstreamPool {
    /// An upstream at its start.
    pub fn new(name: String, config: Arc<UpstreamConfig>) -> (r: Self)
        ensures
            r.name == name,
            r.config == config,
            r.endpoints@ == fresh_endpoints(config.endpoints@),
            r.rr_counter == 0,
    {
        let mut endpoints: Vec<EndpointState> = Vec::new();
        let ghost cfgs = config.endpoints@;
        for i in 0..config.endpoints.len()
            invariant
                cfgs == config.endpoints@,
                endpoints@ == fresh_endpoints(cfgs.take(i as int)),
        {
            let e = &config.endpoints[i];
            proof {
                assert(cfgs.take(i + 1).drop_last() == cfgs.take(i as int));
            }
            if e.active {
                endpoints.push(EndpointState::new(e.address.clone(), e.weight));
            }
        }
        proof {
            assert(cfgs.take(cfgs.len() as int) == cfgs);
        }
        UpstreamPool { name, config, endpoints, rr_counter: 0 }
    }

    /// Whether endpoints can be selected by `algorithm`.
    pub fn can_select(&self, algorithm: &LoadBalancingConfig) -> (r: bool)
        ensures
            r == selectable(self.endpoints@, *algorithm),
    {
        let ghost eps = self.endpoints@;
        let mut count: usize = 0;
        let mut total: u64 = 0;
        let mut too_heavy: bool = false;
        for i in 0..self.endpoints.len()
            invariant
                eps == self.endpoints@,
                count == available_upto(eps, i as nat).len(),
                count <= i,
                !too_heavy ==> total == weight_upto(eps, available_upto(eps, i as nat), count as int),
                !too_heavy ==> total <= u32::MAX,
                too_heavy ==> weight_upto(eps, available_upto(eps, i as nat), count as int)
                    > u32::MAX,
        {
            proof {
                lemma_weight_prefix(eps, i as nat);
            }
            let e = &self.endpoints[i];
            if e.is_available() {
                count = count + 1;
                if !too_heavy {
                    total = total + weight_of(e) as u64;
                    too_heavy = total > u32::MAX as u64;
                }
            }
        }
        match algorithm {
            LoadBalancingConfig::WeightedRoundRobin => !too_heavy,
            LoadBalancingConfig::LeastConnections { .. } => true,
            LoadBalancingConfig::ConsistentHashing { virtual_nodes, .. } => count == 0 || (
            *virtual_nodes > 0 && count.checked_mul(*virtual_nodes).is_some()),
        }
    }

    /// Choose the endpoint for a request, and take note that the request sets out.
    pub fn begin_send(&mut self, algorithm: &LoadBalancingConfig, hash_key: Option<&str>) -> (r: Result<
        usize,
        CoreError,
    >)
        requires
            selectable(old(self).endpoints@, *algorithm),
        ensures
            final(self).name == old(self).name,
            final(self).config == old(self).config,
            final(self).rr_counter == counter_after(
                old(self).endpoints@,
                *algorithm,
                old(self).rr_counter,
            ),
            ({
                let key = match hash_key {
                    Some(k) => Some(k@),
                    None => None,
                };
                let position = selected(
                    old(self).endpoints@,
                    *algorithm,
                    key,
                    old(self).rr_counter,
                );
                match r {
                    Ok(i) => {
                        &&& position == Some(i as int)
                        &&& i < old(self).endpoints@.len()
                        &&& old(self).endpoints@[i as int].available()
                        &&& final(self).endpoints@ == old(self).endpoints@.update(
                            i as int,
                            with_request(old(self).endpoints@[i as int]),
                        )
                    },
                    Err(e) => {
                        &&& position is None
                        &&& e matches CoreError::NoHealthyEndpoints(name) && name@ == old(
                            self,
                        ).name@
                        &&& final(self).endpoints@ == old(self).endpoints@
                    },
                }
            }),
    {
        let mut counter: usize = self.rr_counter;
        let position = select_endpoint(self.endpoints.as_slice(), algorithm, hash_key, &mut counter);
        self.rr_counter = counter;
        match position {
            Some(i) => {
                self.endpoints[i].begin_request();
                Ok(i)
            },
            None => Err(CoreError::NoHealthyEndpoints(self.name.clone())),
        }
    }

    /// Take note that a request, balanced by `algorithm`, came back from the endpoint at
    /// position `i`.
    pub fn end_send(&mut self, i: usize, algorithm: &LoadBalancingConfig, elapsed_ms: u64)
        requires
            i < old(self).endpoints@.len(),
        ensures
            final(self).name == old(self).name,
            final(self).config == old(self).config,
            final(self).rr_counter == old(self).rr_counter,
            final(self).endpoints@ == old(self).endpoints@.update(
                i as int,
                without_request(old(self).endpoints@[i as int], *algorithm, elapsed_ms),
            ),
    {
        self.endpoints[i].end_request(elapsed_ms, smoothing_milli(algorithm));
    }

    /// Let a request count as a health check of the endpoint at position `i`, where the
    /// upstream has health checks: whether an answer came.
    pub fn observe(&mut self, i: usize, succeeded: bool, now: u64)
        requires
            i < old(self).endpoints@.len(),
        ensures
            final(self).name == old(self).name,
            final(self).config == old(self).config,
            final(self).rr_counter == old(self).rr_counter,
            final(self).endpoints@ == match old(self).config.health_check {
                Some(cfg) => old(self).endpoints@.update(
                    i as int,
                    if succeeded {
                        after_success(old(self).endpoints@[i as int], cfg, now)
                    } else {
                        after_failure(old(self).endpoints@[i as int], cfg, now)
                    },
                ),
                None => old(self).endpoints@,
            },
    {
        let config = Arc::clone(&self.config);
        if let Some(cfg) = &config.health_check {
            if succeeded {
                self.endpoints[i].mark_success_at(cfg, now);
            } else {
                self.endpoints[i].mark_failure_at(cfg, now);
            }
        }
    }
}

proof fn lemma_weight_prefix(endpoints: Seq<EndpointState>, n: nat)
    requires
        n < endpoints.len(),
    ensures
        ({
            let before = available_upto(endpoints, n);
            let after = available_upto(endpoints, n + 1);
            weight_upto(endpoints, after, after.len() as int) == weight_upto(
                endpoints,
                before,
                before.len() as int,
            ) + if endpoints[n as int].available() {
                effective_weight(endpoints[n as int])
            } else {
                0
            }
        }),
{
    let before = available_upto(endpoints, n);
    let after = available_upto(endpoints, n + 1);
    if endpoints[n as int].available() {
        lemma_weight_same(endpoints, before, after, before.len() as int);
    }
}

proof fn lemma_weight_same(endpoints: Seq<EndpointState>, a: Seq<int>, b: Seq<int>, k: int)
    requires
        0 <= k <= a.len(),
        k <= b.len(),
        forall|j: int| 0 <= j < k ==> a[j] == b[j],
    ensures
        weight_upto(endpoints, a, k) == weight_upto(endpoints, b, k),
    decreases k,
{
    if k > 0 {
        lemma_weight_same(endpoints, a, b, k - 1);
    }
}

// ── Where a request goes ────────────────────────────────────────────────────

/// The URI of a request at an endpoint: the path and the query stay, and `/` stands where
/// there is no path. Where that is no URI, it is the root of the endpoint; none where the
/// address makes no URI at all.
pub open spec fn rewritten(address: Seq<char>, original: Uri) -> Option<Uri> {
    let rest = match uri_path_and_query(original) {
        Some(s) => s,
        None => "/"@,
    };
    match parsed_uri("http://"@ + address + rest) {
        Ok(uri) => Some(uri),
        Err(_) => match parsed_uri("http://"@ + address + "/"@) {
            Ok(uri) => Some(uri),
            Err(_) => None,
        },
    }
}

/// Turn the URI of a request to an endpoint.
pub fn rewrite_uri(upstream_addr: &str, original: &Uri) -> (r: Option<Uri>)
    ensures
        r == rewritten(upstream_addr@, *original),
{
    let rest = match path_and_query(original) {
        Some(s) => s,
        None => "/".to_owned(),
    };
    let target = join3("http://", upstream_addr, rest.as_str());
    match parse_uri(target.as_str()) {
        Ok(uri) => Some(uri),
        Err(_) => {
            let root = join3("http://", upstream_addr, "/");
            match parse_uri(root.as_str()) {
                Ok(uri) => Some(uri),
                Err(_) => None,
            }
        },
    }
}

// ── Health checks ───────────────────────────────────────────────────────────

/// What came of asking an endpoint how it fares.
#[derive(Debug, Clone, Copy, PartialEq, Eq, Structural)]
pub enum ProbeOutcome {
    Responded { status: u16 },
    ConnectionError,
    TimedOut,
}

/// Whether an outcome speaks for the endpoint: a response with a status from 200 to 299.
pub open spec fn is_healthy_answer(outcome: ProbeOutcome) -> bool {
    outcome matches ProbeOutcome::Responded { status } && 200 <= status <= 299
}

/// Where an endpoint is asked how it fares.
pub fn probe_url(address: &str, cfg: &HealthCheckConfig) -> (r: String)
    ensures
        r@ == "http://"@ + address@ + cfg.path@,
{
    join3("http://", address, cfg.path.as_str())
}

/// Take note of what came of asking an endpoint, and return its health after that.
pub fn apply_probe(
    endpoint: &mut EndpointState,
    cfg: &HealthCheckConfig,
    outcome: ProbeOutcome,
    now: u64,
) -> (r: Health)
    ensures
        *final(endpoint) == if is_healthy_answer(outcome) {
            after_success(*old(endpoint), *cfg, now)
        } else {
            after_failure(*old(endpoint), *cfg, now)
        },
        r == final(endpoint).health,
{
    match outcome {
        ProbeOutcome::Responded { status } => {
            if status >= 200 && status <= 299 {
                endpoint.mark_success_at(cfg, now)
            } else {
                endpoint.mark_failure_at(cfg, now)
            }
        },
        ProbeOutcome::ConnectionError => endpoint.mark_failure_at(cfg, now),
        ProbeOutcome::TimedOut => endpoint.mark_failure_at(cfg, now),
    }
}

// ── All upstreams ───────────────────────────────────────────────────────────

/// The upstreams of a configuration while the gateway runs.
#[derive(Debug)]
pub struct UpstreamRegistry {
    pools: Vec<UpstreamPool>,
}

/// Whether `pool` is the upstream `name` of a configuration at its start.
pub open spec fn is_fresh_pool(pool: UpstreamPool, name: Seq<char>, config: Arc<UpstreamConfig>) -> bool {
    &&& pool.name@ == name
    &&& pool.config == config
    &&& pool.endpoints@ == fresh_endpoints(config.endpoints@)
    &&& pool.rr_counter == 0
}

impl UpstreamRegistry {
    /// The upstreams in order, each with its name.
    pub closed spec fn pairs(&self) -> Seq<(Seq<char>, UpstreamPool)> {
        self.pools@.map_values(|p: UpstreamPool| (p.name@, p))
    }

    /// The upstreams of a configuration at their start.
    pub fn build(cfg: &GatewayConfig) -> (r: Self)
        ensures
            is_fresh_registry(r.pairs(), cfg.upstreams.pairs()),
    {
        let n: usize = cfg.upstreams.len();
        let ghost upstreams = cfg.upstreams.pairs();
        let mut pools: Vec<UpstreamPool> = Vec::new();
        for i in 0..n
            invariant
                upstreams == cfg.upstreams.pairs(),
                n == upstreams.len(),
                pools@.len() == i,
                forall|k: int|
                    0 <= k < i ==> is_fresh_pool(
                        #[trigger] pools@[k],
                        upstreams[k].0,
                        upstreams[k].1,
                    ),
        {
            let config = Arc::clone(cfg.upstreams.value_at(i));
            pools.push(UpstreamPool::new(cfg.upstreams.name_at(i).to_owned(), config));
        }
        UpstreamRegistry { pools }
    }

    /// The position of the upstream called `name`.
    pub fn position_of(&self, name: &str) -> (r: Option<usize>)
        ensures
            match r {
                Some(i) => i == position(self.pairs(), name@) && i < self.pairs().len(),
                None => lookup(self.pairs(), name@) is None,
            },
    {
        for i in 0..self.pools.len()
            invariant
                forall|k: int| 0 <= k < i ==> (#[trigger] self.pairs()[k]).0 != name@,
        {
            if same(self.pools[i].name.as_str(), name) {
                proof {
                    lemma_position(self.pairs(), name@, i as int);
                }
                return Some(i);
            }
        }
        proof {
            lemma_position(self.pairs(), name@, self.pools@.len() as int);
        }
        None
    }

    /// The upstream at position `i`.
    pub fn pool_at(&mut self, i: usize) -> (r: &mut UpstreamPool)
        requires
            i < old(self).pairs().len(),
        ensures
            *r == old(self).pairs()[i as int].1,
            r.name@ == old(self).pairs()[i as int].0,
            final(self).pairs() == old(self).pairs().update(
                i as int,
                (final(r).name@, *final(r)),
            ),
    {
        proof {
            assert(self.pairs()[i as int].1 == self.pools@[i as int]);
        }
        &mut self.pools[i]
    }

    /// The upstream called `name`.
    pub fn get(&self, name: &str) -> (r: Option<&UpstreamPool>)
        ensures
            match r {
                Some(pool) => lookup(self.pairs(), name@) == Some(*pool),
                None => lookup(self.pairs(), name@) is None,
            },
    {
        match self.position_of(name) {
            Some(i) => {
                proof {
                    assert(self.pairs()[i as int].1 == self.pools@[i as int]);
                }
                Some(&self.pools[i])
            },
            None => None,
        }
    }

    /// The upstreams in order.
    pub fn iter(&self) -> (r: &[UpstreamPool])
        ensures
            r@.len() == self.pairs().len(),
            forall|i: int| 0 <= i < r@.len() ==> #[trigger] r@[i] == self.pairs()[i].1,
    {
        self.pools.as_slice()
    }

    /// Hand the upstreams out, in order.
    pub fn into_pools(self) -> (r: Vec<UpstreamPool>)
        ensures
            r@.len() == self.pairs().len(),
            forall|i: int| 0 <= i < r@.len() ==> #[trigger] r@[i] == self.pairs()[i].1,
    {
        self.pools
    }

    /// The endpoints that are to be asked how they fare: the positions of their upstream
    /// and of their place in it.
    pub fn health_targets(&self) -> (r: Vec<(usize, usize)>)
        ensures
            r@.no_duplicates(),
            forall|p: usize, e: usize| #[trigger]
                r@.contains((p, e)) <==> is_health_target(self.pairs(), p as int, e as int),
    {
        let mut targets: Vec<(usize, usize)> = Vec::new();
        for p in 0..self.pools.len()
            invariant
                targets@.no_duplicates(),
                forall|q: usize, e: usize| #[trigger]
                    targets@.contains((q, e)) <==> q < p && is_health_target(
                        self.pairs(),
                        q as int,
                        e as int,
                    ),
        {
            let pool = &self.pools[p];
            proof {
                assert(self.pairs()[p as int].1 == self.pools@[p as int]);
            }
            if pool.config.health_check.is_some() {
                for e in 0..pool.endpoints.len()
                    invariant
                        targets@.no_duplicates(),
                        p < self.pools@.len(),
                        *pool == self.pairs()[p as int].1,
                        p < self.pairs().len(),
                        pool.config.health_check is Some,
                        forall|q: usize, f: usize| #[trigger]
                            targets@.contains((q, f)) <==> (q < p && is_health_target(
                                self.pairs(),
                                q as int,
                                f as int,
                            )) || (q == p && f < e),
                {
                    let ghost before = targets@;
                    targets.push((p, e));
                    proof {
                        assert(!before.contains((p, e)));
                        assert forall|q: usize, f: usize| #[trigger]
                            targets@.contains((q, f)) <==> (q < p && is_health_target(
                                self.pairs(),
                                q as int,
                                f as int,
                            )) || (q == p && f < e + 1) by {
                            assert(targets@.contains((q, f)) <==> before.contains((q, f)) || (q, f)
                                == (p, e)) by {
                                if before.contains((q, f)) {
                                    let k = choose|k: int|
                                        0 <= k < before.len() && before[k] == (q, f);
                                    assert(targets@[k] == (q, f));
                                }
                                assert(targets@[before.len() as int] == (p, e));
                            }
                        }
                    }
                }
            }
        }
        targets
    }
}

/// Whether the endpoint at position `e` of the upstream at position `p` is there, and its
/// upstream has health checks.
pub open spec fn is_health_target(pools: Seq<(Seq<char>, UpstreamPool)>, p: int, e: int) -> bool {
    &&& 0 <= p < pools.len()
    &&& pools[p].1.config.health_check is Some
    &&& 0 <= e < pools[p].1.endpoints@.len()
}

/// Whether these are the upstreams of a configuration at their start.
pub open spec fn is_fresh_registry(
    pools: Seq<(Seq<char>, UpstreamPool)>,
    upstreams: Seq<(Seq<char>, Arc<UpstreamConfig>)>,
) -> bool {
    &&& pools.len() == upstreams.len()
    &&& forall|i: int|
        0 <= i < pools.len() ==> {
            &&& (#[trigger] pools[i]).0 == upstreams[i].0
            &&& is_fresh_pool(pools[i].1, upstreams[i].0, upstreams[i].1)
        }
}

// ── Laws ────────────────────────────────────────────────────────────────────

/// In a configuration without problems every route leads to an upstream that requests can
/// be sent to.
pub proof fn law_routes_reach_their_upstreams(
    cfg: GatewayConfig,
    pools: Seq<(Seq<char>, UpstreamPool)>,
    i: int,
)
    requires
        problem(cfg) is None,
        is_fresh_registry(pools, cfg.upstreams.pairs()),
        0 <= i < cfg.routes@.len(),
    ensures
        lookup(pools, cfg.routes@[i].upstream@) is Some,
{
    let name = cfg.routes@[i].upstream@;
    let upstreams = cfg.upstreams.pairs();
    lemma_routes_sound(cfg.routes@, upstreams);
    assert(route_problem(*cfg.routes@[i], upstreams) is None);
    lemma_position_found(upstreams, name);
    let p = position(upstreams, name);
    assert forall|j: int| 0 <= j < p implies (#[trigger] pools[j]).0 != name by {
        assert(upstreams[j].0 != name);
    }
    lemma_position(pools, name, p);
}

/// An upstream starts with the active endpoints of its configuration, in order, each healthy
/// and with nothing counted yet.
pub proof fn law_active_endpoints_take_part(cfgs: Seq<EndpointConfig>)
    ensures
        fresh_endpoints(cfgs) == cfgs.filter(|c: EndpointConfig| c.active).map_values(
            |c: EndpointConfig| fresh_endpoint(c),
        ),
        forall|c: EndpointConfig| {
            let e = #[trigger] fresh_endpoint(c);
            &&& e.address == c.address && e.weight == c.weight
            &&& e.health == Health::Healthy
            &&& e.consecutive_failures == 0 && e.consecutive_successes == 0
            &&& e.last_state_change_ms == 0 && e.active_conns == 0 && e.ewma_latency == 0
        },
    decreases cfgs.len(),
{
    reveal(Seq::filter);
    let keep = |c: EndpointConfig| c.active;
    let start = |c: EndpointConfig| fresh_endpoint(c);
    if cfgs.len() > 0 {
        let rest = cfgs.drop_last();
        law_active_endpoints_take_part(rest);
        if cfgs.last().active {
            assert(rest.filter(keep).push(cfgs.last()).map_values(start) =~= rest.filter(
                keep,
            ).map_values(start).push(fresh_endpoint(cfgs.last())));
        }
    } else {
        assert(cfgs.filter(keep).map_values(start) =~= Seq::<EndpointState>::empty());
    }
}

/// A request counts as in flight at its endpoint from when it sets out until it is back; once
/// it is back as many are in flight as before. Neither touches the health of the endpoint.
pub proof fn law_requests_in_flight_are_counted(
    e: EndpointState,
    algorithm: LoadBalancingConfig,
    elapsed_ms: u64,
)
    ensures
        e.active_conns < u64::MAX ==> with_request(e).active_conns == e.active_conns + 1,
        e.active_conns > 0 ==> without_request(e, algorithm, elapsed_ms).active_conns
            == e.active_conns - 1,
        without_request(with_request(e), algorithm, elapsed_ms).active_conns == e.active_conns,
        with_request(e).ewma_latency == e.ewma_latency,
        e.ewma_latency == 0 ==> without_request(e, algorithm, elapsed_ms).ewma_latency == elapsed_ms,
        with_request(e).health == e.health && without_request(e, algorithm, elapsed_ms).health
            == e.health,
        with_request(e).weight == e.weight && without_request(e, algorithm, elapsed_ms).weight
            == e.weight,
        with_request(e).address == e.address && without_request(e, algorithm, elapsed_ms).address
            == e.address,
{
}

/// Only consistent hashing looks at the headers of a request, and there at the header that it
/// is told.
pub proof fn law_hash_header_gives_the_key(
    algorithm: LoadBalancingConfig,
    headers: Map<Seq<char>, Seq<Seq<u8>>>,
)
    ensures
        algorithm matches LoadBalancingConfig::ConsistentHashing { hash_header, .. } ==> key_of(
            algorithm,
            headers,
        ) == text_under(headers, hash_header@),
        !(algorithm is ConsistentHashing) ==> key_of(algorithm, headers) is None,
{
}

/// A request keeps its path and its query on its way to an endpoint, and goes to the root of
/// the endpoint where it has neither or where they make no URI there.
pub proof fn law_path_and_query_stay(address: Seq<char>, original: Uri, rest: Seq<char>)
    ensures
        uri_path_and_query(original) == Some(rest) && parsed_uri("http://"@ + address + rest) is Ok
            ==> rewritten(address, original) == Some(parsed_uri("http://"@ + address + rest)->Ok_0),
        uri_path_and_query(original) == Some(rest) && parsed_uri("http://"@ + address + rest) is Err
            && parsed_uri("http://"@ + address + "/"@) is Ok ==> rewritten(address, original)
            == Some(parsed_uri("http://"@ + address + "/"@)->Ok_0),
        uri_path_and_query(original) is None && parsed_uri("http://"@ + address + "/"@) is Ok
            ==> rewritten(address, original) == Some(
            parsed_uri("http://"@ + address + "/"@)->Ok_0,
        ),
{
}

/// An endpoint is well if it answers with a status of the two hundreds, and with that alone.
pub proof fn law_two_hundreds_are_well(outcome: ProbeOutcome)
    ensures
        is_healthy_answer(outcome) <==> (outcome matches ProbeOutcome::Responded { status }
            && status / 100 == 2),
{
}

/// Every endpoint that takes part in an upstream with health checks is asked how it fares, and
/// no other.
pub proof fn law_checked_upstreams_are_probed(
    pools: Seq<(Seq<char>, UpstreamPool)>,
    p: int,
    e: int,
)
    requires
        0 <= p < pools.len(),
        0 <= e < pools[p].1.endpoints@.len(),
    ensures
        is_health_target(pools, p, e) <==> pools[p].1.config.health_check is Some,
{
}

/// A new pool stands for its configuration: it has its name and its active endpoints, all of
/// them healthy and without requests in flight, and nothing was counted yet.
pub proof fn law_pools_start_fresh(
    pool: UpstreamPool,
    name: Seq<char>,
    config: Arc<UpstreamConfig>,
    i: int,
)
    requires
        is_fresh_pool(pool, name, config),
        0 <= i < pool.endpoints@.len(),
    ensures
        pool.name@ == name,
        pool.config == config,
        pool.rr_counter == 0,
        pool.endpoints@[i].health == Health::Healthy,
        pool.endpoints@[i].active_conns == 0,
        pool.endpoints@[i].ewma_latency == 0,
        pool.endpoints@[i].consecutive_failures == 0,
        pool.endpoints@[i].consecutive_successes == 0,
{
    lemma_fresh_endpoints_are_healthy(config.endpoints@, i);
}

proof fn lemma_fresh_endpoints_are_healthy(cfgs: Seq<EndpointConfig>, i: int)
    requires
        0 <= i < fresh_endpoints(cfgs).len(),
    ensures
        fresh_endpoints(cfgs)[i].health == Health::Healthy,
        fresh_endpoints(cfgs)[i].active_conns == 0,
        fresh_endpoints(cfgs)[i].ewma_latency == 0,
        fresh_endpoints(cfgs)[i].consecutive_failures == 0,
        fresh_endpoints(cfgs)[i].consecutive_successes == 0,
    decreases cfgs.len(),
{
    if cfgs.len() > 0 && i < fresh_endpoints(cfgs.drop_last()).len() {
        lemma_fresh_endpoints_are_healthy(cfgs.drop_last(), i);
    }
}

} // verus!
