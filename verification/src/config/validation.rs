//! Checks on a configuration beyond its shape.

use std::sync::Arc;

use vstd::prelude::*;

use crate::config::error::ConfigError;
use crate::config::schema::{
    EndpointConfig, GatewayConfig, LoadBalancingConfig, PathMatch, RateLimitPolicy, RouteConfig,
    UpstreamConfig,
};
use crate::names::{has_name, law_first_entry_is_found, NameMap};
use crate::pattern::{compile, compiled_regex, error_text, regex_error_message};
use crate::router::table::first_invalid;
use crate::text::{join, join3, same, trim, trimmed};

verus! {

// ── What is wrong ───────────────────────────────────────────────────────────

/// What is wrong with the weights of the endpoints of the upstream `name`: the first one
/// without a weight.
pub open spec fn weight_problem(name: Seq<char>, endpoints: Seq<EndpointConfig>) -> Option<Seq<char>>
    decreases endpoints.len(),
{
    if endpoints.len() == 0 {
        None
    } else if endpoints[0].weight == 0 {
        Some(
            "upstream `"@ + name + "` endpoint `"@ + endpoints[0].address@
                + "` has weight 0 — use `active: false` to disable"@,
        )
    } else {
        weight_problem(name, endpoints.skip(1))
    }
}

/// What is wrong with the upstream `name`.
pub open spec fn upstream_problem(name: Seq<char>, upstream: UpstreamConfig) -> Option<Seq<char>> {
    if upstream.endpoints@.len() == 0 {
        Some("upstream `"@ + name + "` must have at least one endpoint"@)
    } else if weight_problem(name, upstream.endpoints@) is Some {
        weight_problem(name, upstream.endpoints@)
    } else if upstream.load_balancing matches LoadBalancingConfig::ConsistentHashing {
        hash_header,
        ..
    } && trimmed(hash_header@).len() == 0 {
        Some("upstream `"@ + name + "`: consistent_hashing requires a non-empty `hash_header`"@)
    } else {
        None
    }
}

/// The first thing wrong with the upstreams.
pub open spec fn upstreams_problem(upstreams: Seq<(Seq<char>, Arc<UpstreamConfig>)>) -> Option<
    Seq<char>,
>
    decreases upstreams.len(),
{
    if upstreams.len() == 0 {
        None
    } else if upstream_problem(upstreams[0].0, *upstreams[0].1) is Some {
        upstream_problem(upstreams[0].0, *upstreams[0].1)
    } else {
        upstreams_problem(upstreams.skip(1))
    }
}

/// What is wrong with a route by itself.
pub open spec fn route_problem(
    route: RouteConfig,
    upstreams: Seq<(Seq<char>, Arc<UpstreamConfig>)>,
) -> Option<Seq<char>> {
    if trimmed(route.id@).len() == 0 {
        Some("every route must have a non-empty `id`"@)
    } else if !has_name(upstreams, route.upstream@) {
        Some(
            "route `"@ + route.id@ + "` references unknown upstream `"@ + route.upstream@ + "`"@,
        )
    } else if route.match_.path matches PathMatch::Regex { pattern }
        && compiled_regex(pattern@) is Err {
        Some(
            "route `"@ + route.id@ + "` has invalid path regex `"@ + route.match_.path->pattern@
                + "`: "@ + regex_error_message(
                compiled_regex(route.match_.path->pattern@)->Err_0,
            ),
        )
    } else {
        None
    }
}

/// The first thing wrong with the routes, each by itself.
pub open spec fn routes_problem(
    routes: Seq<Arc<RouteConfig>>,
    upstreams: Seq<(Seq<char>, Arc<UpstreamConfig>)>,
) -> Option<Seq<char>>
    decreases routes.len(),
{
    if routes.len() == 0 {
        None
    } else if route_problem(*routes[0], upstreams) is Some {
        route_problem(*routes[0], upstreams)
    } else {
        routes_problem(routes.skip(1), upstreams)
    }
}

/// Whether one of the first `n` routes has the identifier `id`.
pub open spec fn id_taken(routes: Seq<Arc<RouteConfig>>, n: int, id: Seq<char>) -> bool {
    exists|j: int| 0 <= j < n && (#[trigger] routes[j]).id@ == id
}

/// The first route, from the `n`th on, whose identifier a route before it has.
pub open spec fn duplicate_problem(routes: Seq<Arc<RouteConfig>>, n: int) -> Option<Seq<char>>
    decreases routes.len() - n,
{
    if n >= routes.len() {
        None
    } else if id_taken(routes, n, routes[n].id@) {
        Some(
            "duplicate route id `"@ + routes[n].id@ + "` — each route must have a unique id"@,
        )
    } else {
        duplicate_problem(routes, n + 1)
    }
}

/// The first route that refers to a rate-limit policy that is not there.
pub open spec fn policy_problem(
    routes: Seq<Arc<RouteConfig>>,
    policies: Seq<(Seq<char>, RateLimitPolicy)>,
) -> Option<Seq<char>>
    decreases routes.len(),
{
    if routes.len() == 0 {
        None
    } else if routes[0].middleware.rate_limit matches Some(rl) && !has_name(policies, rl.policy@) {
        Some(
            "route `"@ + routes[0].id@ + "` references unknown rate-limit policy `"@
                + routes[0].middleware.rate_limit->0.policy@ + "`"@,
        )
    } else {
        policy_problem(routes.skip(1), policies)
    }
}

/// The first thing wrong with a configuration.
pub open spec fn problem(cfg: GatewayConfig) -> Option<Seq<char>> {
    let upstreams = cfg.upstreams.pairs();
    if upstreams_problem(upstreams) is Some {
        upstreams_problem(upstreams)
    } else if routes_problem(cfg.routes@, upstreams) is Some {
        routes_problem(cfg.routes@, upstreams)
    } else if duplicate_problem(cfg.routes@, 0) is Some {
        duplicate_problem(cfg.routes@, 0)
    } else {
        policy_problem(cfg.routes@, cfg.rate_limiting.policies.pairs())
    }
}

/// Whether a result says what `what` says: nothing wrong, or a validation error with that
/// message.
pub open spec fn reports(r: Result<(), ConfigError>, what: Option<Seq<char>>) -> bool {
    match r {
        Ok(_) => what is None,
        Err(e) => e matches ConfigError::Validation(m) && what == Some(m@),
    }
}

// ── Checks ──────────────────────────────────────────────────────────────────

fn is_blank(s: &str) -> (r: bool)
    ensures
        r == (trimmed(s@).len() == 0),
{
    let t = trim(s);
    let rest = t.as_str();
    rest.is_empty()
}

fn validate_weights(name: &str, endpoints: &Vec<EndpointConfig>) -> (r: Result<(), ConfigError>)
    ensures
        reports(r, weight_problem(name@, endpoints@)),
{
    proof {
        assert(endpoints@.skip(0) == endpoints@);
    }
    for i in 0..endpoints.len()
        invariant
            weight_problem(name@, endpoints@) == weight_problem(name@, endpoints@.skip(i as int)),
    {
        proof {
            assert(endpoints@.skip(i as int)[0] == endpoints@[i as int]);
            assert(endpoints@.skip(i as int).skip(1) == endpoints@.skip(i + 1));
        }
        let ep = &endpoints[i];
        if ep.weight == 0 {
            let head = join3("upstream `", name, "` endpoint `");
            return Err(
                ConfigError::Validation(
                    join3(
                        head.as_str(),
                        ep.address.as_str(),
                        "` has weight 0 — use `active: false` to disable",
                    ),
                ),
            );
        }
    }
    Ok(())
}

fn validate_upstream(name: &str, upstream: &UpstreamConfig) -> (r: Result<(), ConfigError>)
    ensures
        reports(r, upstream_problem(name@, *upstream)),
{
    if upstream.endpoints.len() == 0 {
        return Err(
            ConfigError::Validation(join3("upstream `", name, "` must have at least one endpoint")),
        );
    }
    if let Err(e) = validate_weights(name, &upstream.endpoints) {
        return Err(e);
    }
    if let LoadBalancingConfig::ConsistentHashing { hash_header, .. } = &upstream.load_balancing {
        if is_blank(hash_header.as_str()) {
            return Err(
                ConfigError::Validation(
                    join3(
                        "upstream `",
                        name,
                        "`: consistent_hashing requires a non-empty `hash_header`",
                    ),
                ),
            );
        }
    }
    Ok(())
}

fn validate_upstreams(cfg: &GatewayConfig) -> (r: Result<(), ConfigError>)
    ensures
        reports(r, upstreams_problem(cfg.upstreams.pairs())),
{
    let ghost pairs = cfg.upstreams.pairs();
    let n: usize = cfg.upstreams.len();
    proof {
        assert(pairs.skip(0) == pairs);
    }
    for i in 0..n
        invariant
            pairs == cfg.upstreams.pairs(),
            n == pairs.len(),
            upstreams_problem(pairs) == upstreams_problem(pairs.skip(i as int)),
    {
        proof {
            assert(pairs.skip(i as int)[0] == pairs[i as int]);
            assert(pairs.skip(i as int).skip(1) == pairs.skip(i + 1));
        }
        if let Err(e) = validate_upstream(cfg.upstreams.name_at(i), cfg.upstreams.value_at(i)) {
            return Err(e);
        }
    }
    Ok(())
}

fn validate_route(route: &RouteConfig, upstreams: &NameMap<Arc<UpstreamConfig>>) -> (r: Result<
    (),
    ConfigError,
>)
    ensures
        reports(r, route_problem(*route, upstreams.pairs())),
{
    if is_blank(route.id.as_str()) {
        return Err(
            ConfigError::Validation("every route must have a non-empty `id`".to_owned()),
        );
    }
    if !upstreams.contains_key(route.upstream.as_str()) {
        let head = join3("route `", route.id.as_str(), "` references unknown upstream `");
        return Err(
            ConfigError::Validation(join3(head.as_str(), route.upstream.as_str(), "`")),
        );
    }
    if let PathMatch::Regex { pattern } = &route.match_.path {
        if let Err(e) = compile(pattern.as_str()) {
            let head = join3("route `", route.id.as_str(), "` has invalid path regex `");
            let body = join3(head.as_str(), pattern.as_str(), "`: ");
            let tail = error_text(&e);
            return Err(ConfigError::Validation(join(body.as_str(), tail.as_str())));
        }
    }
    Ok(())
}

fn validate_routes(cfg: &GatewayConfig) -> (r: Result<(), ConfigError>)
    ensures
        reports(
            r,
            if routes_problem(cfg.routes@, cfg.upstreams.pairs()) is Some {
                routes_problem(cfg.routes@, cfg.upstreams.pairs())
            } else {
                duplicate_problem(cfg.routes@, 0)
            },
        ),
{
    let ghost routes = cfg.routes@;
    let ghost upstreams = cfg.upstreams.pairs();
    proof {
        assert(routes.skip(0) == routes);
    }
    for i in 0..cfg.routes.len()
        invariant
            routes == cfg.routes@,
            upstreams == cfg.upstreams.pairs(),
            routes_problem(routes, upstreams) == routes_problem(routes.skip(i as int), upstreams),
    {
        proof {
            assert(routes.skip(i as int)[0] == routes[i as int]);
            assert(routes.skip(i as int).skip(1) == routes.skip(i + 1));
        }
        if let Err(e) = validate_route(&cfg.routes[i], &cfg.upstreams) {
            return Err(e);
        }
    }
    for n in 0..cfg.routes.len()
        invariant
            routes == cfg.routes@,
            upstreams == cfg.upstreams.pairs(),
            routes_problem(routes, upstreams) is None,
            duplicate_problem(routes, 0) == duplicate_problem(routes, n as int),
    {
        let id = cfg.routes[n].id.as_str();
        for j in 0..n
            invariant
                routes == cfg.routes@,
                upstreams == cfg.upstreams.pairs(),
                routes_problem(routes, upstreams) is None,
                duplicate_problem(routes, 0) == duplicate_problem(routes, n as int),
                n < routes.len(),
                id@ == routes[n as int].id@,
                forall|k: int| 0 <= k < j ==> (#[trigger] routes[k]).id@ != id@,
        {
            if same(cfg.routes[j].id.as_str(), id) {
                proof {
                    assert(id_taken(routes, n as int, id@));
                }
                return Err(
                    ConfigError::Validation(
                        join3(
                            "duplicate route id `",
                            id,
                            "` — each route must have a unique id",
                        ),
                    ),
                );
            }
        }
    }
    Ok(())
}

fn validate_rate_limit_refs(cfg: &GatewayConfig) -> (r: Result<(), ConfigError>)
    ensures
        reports(r, policy_problem(cfg.routes@, cfg.rate_limiting.policies.pairs())),
{
    let ghost routes = cfg.routes@;
    let ghost policies = cfg.rate_limiting.policies.pairs();
    proof {
        assert(routes.skip(0) == routes);
    }
    for i in 0..cfg.routes.len()
        invariant
            routes == cfg.routes@,
            policies == cfg.rate_limiting.policies.pairs(),
            policy_problem(routes, policies) == policy_problem(routes.skip(i as int), policies),
    {
        proof {
            assert(routes.skip(i as int)[0] == routes[i as int]);
            assert(routes.skip(i as int).skip(1) == routes.skip(i + 1));
        }
        let route = &cfg.routes[i];
        if let Some(rl) = &route.middleware.rate_limit {
            if !cfg.rate_limiting.policies.contains_key(rl.policy.as_str()) {
                let head = join3(
                    "route `",
                    route.id.as_str(),
                    "` references unknown rate-limit policy `",
                );
                return Err(
                    ConfigError::Validation(join3(head.as_str(), rl.policy.as_str(), "`")),
                );
            }
        }
    }
    Ok(())
}

/// Check a configuration, and report the first thing wrong with it.
pub fn validate(cfg: &GatewayConfig) -> (r: Result<(), ConfigError>)
    ensures
        reports(r, problem(*cfg)),
{
    if let Err(e) = validate_upstreams(cfg) {
        return Err(e);
    }
    if let Err(e) = validate_routes(cfg) {
        return Err(e);
    }
    validate_rate_limit_refs(cfg)
}

// ── Laws ────────────────────────────────────────────────────────────────────

pub proof fn lemma_routes_sound(
    routes: Seq<Arc<RouteConfig>>,
    upstreams: Seq<(Seq<char>, Arc<UpstreamConfig>)>,
)
    requires
        routes_problem(routes, upstreams) is None,
    ensures
        forall|i: int|
            0 <= i < routes.len() ==> route_problem(*(#[trigger] routes[i]), upstreams) is None,
        first_invalid(routes) == routes.len(),
    decreases routes.len(),
{
    if routes.len() > 0 {
        lemma_routes_sound(routes.skip(1), upstreams);
        assert forall|i: int| 0 <= i < routes.len() implies route_problem(
            *(#[trigger] routes[i]),
            upstreams,
        ) is None by {
            if i > 0 {
                assert(routes.skip(1)[i - 1] == routes[i]);
            }
        }
        assert(route_problem(*routes[0], upstreams) is None);
    }
}

proof fn lemma_ids_distinct(routes: Seq<Arc<RouteConfig>>, n: int)
    requires
        0 <= n,
        duplicate_problem(routes, n) is None,
    ensures
        forall|i: int, j: int|
            0 <= i < j < routes.len() && n <= j ==> (#[trigger] routes[i]).id@ != (
            #[trigger] routes[j]).id@,
    decreases routes.len() - n,
{
    if n < routes.len() {
        lemma_ids_distinct(routes, n + 1);
        assert(!id_taken(routes, n, routes[n].id@));
    }
}

/// In a configuration without problems every route leads to an upstream that is there,
/// and no two routes share an identifier.
pub proof fn law_valid_routes_are_unambiguous(cfg: GatewayConfig, i: int, j: int)
    requires
        problem(cfg) is None,
        0 <= i < j < cfg.routes@.len(),
    ensures
        has_name(cfg.upstreams.pairs(), cfg.routes@[i].upstream@),
        has_name(cfg.upstreams.pairs(), cfg.routes@[j].upstream@),
        cfg.routes@[i].id@ != cfg.routes@[j].id@,
{
    lemma_routes_sound(cfg.routes@, cfg.upstreams.pairs());
    lemma_ids_distinct(cfg.routes@, 0);
    assert(route_problem(*cfg.routes@[i], cfg.upstreams.pairs()) is None);
    assert(route_problem(*cfg.routes@[j], cfg.upstreams.pairs()) is None);
}

/// A routing table can be built for every configuration without problems.
pub proof fn law_valid_configuration_routes(cfg: GatewayConfig)
    requires
        problem(cfg) is None,
    ensures
        first_invalid(cfg.routes@) == cfg.routes@.len(),
{
    lemma_routes_sound(cfg.routes@, cfg.upstreams.pairs());
}

proof fn lemma_weights(name: Seq<char>, endpoints: Seq<EndpointConfig>)
    ensures
        weight_problem(name, endpoints) is None <==> forall|i: int|
            0 <= i < endpoints.len() ==> (#[trigger] endpoints[i]).weight > 0,
    decreases endpoints.len(),
{
    if endpoints.len() > 0 {
        let rest = endpoints.skip(1);
        lemma_weights(name, rest);
        if endpoints[0].weight > 0 {
            if weight_problem(name, rest) is None {
                assert forall|i: int| 0 <= i < endpoints.len() implies (
                #[trigger] endpoints[i]).weight > 0 by {
                    if i > 0 {
                        assert(rest[i - 1] == endpoints[i]);
                    }
                }
            } else {
                let i = choose|i: int| 0 <= i < rest.len() && (#[trigger] rest[i]).weight == 0;
                assert(endpoints[i + 1] == rest[i]);
            }
        }
    }
}

/// Nothing is wrong with an upstream exactly if it has an endpoint, each of its endpoints has a
/// weight, and the header that it hashes by, if it hashes, has a name.
pub proof fn law_valid_upstreams(name: Seq<char>, upstream: UpstreamConfig)
    ensures
        upstream_problem(name, upstream) is None <==> {
            &&& upstream.endpoints@.len() > 0
            &&& forall|i: int|
                0 <= i < upstream.endpoints@.len() ==> (#[trigger] upstream.endpoints@[i]).weight
                    > 0
            &&& upstream.load_balancing matches LoadBalancingConfig::ConsistentHashing {
                hash_header,
                ..
            } ==> trimmed(hash_header@).len() > 0
        },
{
    lemma_weights(name, upstream.endpoints@);
}

/// Nothing is wrong with a route by itself exactly if it has an identifier that is not blank,
/// leads to an upstream that is there, and its pattern, if it has one, compiles.
pub proof fn law_valid_routes(
    route: RouteConfig,
    upstreams: Seq<(Seq<char>, Arc<UpstreamConfig>)>,
)
    ensures
        route_problem(route, upstreams) is None <==> {
            &&& trimmed(route.id@).len() > 0
            &&& exists|i: int| 0 <= i < upstreams.len() && (#[trigger] upstreams[i]).0
                == route.upstream@
            &&& route.match_.path matches PathMatch::Regex { pattern } ==> compiled_regex(pattern@)
                is Ok
        },
{
    law_first_entry_is_found(upstreams, route.upstream@, 0);
}

proof fn lemma_upstreams(upstreams: Seq<(Seq<char>, Arc<UpstreamConfig>)>)
    ensures
        upstreams_problem(upstreams) is None <==> forall|i: int|
            0 <= i < upstreams.len() ==> upstream_problem(
                (#[trigger] upstreams[i]).0,
                *upstreams[i].1,
            ) is None,
    decreases upstreams.len(),
{
    if upstreams.len() > 0 {
        let rest = upstreams.skip(1);
        lemma_upstreams(rest);
        if upstreams_problem(upstreams) is None {
            assert forall|i: int| 0 <= i < upstreams.len() implies upstream_problem(
                (#[trigger] upstreams[i]).0,
                *upstreams[i].1,
            ) is None by {
                if i > 0 {
                    assert(rest[i - 1] == upstreams[i]);
                }
            }
        } else if upstreams_problem(rest) is Some {
            let i = choose|i: int|
                0 <= i < rest.len() && upstream_problem((#[trigger] rest[i]).0, *rest[i].1) is Some;
            assert(upstreams[i + 1] == rest[i]);
        } else {
            assert(upstream_problem(upstreams[0].0, *upstreams[0].1) is Some);
        }
    }
}

proof fn lemma_routes(
    routes: Seq<Arc<RouteConfig>>,
    upstreams: Seq<(Seq<char>, Arc<UpstreamConfig>)>,
)
    ensures
        routes_problem(routes, upstreams) is None <==> forall|i: int|
            0 <= i < routes.len() ==> route_problem(*(#[trigger] routes[i]), upstreams) is None,
    decreases routes.len(),
{
    if routes_problem(routes, upstreams) is None {
        lemma_routes_sound(routes, upstreams);
    } else {
        let rest = routes.skip(1);
        lemma_routes(rest, upstreams);
        if routes_problem(rest, upstreams) is Some {
            let i = choose|i: int|
                0 <= i < rest.len() && route_problem(*(#[trigger] rest[i]), upstreams) is Some;
            assert(routes[i + 1] == rest[i]);
        } else {
            assert(route_problem(*routes[0], upstreams) is Some);
        }
    }
}

proof fn lemma_duplicates(routes: Seq<Arc<RouteConfig>>, n: int)
    requires
        0 <= n,
    ensures
        duplicate_problem(routes, n) is None <==> forall|i: int, j: int|
            0 <= i < j < routes.len() && n <= j ==> (#[trigger] routes[i]).id@ != (
            #[trigger] routes[j]).id@,
    decreases routes.len() - n,
{
    if duplicate_problem(routes, n) is None {
        lemma_ids_distinct(routes, n);
    } else if id_taken(routes, n, routes[n].id@) {
        let j = choose|j: int| 0 <= j < n && (#[trigger] routes[j]).id@ == routes[n].id@;
        assert(routes[j].id@ == routes[n].id@);
    } else {
        lemma_duplicates(routes, n + 1);
    }
}

proof fn lemma_policies(
    routes: Seq<Arc<RouteConfig>>,
    policies: Seq<(Seq<char>, RateLimitPolicy)>,
)
    ensures
        policy_problem(routes, policies) is None <==> forall|i: int|
            0 <= i < routes.len() ==> ((
            #[trigger] routes[i]).middleware.rate_limit matches Some(rl) ==> has_name(
                policies,
                rl.policy@,
            )),
    decreases routes.len(),
{
    if routes.len() > 0 {
        let rest = routes.skip(1);
        lemma_policies(rest, policies);
        if routes[0].middleware.rate_limit matches Some(rl) ==> has_name(policies, rl.policy@) {
            if policy_problem(rest, policies) is None {
                assert forall|i: int| 0 <= i < routes.len() implies ((
                #[trigger] routes[i]).middleware.rate_limit matches Some(rl) ==> has_name(
                    policies,
                    rl.policy@,
                )) by {
                    if i > 0 {
                        assert(rest[i - 1] == routes[i]);
                    }
                }
            } else {
                let i = choose|i: int|
                    0 <= i < rest.len() && !((
                    #[trigger] rest[i]).middleware.rate_limit matches Some(rl) ==> has_name(
                        policies,
                        rl.policy@,
                    ));
                assert(routes[i + 1] == rest[i]);
            }
        }
    }
}

/// Nothing is wrong with a configuration exactly if nothing is wrong with any of its upstreams
/// and routes, no two of its routes share an identifier, and every rate-limit policy that a
/// route refers to is there.
pub proof fn law_valid_configurations(cfg: GatewayConfig)
    ensures
        problem(cfg) is None <==> {
            let upstreams = cfg.upstreams.pairs();
            let routes = cfg.routes@;
            let policies = cfg.rate_limiting.policies.pairs();
            &&& forall|i: int|
                0 <= i < upstreams.len() ==> upstream_problem(
                    (#[trigger] upstreams[i]).0,
                    *upstreams[i].1,
                ) is None
            &&& forall|i: int|
                0 <= i < routes.len() ==> route_problem(*(#[trigger] routes[i]), upstreams) is None
            &&& forall|i: int, j: int|
                0 <= i < j < routes.len() ==> (#[trigger] routes[i]).id@ != (
                #[trigger] routes[j]).id@
            &&& forall|i: int|
                0 <= i < routes.len() ==> ((
                #[trigger] routes[i]).middleware.rate_limit matches Some(rl) ==> has_name(
                    policies,
                    rl.policy@,
                ))
        },
{
    lemma_upstreams(cfg.upstreams.pairs());
    lemma_routes(cfg.routes@, cfg.upstreams.pairs());
    lemma_duplicates(cfg.routes@, 0);
    lemma_policies(cfg.routes@, cfg.rate_limiting.policies.pairs());
}

/// Of several things that are wrong the first is reported: those of the upstreams go before
/// those of the routes, those of single routes before identifiers that are taken twice, and
/// policies that are not there come last.
pub proof fn law_first_problem_is_reported(cfg: GatewayConfig)
    ensures
        ({
            let upstreams = upstreams_problem(cfg.upstreams.pairs());
            let routes = routes_problem(cfg.routes@, cfg.upstreams.pairs());
            let duplicates = duplicate_problem(cfg.routes@, 0);
            let policies = policy_problem(cfg.routes@, cfg.rate_limiting.policies.pairs());
            &&& upstreams is Some ==> problem(cfg) == upstreams
            &&& upstreams is None && routes is Some ==> problem(cfg) == routes
            &&& upstreams is None && routes is None && duplicates is Some ==> problem(cfg)
                == duplicates
            &&& upstreams is None && routes is None && duplicates is None ==> problem(cfg)
                == policies
        }),
{
}

/// Among the upstreams, and among the routes, the first one with something wrong is the one
/// that is reported.
pub proof fn law_first_one_wrong_is_reported(
    upstreams: Seq<(Seq<char>, Arc<UpstreamConfig>)>,
    routes: Seq<Arc<RouteConfig>>,
    i: int,
)
    ensures
        0 <= i < upstreams.len() && upstream_problem(upstreams[i].0, *upstreams[i].1) is Some && (
        forall|j: int|
            0 <= j < i ==> upstream_problem((#[trigger] upstreams[j]).0, *upstreams[j].1) is None)
            ==> upstreams_problem(upstreams) == upstream_problem(upstreams[i].0, *upstreams[i].1),
        0 <= i < routes.len() && route_problem(*routes[i], upstreams) is Some && (forall|j: int|
            0 <= j < i ==> route_problem(*(#[trigger] routes[j]), upstreams) is None)
            ==> routes_problem(routes, upstreams) == route_problem(*routes[i], upstreams),
{
    if 0 <= i < upstreams.len() && (forall|j: int|
        0 <= j < i ==> upstream_problem((#[trigger] upstreams[j]).0, *upstreams[j].1) is None) {
        lemma_first_upstream(upstreams, i);
    }
    if 0 <= i < routes.len() && (forall|j: int|
        0 <= j < i ==> route_problem(*(#[trigger] routes[j]), upstreams) is None) {
        lemma_first_route(routes, upstreams, i);
    }
}

proof fn lemma_first_upstream(upstreams: Seq<(Seq<char>, Arc<UpstreamConfig>)>, i: int)
    requires
        0 <= i < upstreams.len(),
        forall|j: int|
            0 <= j < i ==> upstream_problem((#[trigger] upstreams[j]).0, *upstreams[j].1) is None,
    ensures
        upstream_problem(upstreams[i].0, *upstreams[i].1) is Some ==> upstreams_problem(upstreams)
            == upstream_problem(upstreams[i].0, *upstreams[i].1),
    decreases upstreams.len(),
{
    if i > 0 {
        let rest = upstreams.skip(1);
        assert forall|j: int| 0 <= j < i - 1 implies upstream_problem(
            (#[trigger] rest[j]).0,
            *rest[j].1,
        ) is None by {
            assert(rest[j] == upstreams[j + 1]);
        }
        assert(upstream_problem(upstreams[0].0, *upstreams[0].1) is None);
        lemma_first_upstream(rest, i - 1);
    }
}

proof fn lemma_first_route(
    routes: Seq<Arc<RouteConfig>>,
    upstreams: Seq<(Seq<char>, Arc<UpstreamConfig>)>,
    i: int,
)
    requires
        0 <= i < routes.len(),
        forall|j: int| 0 <= j < i ==> route_problem(*(#[trigger] routes[j]), upstreams) is None,
    ensures
        route_problem(*routes[i], upstreams) is Some ==> routes_problem(routes, upstreams)
            == route_problem(*routes[i], upstreams),
    decreases routes.len(),
{
    if i > 0 {
        let rest = routes.skip(1);
        assert forall|j: int| 0 <= j < i - 1 implies route_problem(
            *(#[trigger] rest[j]),
            upstreams,
        ) is None by {
            assert(rest[j] == routes[j + 1]);
        }
        assert(route_problem(*routes[0], upstreams) is None);
        lemma_first_route(rest, upstreams, i - 1);
    }
}

/// A configuration passes exactly if there is nothing to report; else the report is the error.
pub proof fn law_problems_are_errors(r: Result<(), ConfigError>, what: Option<Seq<char>>)
    requires
        reports(r, what),
    ensures
        r is Ok <==> what is None,
        what matches Some(text) ==> (r matches Err(ConfigError::Validation(m)) && m@ == text),
{
}

} // verus!
