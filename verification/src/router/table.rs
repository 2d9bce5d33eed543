//! The routing table.

use std::sync::Arc;

use http::{HeaderMap, Method};
use regex::Regex;
use vstd::prelude::*;

use crate::config::schema::{GatewayConfig, PathMatch, RouteConfig};
use crate::pattern::{compile, compiled_regex, group_names, groups, optional_texts};
use crate::router::choice::{
    accepts, chosen, exact_routes, first_accepting, first_regex, is_exact, is_prefix, longest_prefix,
    named_groups, prefix_routes, regex_routes, request_view, RequestView,
};
use crate::router::error::RouterError;
use crate::router::matched::{param_texts, MatchedRoute};
use crate::router::path::{
    lemma_tail_shorter, normalise_path, path_segments, segments, split_first_segment,
};
use crate::router::predicate::matches_predicates;
use crate::router::trie::{child_at, TrieNode};

verus! {

// ── The table ───────────────────────────────────────────────────────────────

/// Whether `e` reports the first route whose pattern does not compile.
pub open spec fn reports_invalid(routes: Seq<Arc<RouteConfig>>, e: RouterError) -> bool {
    let bad = first_invalid(routes);
    &&& 0 <= bad < routes.len()
    &&& e matches RouterError::InvalidRegex { pattern, source }
        && routes[bad].match_.path matches PathMatch::Regex { pattern: p } && pattern@ == p@
        && compiled_regex(p@) == Err::<Regex, regex::Error>(source)
}

/// A route with its regular expression compiled.
struct CompiledRoute {
    route: Arc<RouteConfig>,
    regex: Regex,
}

/// The routing table: built once for a configuration, then only read.
pub struct Router {
    exact_trie: TrieNode,
    prefix_trie: TrieNode,
    regex_routes: Vec<CompiledRoute>,
    declared: Ghost<Seq<Arc<RouteConfig>>>,
}

spec fn compiled_as(compiled: Seq<CompiledRoute>, routes: Seq<Arc<RouteConfig>>) -> bool {
    &&& compiled.len() == routes.len()
    &&& forall|i: int|
        0 <= i < routes.len() ==> {
            &&& (#[trigger] compiled[i]).route == routes[i]
            &&& routes[i].match_.path matches PathMatch::Regex { pattern } && compiled_regex(
                pattern@,
            ) == Ok::<Regex, regex::Error>(compiled[i].regex)
        }
}

spec fn holds(
    exact: TrieNode,
    prefix: TrieNode,
    compiled: Seq<CompiledRoute>,
    routes: Seq<Arc<RouteConfig>>,
) -> bool {
    &&& exact.wf()
    &&& prefix.wf()
    &&& forall|segs: Seq<Seq<char>>| #[trigger] exact.routes_at(segs) == exact_routes(routes, segs)
    &&& forall|segs: Seq<Seq<char>>| #[trigger]
        prefix.routes_at(segs) == prefix_routes(routes, segs)
    &&& compiled_as(compiled, regex_routes(routes))
}

/// The number of routes before the first whose pattern does not compile.
pub open spec fn first_invalid(routes: Seq<Arc<RouteConfig>>) -> int
    decreases routes.len(),
{
    if routes.len() == 0 {
        0
    } else if routes[0].match_.path matches PathMatch::Regex { pattern } && compiled_regex(
        pattern@,
    ) is Err {
        0
    } else {
        1 + first_invalid(routes.skip(1))
    }
}

proof fn lemma_first_invalid(routes: Seq<Arc<RouteConfig>>, n: int)
    requires
        0 <= n <= routes.len(),
        forall|i: int|
            0 <= i < n ==> ((#[trigger] routes[i]).match_.path matches PathMatch::Regex { pattern }
                ==> compiled_regex(pattern@) is Ok),
        n < routes.len() ==> (routes[n].match_.path matches PathMatch::Regex { pattern }
            && compiled_regex(pattern@) is Err),
    ensures
        first_invalid(routes) == n,
    decreases routes.len(),
{
    if n > 0 {
        assert forall|i: int| 0 <= i < n - 1 implies ((
        #[trigger] routes.skip(1)[i]).match_.path matches PathMatch::Regex { pattern }
            ==> compiled_regex(pattern@) is Ok) by {
            assert(routes.skip(1)[i] == routes[i + 1]);
        }
        assert(routes[0].match_.path matches PathMatch::Regex { pattern } ==> compiled_regex(
            pattern@,
        ) is Ok);
        lemma_first_invalid(routes.skip(1), n - 1);
    }
}

proof fn lemma_filter_next(
    routes: Seq<Arc<RouteConfig>>,
    i: int,
    keep: spec_fn(Arc<RouteConfig>) -> bool,
)
    requires
        0 <= i < routes.len(),
    ensures
        routes.take(i + 1).filter(keep) == if keep(routes[i]) {
            routes.take(i).filter(keep).push(routes[i])
        } else {
            routes.take(i).filter(keep)
        },
{
    reveal(Seq::filter);
    assert(routes.take(i + 1).drop_last() == routes.take(i));
}

/// Whether the request meets the conditions of the route.
fn accepts_request(route: &Arc<RouteConfig>, method: &Method, headers: &HeaderMap) -> (r: bool)
    ensures
        r == accepts(*route, request_view(*method, *headers)),
{
    let wanted = match &route.match_.method {
        Some(m) => Some(m.as_str()),
        None => None,
    };
    matches_predicates(wanted, &route.match_.headers, method, headers)
}

/// The first of `routes` whose conditions the request meets.
fn pick(routes: &[Arc<RouteConfig>], method: &Method, headers: &HeaderMap) -> (r: Option<
    Arc<RouteConfig>,
>)
    ensures
        r == first_accepting(routes@, request_view(*method, *headers)),
{
    let ghost req = request_view(*method, *headers);
    proof {
        assert(routes@.skip(0) == routes@);
    }
    for i in 0..routes.len()
        invariant
            req == request_view(*method, *headers),
            first_accepting(routes@, req) == first_accepting(routes@.skip(i as int), req),
    {
        let route = &routes[i];
        proof {
            assert(routes@.skip(i as int)[0] == routes@[i as int]);
            assert(routes@.skip(i as int).skip(1) == routes@.skip(i + 1));
        }
        if accepts_request(route, method, headers) {
            return Some(Arc::clone(route));
        }
    }
    None
}

/// The search of `longest_prefix`, in a trie from one of its nodes.
spec fn longest_below(node: TrieNode, segs: Seq<Seq<char>>, req: RequestView) -> Option<
    Arc<RouteConfig>,
>
    decreases segs.len(),
{
    let i = child_at(node.children@, segs[0]);
    if segs.len() > 0 && i < node.children@.len() {
        let deeper = longest_below(node.children@[i], segs.skip(1), req);
        if deeper is Some {
            deeper
        } else {
            first_accepting(node.routes@, req)
        }
    } else {
        first_accepting(node.routes@, req)
    }
}

/// `longest_prefix` over the routes of a trie.
spec fn longest_at(node: TrieNode, segs: Seq<Seq<char>>, n: nat, req: RequestView) -> Option<
    Arc<RouteConfig>,
>
    decreases n,
{
    let here = first_accepting(node.routes_at(segs.take(n as int)), req);
    if here is Some || n == 0 {
        here
    } else {
        longest_at(node, segs, (n - 1) as nat, req)
    }
}

proof fn lemma_longest_at_child(node: TrieNode, segs: Seq<Seq<char>>, n: nat, req: RequestView)
    requires
        1 <= n <= segs.len(),
    ensures
        ({
            let i = child_at(node.children@, segs[0]);
            let own = first_accepting(node.routes@, req);
            if i < node.children@.len() {
                let deeper = longest_at(node.children@[i], segs.skip(1), (n - 1) as nat, req);
                longest_at(node, segs, n, req) == if deeper is Some {
                    deeper
                } else {
                    own
                }
            } else {
                longest_at(node, segs, n, req) == own
            }
        }),
    decreases n,
{
    let i = child_at(node.children@, segs[0]);
    assert(segs.take(n as int)[0] == segs[0]);
    assert(segs.take(n as int).skip(1) == segs.skip(1).take(n - 1));
    if n == 1 {
        assert(longest_at(node, segs, 0, req) == first_accepting(node.routes@, req));
    } else {
        lemma_longest_at_child(node, segs, (n - 1) as nat, req);
    }
}

proof fn lemma_longest_below(node: TrieNode, segs: Seq<Seq<char>>, req: RequestView)
    ensures
        longest_below(node, segs, req) == longest_at(node, segs, segs.len(), req),
    decreases segs.len(),
{
    if segs.len() > 0 {
        let i = child_at(node.children@, segs[0]);
        lemma_longest_at_child(node, segs, segs.len(), req);
        if i < node.children@.len() {
            lemma_longest_below(node.children@[i], segs.skip(1), req);
        }
    } else {
        assert(node.routes_at(segs.take(0)) == node.routes@);
    }
}

proof fn lemma_longest_at_declared(
    node: TrieNode,
    routes: Seq<Arc<RouteConfig>>,
    segs: Seq<Seq<char>>,
    n: nat,
    req: RequestView,
)
    requires
        forall|t: Seq<Seq<char>>| #[trigger] node.routes_at(t) == prefix_routes(routes, t),
    ensures
        longest_at(node, segs, n, req) == longest_prefix(routes, segs, n, req),
    decreases n,
{
    if n > 0 {
        lemma_longest_at_declared(node, routes, segs, (n - 1) as nat, req);
    }
}

/// The prefix route with the longest prefix whose conditions the request meets, from
/// `node` down.
fn pick_longest(node: &TrieNode, path: &str, method: &Method, headers: &HeaderMap) -> (r: Option<
    Arc<RouteConfig>,
>)
    requires
        node.wf(),
    ensures
        r == longest_below(*node, segments(path@), request_view(*method, *headers)),
    decreases path@.len(),
{
    if !path.is_empty() {
        let (head, tail) = split_first_segment(path);
        proof {
            lemma_tail_shorter(path@);
            assert(segments(path@).skip(1) == segments(tail@));
        }
        if let Some(child) = node.child(head.as_str()) {
            if let Some(route) = pick_longest(child, tail.as_str(), method, headers) {
                return Some(route);
            }
        }
    }
    pick(node.routes.as_slice(), method, headers)
}

/// The named groups that took part in a match, with what they took.
pub fn collect_params(names: &Vec<Option<String>>, texts: &Vec<Option<String>>) -> (r: Vec<
    (String, String),
>)
    ensures
        param_texts(r@) == named_groups(optional_texts(names@), optional_texts(texts@)),
{
    let ghost all_names = optional_texts(names@);
    let ghost all_texts = optional_texts(texts@);
    let mut params: Vec<(String, String)> = Vec::new();
    let mut i: usize = 0;
    proof {
        assert(all_names.skip(0) == all_names);
        assert(all_texts.skip(0) == all_texts);
        assert(param_texts(params@) + named_groups(all_names, all_texts) == named_groups(
            all_names,
            all_texts,
        ));
    }
    while i < names.len() && i < texts.len()
        invariant
            all_names == optional_texts(names@),
            all_texts == optional_texts(texts@),
            i <= names@.len(),
            i <= texts@.len(),
            param_texts(params@) + named_groups(all_names.skip(i as int), all_texts.skip(i as int))
                == named_groups(all_names, all_texts),
        decreases names@.len() - i,
    {
        let ghost done = params@;
        proof {
            assert(all_names.skip(i as int)[0] == all_names[i as int]);
            assert(all_texts.skip(i as int)[0] == all_texts[i as int]);
            assert(all_names.skip(i as int).skip(1) == all_names.skip(i + 1));
            assert(all_texts.skip(i as int).skip(1) == all_texts.skip(i + 1));
        }
        if let Some(name) = &names[i] {
            if let Some(text) = &texts[i] {
                params.push((name.clone(), text.clone()));
                proof {
                    let rest = named_groups(all_names.skip(i + 1), all_texts.skip(i + 1));
                    assert(param_texts(params@) == param_texts(done).push((name@, text@)));
                    assert(param_texts(done) + (seq![(name@, text@)] + rest) == param_texts(
                        params@,
                    ) + rest);
                }
            }
        }
        i = i + 1;
    }
    proof {
        assert(param_texts(params@) + Seq::empty() == param_texts(params@));
    }
    params
}

impl Router {
    /// The routes that the table was built from, in the order in which they are declared.
    pub closed spec fn routes(&self) -> Seq<Arc<RouteConfig>> {
        self.declared@
    }

    #[verifier::type_invariant]
    spec fn holds_its_routes(&self) -> bool {
        holds(self.exact_trie, self.prefix_trie, self.regex_routes@, self.declared@)
    }

    /// Build the table for a configuration. Fails on the first route whose pattern is no
    /// regular expression.
    pub fn build(cfg: &GatewayConfig) -> (r: Result<Self, RouterError>)
        ensures
            match r {
                Ok(router) => {
                    &&& first_invalid(cfg.routes@) == cfg.routes@.len()
                    &&& router.routes() == cfg.routes@
                },
                Err(e) => reports_invalid(cfg.routes@, e),
            },
    {
        let mut exact_trie = TrieNode::default();
        let mut prefix_trie = TrieNode::default();
        let mut compiled: Vec<CompiledRoute> = Vec::new();
        let ghost routes = cfg.routes@;
        proof {
            lemma_holds_empty(exact_trie, prefix_trie, routes);
        }
        for i in 0..cfg.routes.len()
            invariant
                routes == cfg.routes@,
                holds(exact_trie, prefix_trie, compiled@, routes.take(i as int)),
                forall|j: int|
                    0 <= j < i ==> ((
                    #[trigger] routes[j]).match_.path matches PathMatch::Regex { pattern }
                        ==> compiled_regex(pattern@) is Ok),
        {
            let route = &cfg.routes[i];
            let ghost exact_before = exact_trie;
            let ghost prefix_before = prefix_trie;
            let ghost compiled_before = compiled@;
            match &route.match_.path {
                PathMatch::Exact { value } => {
                    let path = normalise_path(value.as_str());
                    exact_trie.insert_prefix(path.as_str(), Arc::clone(route));
                },
                PathMatch::Prefix { value } => {
                    let path = normalise_path(value.as_str());
                    prefix_trie.insert_prefix(path.as_str(), Arc::clone(route));
                },
                PathMatch::Regex { pattern } => match compile(pattern.as_str()) {
                    Ok(regex) => {
                        compiled.push(CompiledRoute { route: Arc::clone(route), regex });
                    },
                    Err(source) => {
                        proof {
                            lemma_first_invalid(routes, i as int);
                        }
                        return Err(RouterError::InvalidRegex { pattern: pattern.clone(), source });
                    },
                },
            }
            proof {
                lemma_holds_next(
                    exact_before,
                    exact_trie,
                    prefix_before,
                    prefix_trie,
                    compiled_before,
                    compiled@,
                    routes,
                    i as int,
                );
            }
        }
        proof {
            assert(routes.take(routes.len() as int) == routes);
            lemma_first_invalid(routes, routes.len() as int);
        }
        Ok(Router { exact_trie, prefix_trie, regex_routes: compiled, declared: Ghost(routes) })
    }

    /// Find the route that applies to a request: exact routes first, then prefix routes
    /// from the longest prefix on, then regular expressions.
    pub fn match_request(&self, path: &str, method: &Method, headers: &HeaderMap) -> (r: Result<
        MatchedRoute,
        RouterError,
    >)
        ensures
            match r {
                Ok(m) => chosen(self.routes(), path@, request_view(*method, *headers)) == Some(
                    (m.route, param_texts(m.path_params@)),
                ),
                Err(e) => {
                    &&& chosen(self.routes(), path@, request_view(*method, *headers)) is None
                    &&& e matches RouterError::NoMatch(p) && p@ == path@
                },
            },
    {
        proof {
            use_type_invariant(self);
        }
        let ghost req = request_view(*method, *headers);
        let ghost routes = self.declared@;
        let ghost segs = path_segments(path@);
        let normal = normalise_path(path);

        if let Some(route) = pick(self.exact_trie.exact_routes(normal.as_str()), method, headers) {
            let m = MatchedRoute::new(route);
            proof {
                assert(param_texts(m.path_params@) == Seq::<(Seq<char>, Seq<char>)>::empty());
            }
            return Ok(m);
        }
        proof {
            lemma_longest_below(self.prefix_trie, segs, req);
            lemma_longest_at_declared(self.prefix_trie, routes, segs, segs.len(), req);
        }
        if let Some(route) = pick_longest(&self.prefix_trie, normal.as_str(), method, headers) {
            let m = MatchedRoute::new(route);
            proof {
                assert(param_texts(m.path_params@) == Seq::<(Seq<char>, Seq<char>)>::empty());
            }
            return Ok(m);
        }
        let ghost rest = regex_routes(routes);
        proof {
            assert(rest.skip(0) == rest);
        }
        for i in 0..self.regex_routes.len()
            invariant
                req == request_view(*method, *headers),
                routes == self.routes(),
                rest == regex_routes(routes),
                segs == path_segments(path@),
                compiled_as(self.regex_routes@, rest),
                first_accepting(exact_routes(routes, segs), req) is None,
                longest_prefix(routes, segs, segs.len(), req) is None,
                first_regex(rest, path@, req) == first_regex(rest.skip(i as int), path@, req),
        {
            let compiled = &self.regex_routes[i];
            proof {
                assert(compiled_as(self.regex_routes@, rest));
                assert(self.regex_routes@[i as int].route == rest[i as int]);
                assert(rest.skip(i as int)[0] == rest[i as int]);
                assert(rest.skip(i as int).skip(1) == rest.skip(i + 1));
            }
            if let Some(texts) = groups(&compiled.regex, path) {
                if accepts_request(&compiled.route, method, headers) {
                    let names = group_names(&compiled.regex);
                    let params = collect_params(&names, &texts);
                    return Ok(MatchedRoute::with_params(Arc::clone(&compiled.route), params));
                }
            }
        }
        Err(RouterError::NoMatch(path.to_owned()))
    }
}

proof fn lemma_holds_empty(exact: TrieNode, prefix: TrieNode, routes: Seq<Arc<RouteConfig>>)
    requires
        exact.wf(),
        prefix.wf(),
        forall|segs: Seq<Seq<char>>| (#[trigger] exact.routes_at(segs)).len() == 0,
        forall|segs: Seq<Seq<char>>| (#[trigger] prefix.routes_at(segs)).len() == 0,
    ensures
        holds(exact, prefix, Seq::empty(), routes.take(0)),
{
    reveal(Seq::filter);
    assert forall|segs: Seq<Seq<char>>| #[trigger]
        exact.routes_at(segs) == exact_routes(routes.take(0), segs) by {
        assert(exact.routes_at(segs) == Seq::<Arc<RouteConfig>>::empty());
    }
    assert forall|segs: Seq<Seq<char>>| #[trigger]
        prefix.routes_at(segs) == prefix_routes(routes.take(0), segs) by {
        assert(prefix.routes_at(segs) == Seq::<Arc<RouteConfig>>::empty());
    }
}

proof fn lemma_holds_next(
    exact: TrieNode,
    exact_next: TrieNode,
    prefix: TrieNode,
    prefix_next: TrieNode,
    compiled: Seq<CompiledRoute>,
    compiled_next: Seq<CompiledRoute>,
    routes: Seq<Arc<RouteConfig>>,
    i: int,
)
    requires
        0 <= i < routes.len(),
        holds(exact, prefix, compiled, routes.take(i)),
        match routes[i].match_.path {
            PathMatch::Exact { value } => {
                &&& exact_next.wf()
                &&& forall|t: Seq<Seq<char>>| #[trigger]
                    exact_next.routes_at(t) == if t == path_segments(value@) {
                        exact.routes_at(t).push(routes[i])
                    } else {
                        exact.routes_at(t)
                    }
                &&& prefix_next == prefix
                &&& compiled_next == compiled
            },
            PathMatch::Prefix { value } => {
                &&& prefix_next.wf()
                &&& forall|t: Seq<Seq<char>>| #[trigger]
                    prefix_next.routes_at(t) == if t == path_segments(value@) {
                        prefix.routes_at(t).push(routes[i])
                    } else {
                        prefix.routes_at(t)
                    }
                &&& exact_next == exact
                &&& compiled_next == compiled
            },
            PathMatch::Regex { pattern } => {
                &&& exact_next == exact
                &&& prefix_next == prefix
                &&& exists|regex: Regex|
                    compiled_regex(pattern@) == Ok::<Regex, regex::Error>(regex) && compiled_next
                        == compiled.push(CompiledRoute { route: routes[i], regex })
            },
        },
    ensures
        holds(exact_next, prefix_next, compiled_next, routes.take(i + 1)),
{
    assert forall|t: Seq<Seq<char>>| #[trigger]
        exact_next.routes_at(t) == exact_routes(routes.take(i + 1), t) by {
        lemma_filter_next(routes, i, |r: Arc<RouteConfig>| is_exact(r, t));
        assert(exact.routes_at(t) == exact_routes(routes.take(i), t));
    }
    assert forall|t: Seq<Seq<char>>| #[trigger]
        prefix_next.routes_at(t) == prefix_routes(routes.take(i + 1), t) by {
        lemma_filter_next(routes, i, |r: Arc<RouteConfig>| is_prefix(r, t));
        assert(prefix.routes_at(t) == prefix_routes(routes.take(i), t));
    }
    lemma_filter_next(routes, i, |r: Arc<RouteConfig>| r.match_.path is Regex);
}

// ── The table in use ────────────────────────────────────────────────────────

/// The routing table in use. Requests take hold of the current table and keep it to
/// their end; a reload puts a new one in its place.
pub struct RouterHandle {
    inner: Arc<Router>,
}

impl RouterHandle {
    /// The routes of the table in use.
    pub closed spec fn routes(&self) -> Seq<Arc<RouteConfig>> {
        self.inner.routes()
    }

    /// Build the first table.
    pub fn new(cfg: &GatewayConfig) -> (r: Result<Self, RouterError>)
        ensures
            r is Ok <==> first_invalid(cfg.routes@) == cfg.routes@.len(),
            match r {
                Ok(handle) => handle.routes() == cfg.routes@,
                Err(e) => reports_invalid(cfg.routes@, e),
            },
    {
        match Router::build(cfg) {
            Ok(router) => Ok(RouterHandle { inner: Arc::new(router) }),
            Err(e) => Err(e),
        }
    }

    /// The table in use.
    pub fn current(&self) -> (r: Arc<Router>)
        ensures
            r.routes() == self.routes(),
    {
        Arc::clone(&self.inner)
    }

    /// Build a table for a new configuration and put it in place of the one in use. If
    /// that fails, the one in use stays.
    pub fn rebuild(&mut self, cfg: &GatewayConfig) -> (r: Result<(), RouterError>)
        ensures
            r is Ok <==> first_invalid(cfg.routes@) == cfg.routes@.len(),
            match r {
                Ok(_) => final(self).routes() == cfg.routes@,
                Err(e) => reports_invalid(cfg.routes@, e) && *final(self) == *old(self),
            },
    {
        match Router::build(cfg) {
            Ok(router) => {
                self.inner = Arc::new(router);
                Ok(())
            },
            Err(e) => Err(e),
        }
    }
}

// ── Laws ────────────────────────────────────────────────────────────────────

/// A table can be built exactly if every pattern compiles; else the first route whose pattern
/// does not compile is reported, whatever comes after it.
pub proof fn law_first_bad_pattern_is_reported(routes: Seq<Arc<RouteConfig>>, i: int)
    ensures
        (forall|j: int|
            0 <= j < routes.len() ==> ((
            #[trigger] routes[j]).match_.path matches PathMatch::Regex { pattern }
                ==> compiled_regex(pattern@) is Ok)) ==> first_invalid(routes) == routes.len(),
        0 <= i < routes.len() && (routes[i].match_.path matches PathMatch::Regex { pattern }
            && compiled_regex(pattern@) is Err) && (forall|j: int|
            0 <= j < i ==> ((#[trigger] routes[j]).match_.path matches PathMatch::Regex { pattern }
                ==> compiled_regex(pattern@) is Ok)) ==> first_invalid(routes) == i,
{
    if forall|j: int|
        0 <= j < routes.len() ==> ((
        #[trigger] routes[j]).match_.path matches PathMatch::Regex { pattern } ==> compiled_regex(
            pattern@,
        ) is Ok) {
        lemma_first_invalid(routes, routes.len() as int);
    }
    if 0 <= i < routes.len() && (routes[i].match_.path matches PathMatch::Regex { pattern }
        && compiled_regex(pattern@) is Err) && (forall|j: int|
        0 <= j < i ==> ((#[trigger] routes[j]).match_.path matches PathMatch::Regex { pattern }
            ==> compiled_regex(pattern@) is Ok)) {
        lemma_first_invalid(routes, i);
    }
}

} // verus!
