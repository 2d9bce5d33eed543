//! Which route applies to a request.

use std::sync::Arc;

use http::{HeaderMap, Method};
use vstd::prelude::*;

use crate::config::schema::{PathMatch, RouteConfig};
use crate::http_types::{header_contents, method_text};
use crate::pattern::{compiled_regex, regex_group_names, regex_groups};
use crate::router::path::path_segments;
use crate::router::predicate::{headers_accepted, method_accepted};
use crate::text::lower;

verus! {

/// The parts of a request that the conditions of a route speak of: the method and the
/// contents of the headers.
pub struct RequestView {
    pub method: Seq<char>,
    pub headers: Map<Seq<char>, Seq<Seq<u8>>>,
}

/// What the conditions of a route read of a request.
pub open spec fn request_view(method: Method, headers: HeaderMap) -> RequestView {
    RequestView { method: method_text(method), headers: header_contents(headers) }
}

/// Whether the request meets the conditions of a route on method and headers.
pub open spec fn accepts(route: Arc<RouteConfig>, req: RequestView) -> bool {
    &&& method_accepted(
        match route.match_.method {
            Some(m) => Some(m@),
            None => None,
        },
        req.method,
    )
    &&& headers_accepted(route.match_.headers.pairs(), req.headers)
}

/// Whether this is an exact route for `segs`.
pub open spec fn is_exact(route: Arc<RouteConfig>, segs: Seq<Seq<char>>) -> bool {
    route.match_.path matches PathMatch::Exact { value } && path_segments(value@) == segs
}

/// Whether this is a prefix route for `segs`.
pub open spec fn is_prefix(route: Arc<RouteConfig>, segs: Seq<Seq<char>>) -> bool {
    route.match_.path matches PathMatch::Prefix { value } && path_segments(value@) == segs
}

/// The exact routes for `segs`, in the order in which they are declared.
pub open spec fn exact_routes(routes: Seq<Arc<RouteConfig>>, segs: Seq<Seq<char>>) -> Seq<
    Arc<RouteConfig>,
> {
    routes.filter(|r: Arc<RouteConfig>| is_exact(r, segs))
}

/// The prefix routes for `segs`, in the order in which they are declared.
pub open spec fn prefix_routes(routes: Seq<Arc<RouteConfig>>, segs: Seq<Seq<char>>) -> Seq<
    Arc<RouteConfig>,
> {
    routes.filter(|r: Arc<RouteConfig>| is_prefix(r, segs))
}

/// The routes with a regular expression, in the order in which they are declared.
pub open spec fn regex_routes(routes: Seq<Arc<RouteConfig>>) -> Seq<Arc<RouteConfig>> {
    routes.filter(|r: Arc<RouteConfig>| r.match_.path is Regex)
}

/// The first of `routes` whose conditions the request meets.
pub open spec fn first_accepting(routes: Seq<Arc<RouteConfig>>, req: RequestView) -> Option<
    Arc<RouteConfig>,
>
    decreases routes.len(),
{
    if routes.len() == 0 {
        None
    } else if accepts(routes[0], req) {
        Some(routes[0])
    } else {
        first_accepting(routes.skip(1), req)
    }
}

/// Of the prefix routes whose prefix is the first `n` segments of the path or fewer: the
/// first one with the longest prefix whose conditions the request meets.
pub open spec fn longest_prefix(
    routes: Seq<Arc<RouteConfig>>,
    segs: Seq<Seq<char>>,
    n: nat,
    req: RequestView,
) -> Option<Arc<RouteConfig>>
    decreases n,
{
    let here = first_accepting(prefix_routes(routes, segs.take(n as int)), req);
    if here is Some || n == 0 {
        here
    } else {
        longest_prefix(routes, segs, (n - 1) as nat, req)
    }
}

/// The named groups that took part in a match, with what they took.
pub open spec fn named_groups(names: Seq<Option<Seq<char>>>, texts: Seq<Option<Seq<char>>>) -> Seq<
    (Seq<char>, Seq<char>),
>
    decreases names.len(),
{
    if names.len() == 0 || texts.len() == 0 {
        Seq::empty()
    } else {
        let rest = named_groups(names.skip(1), texts.skip(1));
        if names[0] is Some && texts[0] is Some {
            seq![(names[0]->0, texts[0]->0)] + rest
        } else {
            rest
        }
    }
}

/// The parameters that the regular expression of a route takes from the path; none where
/// it does not match.
pub open spec fn regex_params(route: Arc<RouteConfig>, path: Seq<char>) -> Option<
    Seq<(Seq<char>, Seq<char>)>,
> {
    match route.match_.path {
        PathMatch::Regex { pattern } => match compiled_regex(pattern@) {
            Ok(re) => match regex_groups(re, path) {
                Some(texts) => Some(named_groups(regex_group_names(re), texts)),
                None => None,
            },
            Err(_) => None,
        },
        _ => None,
    }
}

/// The first of `routes` whose regular expression matches the path and whose conditions
/// the request meets.
pub open spec fn first_regex(
    routes: Seq<Arc<RouteConfig>>,
    path: Seq<char>,
    req: RequestView,
) -> Option<Arc<RouteConfig>>
    decreases routes.len(),
{
    if routes.len() == 0 {
        None
    } else if regex_params(routes[0], path) is Some && accepts(routes[0], req) {
        Some(routes[0])
    } else {
        first_regex(routes.skip(1), path, req)
    }
}

/// The route that applies to a request, with its parameters: an exact route, else the
/// prefix route with the longest prefix, else a route with a regular expression. Among
/// routes on a par the one declared first applies.
pub open spec fn chosen(
    routes: Seq<Arc<RouteConfig>>,
    path: Seq<char>,
    req: RequestView,
) -> Option<(Arc<RouteConfig>, Seq<(Seq<char>, Seq<char>)>)> {
    let segs = path_segments(path);
    let exact = first_accepting(exact_routes(routes, segs), req);
    let prefix = longest_prefix(routes, segs, segs.len(), req);
    let regex = first_regex(regex_routes(routes), path, req);
    if exact is Some {
        Some((exact->0, Seq::empty()))
    } else if prefix is Some {
        Some((prefix->0, Seq::empty()))
    } else if regex is Some {
        Some((regex->0, regex_params(regex->0, path)->0))
    } else {
        None
    }
}

/// Whether a route applies to a request at all.
pub open spec fn applies(route: Arc<RouteConfig>, path: Seq<char>, req: RequestView) -> bool {
    &&& accepts(route, req)
    &&& {
        ||| is_exact(route, path_segments(path))
        ||| exists|n: int|
            0 <= n <= path_segments(path).len() && is_prefix(
                route,
                #[trigger] path_segments(path).take(n),
            )
        ||| regex_params(route, path) is Some
    }
}

// ── Laws ────────────────────────────────────────────────────────────────────

proof fn lemma_filter(routes: Seq<Arc<RouteConfig>>, keep: spec_fn(Arc<RouteConfig>) -> bool)
    ensures
        forall|r: Arc<RouteConfig>| #[trigger]
            routes.filter(keep).contains(r) <==> routes.contains(r) && keep(r),
    decreases routes.len(),
{
    reveal(Seq::filter);
    if routes.len() > 0 {
        let rest = routes.drop_last();
        lemma_filter(rest, keep);
        assert forall|r: Arc<RouteConfig>| #[trigger]
            routes.filter(keep).contains(r) <==> routes.contains(r) && keep(r) by {
            if routes.contains(r) && r != routes.last() {
                let i = choose|i: int| 0 <= i < routes.len() && routes[i] == r;
                assert(rest[i] == r);
            }
            if rest.contains(r) {
                let i = choose|i: int| 0 <= i < rest.len() && rest[i] == r;
                assert(routes[i] == r);
            }
            let kept = rest.filter(keep);
            assert(kept.contains(r) <==> rest.contains(r) && keep(r));
            assert(routes.contains(routes.last()));
            if keep(routes.last()) {
                assert(routes.filter(keep) == kept.push(routes.last()));
                if kept.push(routes.last()).contains(r) {
                    let i = choose|i: int|
                        0 <= i < kept.len() + 1 && kept.push(routes.last())[i] == r;
                    if i < kept.len() {
                        assert(kept[i] == r);
                    }
                }
                assert(kept.push(routes.last())[kept.len() as int] == routes.last());
                if kept.contains(r) {
                    let i = choose|i: int| 0 <= i < kept.len() && kept[i] == r;
                    assert(kept.push(routes.last())[i] == r);
                }
            }
        }
    }
}

proof fn lemma_first_accepting(routes: Seq<Arc<RouteConfig>>, req: RequestView)
    ensures
        match first_accepting(routes, req) {
            Some(r) => routes.contains(r) && accepts(r, req),
            None => forall|i: int| 0 <= i < routes.len() ==> !accepts(#[trigger] routes[i], req),
        },
    decreases routes.len(),
{
    if routes.len() > 0 {
        if accepts(routes[0], req) {
            assert(routes.contains(routes[0]));
        } else {
            let rest = routes.skip(1);
            lemma_first_accepting(rest, req);
            match first_accepting(rest, req) {
                Some(r) => {
                    let k = choose|k: int| 0 <= k < rest.len() && rest[k] == r;
                    assert(routes[k + 1] == r);
                },
                None => {
                    assert forall|i: int| 0 <= i < routes.len() implies !accepts(
                        #[trigger] routes[i],
                        req,
                    ) by {
                        if i > 0 {
                            assert(rest[i - 1] == routes[i]);
                        }
                    }
                },
            }
        }
    }
}

proof fn lemma_first_regex(routes: Seq<Arc<RouteConfig>>, path: Seq<char>, req: RequestView)
    ensures
        match first_regex(routes, path, req) {
            Some(r) => routes.contains(r) && regex_params(r, path) is Some && accepts(r, req),
            None => forall|i: int|
                0 <= i < routes.len() ==> !(regex_params(#[trigger] routes[i], path) is Some
                    && accepts(routes[i], req)),
        },
    decreases routes.len(),
{
    if routes.len() > 0 {
        if regex_params(routes[0], path) is Some && accepts(routes[0], req) {
            assert(routes.contains(routes[0]));
        } else {
            let rest = routes.skip(1);
            lemma_first_regex(rest, path, req);
            match first_regex(rest, path, req) {
                Some(r) => {
                    let k = choose|k: int| 0 <= k < rest.len() && rest[k] == r;
                    assert(routes[k + 1] == r);
                },
                None => {
                    assert forall|i: int| 0 <= i < routes.len() implies !(regex_params(
                        #[trigger] routes[i],
                        path,
                    ) is Some && accepts(routes[i], req)) by {
                        if i > 0 {
                            assert(rest[i - 1] == routes[i]);
                        }
                    }
                },
            }
        }
    }
}

proof fn lemma_longest_prefix(
    routes: Seq<Arc<RouteConfig>>,
    segs: Seq<Seq<char>>,
    n: nat,
    req: RequestView,
)
    ensures
        match longest_prefix(routes, segs, n, req) {
            Some(r) => exists|m: int|
                {
                    &&& 0 <= m <= n
                    &&& routes.contains(r) && is_prefix(r, #[trigger] segs.take(m)) && accepts(
                        r,
                        req,
                    )
                    &&& forall|i: int, k: int|
                        0 <= i < routes.len() && m < k <= n ==> !(is_prefix(
                            #[trigger] routes[i],
                            #[trigger] segs.take(k),
                        ) && accepts(routes[i], req))
                },
            None => forall|i: int, k: int|
                0 <= i < routes.len() && 0 <= k <= n ==> !(is_prefix(
                    #[trigger] routes[i],
                    #[trigger] segs.take(k),
                ) && accepts(routes[i], req)),
        },
    decreases n,
{
    let list = prefix_routes(routes, segs.take(n as int));
    let keep = |r: Arc<RouteConfig>| is_prefix(r, segs.take(n as int));
    lemma_filter(routes, keep);
    lemma_first_accepting(list, req);
    match first_accepting(list, req) {
        Some(r) => {
            assert(keep(r));
            assert(is_prefix(r, segs.take(n as int)));
        },
        None => {
            assert forall|i: int| 0 <= i < routes.len() implies !(is_prefix(
                #[trigger] routes[i],
                segs.take(n as int),
            ) && accepts(routes[i], req)) by {
                if keep(routes[i]) {
                    assert(list.contains(routes[i]));
                }
            }
            if n > 0 {
                lemma_longest_prefix(routes, segs, (n - 1) as nat, req);
            }
        },
    }
}

/// An exact route whose conditions are met goes before prefix routes and regular
/// expressions.
pub proof fn law_exact_goes_first(
    routes: Seq<Arc<RouteConfig>>,
    path: Seq<char>,
    req: RequestView,
    i: int,
)
    requires
        0 <= i < routes.len(),
        is_exact(routes[i], path_segments(path)),
        accepts(routes[i], req),
    ensures
        chosen(routes, path, req) matches Some((route, params)) && is_exact(
            route,
            path_segments(path),
        ) && accepts(route, req) && params.len() == 0,
{
    let segs = path_segments(path);
    let keep = |r: Arc<RouteConfig>| is_exact(r, segs);
    let list = exact_routes(routes, segs);
    lemma_filter(routes, keep);
    lemma_first_accepting(list, req);
    assert(keep(routes[i]));
    assert(list.contains(routes[i]));
    match first_accepting(list, req) {
        Some(r) => {
            assert(keep(r));
        },
        None => {},
    }
}

proof fn lemma_first_accepting_joined(
    a: Seq<Arc<RouteConfig>>,
    b: Seq<Arc<RouteConfig>>,
    req: RequestView,
)
    ensures
        first_accepting(a + b, req) == if first_accepting(a, req) is Some {
            first_accepting(a, req)
        } else {
            first_accepting(b, req)
        },
    decreases a.len(),
{
    if a.len() > 0 {
        assert((a + b).skip(1) == a.skip(1) + b);
        lemma_first_accepting_joined(a.skip(1), b, req);
    } else {
        assert(a + b == b);
    }
}

proof fn lemma_first_declared(
    routes: Seq<Arc<RouteConfig>>,
    keep: spec_fn(Arc<RouteConfig>) -> bool,
    req: RequestView,
    i: int,
)
    requires
        0 <= i < routes.len(),
        keep(routes[i]),
        accepts(routes[i], req),
        forall|j: int| 0 <= j < i ==> !(keep(#[trigger] routes[j]) && accepts(routes[j], req)),
    ensures
        first_accepting(routes.filter(keep), req) == Some(routes[i]),
{
    let front = routes.take(i);
    let back = routes.skip(i);
    assert(routes == front + back);
    Seq::filter_distributes_over_add(front, back, keep);
    lemma_filter(front, keep);
    lemma_first_accepting(front.filter(keep), req);
    if first_accepting(front.filter(keep), req) is Some {
        let r = first_accepting(front.filter(keep), req)->0;
        let j = choose|j: int| 0 <= j < front.len() && front[j] == r;
        assert(routes[j] == r);
    }
    lemma_first_accepting_joined(front.filter(keep), back.filter(keep), req);
    let one = seq![routes[i]];
    let rest = back.skip(1);
    assert(back == one + rest);
    Seq::filter_distributes_over_add(one, rest, keep);
    assert(one.filter(keep) == one) by {
        reveal_with_fuel(Seq::filter, 2);
        assert(one.drop_last() == Seq::<Arc<RouteConfig>>::empty());
        assert(Seq::<Arc<RouteConfig>>::empty().push(routes[i]) == one);
    }
    lemma_first_accepting_joined(one, rest.filter(keep), req);
}

/// Of several exact routes for the path whose conditions are met, the one declared first
/// is chosen.
pub proof fn law_first_exact_wins(
    routes: Seq<Arc<RouteConfig>>,
    path: Seq<char>,
    req: RequestView,
    i: int,
)
    requires
        0 <= i < routes.len(),
        is_exact(routes[i], path_segments(path)),
        accepts(routes[i], req),
        forall|j: int|
            0 <= j < i ==> !(is_exact(#[trigger] routes[j], path_segments(path)) && accepts(
                routes[j],
                req,
            )),
    ensures
        chosen(routes, path, req) == Some((routes[i], Seq::<(Seq<char>, Seq<char>)>::empty())),
{
    let keep = |r: Arc<RouteConfig>| is_exact(r, path_segments(path));
    lemma_first_declared(routes, keep, req, i);
}

/// Of several routes for the longest prefix whose conditions are met, the one declared
/// first is chosen.
pub proof fn law_first_prefix_wins(
    routes: Seq<Arc<RouteConfig>>,
    path: Seq<char>,
    req: RequestView,
    i: int,
    n: int,
)
    requires
        0 <= i < routes.len(),
        0 <= n <= path_segments(path).len(),
        is_prefix(routes[i], path_segments(path).take(n)),
        accepts(routes[i], req),
        forall|j: int|
            0 <= j < i ==> !(is_prefix(#[trigger] routes[j], path_segments(path).take(n))
                && accepts(routes[j], req)),
        forall|j: int, k: int|
            0 <= j < routes.len() && n < k <= path_segments(path).len() ==> !(is_prefix(
                #[trigger] routes[j],
                #[trigger] path_segments(path).take(k),
            ) && accepts(routes[j], req)),
        forall|j: int|
            0 <= j < routes.len() ==> !(is_exact(#[trigger] routes[j], path_segments(path))
                && accepts(routes[j], req)),
    ensures
        chosen(routes, path, req) == Some((routes[i], Seq::<(Seq<char>, Seq<char>)>::empty())),
{
    let segs = path_segments(path);
    let exact = |r: Arc<RouteConfig>| is_exact(r, segs);
    lemma_filter(routes, exact);
    lemma_first_accepting(exact_routes(routes, segs), req);
    if first_accepting(exact_routes(routes, segs), req) is Some {
        let r = first_accepting(exact_routes(routes, segs), req)->0;
        assert(exact(r));
        let j = choose|j: int| 0 <= j < routes.len() && routes[j] == r;
        assert(is_exact(routes[j], segs));
    }
    let keep = |r: Arc<RouteConfig>| is_prefix(r, segs.take(n));
    lemma_first_declared(routes, keep, req, i);
    lemma_longest_prefix_is(routes, segs, segs.len(), n as nat, req);
}

proof fn lemma_longest_prefix_is(
    routes: Seq<Arc<RouteConfig>>,
    segs: Seq<Seq<char>>,
    from: nat,
    n: nat,
    req: RequestView,
)
    requires
        n <= from,
        first_accepting(prefix_routes(routes, segs.take(n as int)), req) is Some,
        forall|j: int, k: int|
            0 <= j < routes.len() && n < k <= from ==> !(is_prefix(
                #[trigger] routes[j],
                #[trigger] segs.take(k),
            ) && accepts(routes[j], req)),
    ensures
        longest_prefix(routes, segs, from, req) == first_accepting(
            prefix_routes(routes, segs.take(n as int)),
            req,
        ),
    decreases from,
{
    if from > n {
        let keep = |r: Arc<RouteConfig>| is_prefix(r, segs.take(from as int));
        lemma_filter(routes, keep);
        lemma_first_accepting(prefix_routes(routes, segs.take(from as int)), req);
        if first_accepting(prefix_routes(routes, segs.take(from as int)), req) is Some {
            let r = first_accepting(prefix_routes(routes, segs.take(from as int)), req)->0;
            assert(keep(r));
            let j = choose|j: int| 0 <= j < routes.len() && routes[j] == r;
            assert(is_prefix(routes[j], segs.take(from as int)));
        }
        lemma_longest_prefix_is(routes, segs, (from - 1) as nat, n, req);
    }
}

proof fn lemma_first_regex_joined(
    a: Seq<Arc<RouteConfig>>,
    b: Seq<Arc<RouteConfig>>,
    path: Seq<char>,
    req: RequestView,
)
    ensures
        first_regex(a + b, path, req) == if first_regex(a, path, req) is Some {
            first_regex(a, path, req)
        } else {
            first_regex(b, path, req)
        },
    decreases a.len(),
{
    if a.len() > 0 {
        assert((a + b).skip(1) == a.skip(1) + b);
        lemma_first_regex_joined(a.skip(1), b, path, req);
    } else {
        assert(a + b == b);
    }
}

proof fn lemma_first_regex_declared(
    routes: Seq<Arc<RouteConfig>>,
    path: Seq<char>,
    req: RequestView,
    i: int,
)
    requires
        0 <= i < routes.len(),
        regex_params(routes[i], path) is Some,
        accepts(routes[i], req),
        forall|j: int|
            0 <= j < i ==> !(regex_params(#[trigger] routes[j], path) is Some && accepts(
                routes[j],
                req,
            )),
    ensures
        first_regex(regex_routes(routes), path, req) == Some(routes[i]),
{
    let keep = |r: Arc<RouteConfig>| r.match_.path is Regex;
    let front = routes.take(i);
    let back = routes.skip(i);
    assert(routes == front + back);
    Seq::filter_distributes_over_add(front, back, keep);
    lemma_filter(front, keep);
    lemma_first_regex(front.filter(keep), path, req);
    if first_regex(front.filter(keep), path, req) is Some {
        let r = first_regex(front.filter(keep), path, req)->0;
        let j = choose|j: int| 0 <= j < front.len() && front[j] == r;
        assert(routes[j] == r);
    }
    lemma_first_regex_joined(front.filter(keep), back.filter(keep), path, req);
    let one = seq![routes[i]];
    let rest = back.skip(1);
    assert(back == one + rest);
    Seq::filter_distributes_over_add(one, rest, keep);
    assert(one.filter(keep) == one) by {
        reveal_with_fuel(Seq::filter, 2);
        assert(one.drop_last() == Seq::<Arc<RouteConfig>>::empty());
        assert(Seq::<Arc<RouteConfig>>::empty().push(routes[i]) == one);
    }
    lemma_first_regex_joined(one, rest.filter(keep), path, req);
}

proof fn lemma_no_exact_nor_prefix(
    routes: Seq<Arc<RouteConfig>>,
    path: Seq<char>,
    req: RequestView,
)
    requires
        forall|j: int|
            0 <= j < routes.len() ==> !(is_exact(#[trigger] routes[j], path_segments(path))
                && accepts(routes[j], req)),
        forall|j: int, k: int|
            0 <= j < routes.len() && 0 <= k <= path_segments(path).len() ==> !(is_prefix(
                #[trigger] routes[j],
                #[trigger] path_segments(path).take(k),
            ) && accepts(routes[j], req)),
    ensures
        first_accepting(exact_routes(routes, path_segments(path)), req) is None,
        longest_prefix(routes, path_segments(path), path_segments(path).len(), req) is None,
{
    let segs = path_segments(path);
    let exact = |r: Arc<RouteConfig>| is_exact(r, segs);
    lemma_filter(routes, exact);
    lemma_first_accepting(exact_routes(routes, segs), req);
    if first_accepting(exact_routes(routes, segs), req) is Some {
        let r = first_accepting(exact_routes(routes, segs), req)->0;
        assert(exact(r));
        let j = choose|j: int| 0 <= j < routes.len() && routes[j] == r;
        assert(is_exact(routes[j], segs));
    }
    lemma_longest_prefix(routes, segs, segs.len(), req);
    if longest_prefix(routes, segs, segs.len(), req) is Some {
        let r = longest_prefix(routes, segs, segs.len(), req)->0;
        let j = choose|j: int| 0 <= j < routes.len() && routes[j] == r;
        let m = choose|m: int|
            0 <= m <= segs.len() && is_prefix(r, #[trigger] segs.take(m)) && accepts(r, req);
        assert(is_prefix(routes[j], segs.take(m)));
    }
}

/// Where no exact and no prefix route applies, the route that is chosen is the first one
/// declared whose regular expression matches the path and whose conditions are met, with the
/// parameters that its expression takes from the path.
pub proof fn law_first_regex_wins(
    routes: Seq<Arc<RouteConfig>>,
    path: Seq<char>,
    req: RequestView,
    i: int,
)
    requires
        0 <= i < routes.len(),
        regex_params(routes[i], path) is Some,
        accepts(routes[i], req),
        forall|j: int|
            0 <= j < i ==> !(regex_params(#[trigger] routes[j], path) is Some && accepts(
                routes[j],
                req,
            )),
        forall|j: int|
            0 <= j < routes.len() ==> !(is_exact(#[trigger] routes[j], path_segments(path))
                && accepts(routes[j], req)),
        forall|j: int, k: int|
            0 <= j < routes.len() && 0 <= k <= path_segments(path).len() ==> !(is_prefix(
                #[trigger] routes[j],
                #[trigger] path_segments(path).take(k),
            ) && accepts(routes[j], req)),
    ensures
        chosen(routes, path, req) == Some((routes[i], regex_params(routes[i], path)->0)),
{
    lemma_no_exact_nor_prefix(routes, path, req);
    lemma_first_regex_declared(routes, path, req, i);
}

/// Without an exact route, no prefix route whose conditions are met has a longer prefix
/// than the one that is chosen.
pub proof fn law_longest_prefix_wins(
    routes: Seq<Arc<RouteConfig>>,
    path: Seq<char>,
    req: RequestView,
    i: int,
    n: int,
)
    requires
        0 <= i < routes.len(),
        0 <= n <= path_segments(path).len(),
        is_prefix(routes[i], path_segments(path).take(n)),
        accepts(routes[i], req),
        forall|j: int|
            0 <= j < routes.len() ==> !(is_exact(#[trigger] routes[j], path_segments(path))
                && accepts(routes[j], req)),
    ensures
        chosen(routes, path, req) matches Some((route, params)) && accepts(route, req) && exists|
            m: int,
        |
            n <= m <= path_segments(path).len() && is_prefix(
                route,
                #[trigger] path_segments(path).take(m),
            ),
{
    let segs = path_segments(path);
    let keep = |r: Arc<RouteConfig>| is_exact(r, segs);
    let list = exact_routes(routes, segs);
    lemma_filter(routes, keep);
    lemma_first_accepting(list, req);
    match first_accepting(list, req) {
        Some(r) => {
            assert(keep(r));
            assert(routes.contains(r));
        },
        None => {},
    }
    lemma_longest_prefix(routes, segs, segs.len(), req);
    assert(is_prefix(routes[i], segs.take(n)) && accepts(routes[i], req));
}

/// A request goes unmatched exactly if no route applies to it.
pub proof fn law_no_match_only_without_routes(
    routes: Seq<Arc<RouteConfig>>,
    path: Seq<char>,
    req: RequestView,
)
    ensures
        chosen(routes, path, req) is None <==> forall|i: int|
            0 <= i < routes.len() ==> !applies(#[trigger] routes[i], path, req),
{
    let segs = path_segments(path);
    let exact = |r: Arc<RouteConfig>| is_exact(r, segs);
    let regex = |r: Arc<RouteConfig>| r.match_.path is Regex;
    let exacts = exact_routes(routes, segs);
    let regexes = regex_routes(routes);
    lemma_filter(routes, exact);
    lemma_filter(routes, regex);
    lemma_first_accepting(exacts, req);
    lemma_longest_prefix(routes, segs, segs.len(), req);
    lemma_first_regex(regexes, path, req);
    if chosen(routes, path, req) is None {
        assert forall|i: int| 0 <= i < routes.len() implies !applies(
            #[trigger] routes[i],
            path,
            req,
        ) by {
            let r = routes[i];
            if exact(r) {
                assert(exacts.contains(r));
            }
            if regex(r) {
                assert(regexes.contains(r));
            }
            if r.match_.path is Prefix && applies(r, path, req) {
                let n = choose|n: int|
                    0 <= n <= segs.len() && is_prefix(r, #[trigger] segs.take(n));
                assert(is_prefix(routes[i], segs.take(n)));
            }
        }
    } else {
        if first_accepting(exacts, req) is Some {
            let r = first_accepting(exacts, req)->0;
            assert(exact(r));
            let i = choose|i: int| 0 <= i < routes.len() && routes[i] == r;
            assert(applies(routes[i], path, req));
        } else if longest_prefix(routes, segs, segs.len(), req) is Some {
            let r = longest_prefix(routes, segs, segs.len(), req)->0;
            let i = choose|i: int| 0 <= i < routes.len() && routes[i] == r;
            assert(applies(routes[i], path, req));
        } else {
            let r = first_regex(regexes, path, req)->0;
            assert(regex(r));
            let i = choose|i: int| 0 <= i < routes.len() && routes[i] == r;
            assert(applies(routes[i], path, req));
        }
    }
}

/// A route takes a request exactly if the request has the method that the route asks for, in
/// any case, and meets every one of its conditions on headers.
pub proof fn law_conditions_of_a_route(route: Arc<RouteConfig>, req: RequestView)
    ensures
        route.match_.method is None && route.match_.headers.pairs().len() == 0 ==> accepts(
            route,
            req,
        ),
        route.match_.method matches Some(m) ==> (accepts(route, req) <==> lower(m@) == lower(
            req.method,
        ) && headers_accepted(route.match_.headers.pairs(), req.headers)),
        route.match_.method is None ==> (accepts(route, req) <==> headers_accepted(
            route.match_.headers.pairs(),
            req.headers,
        )),
{
}

/// An exact route stands for the paths with the very segments of its own, a prefix route for
/// those that begin with them, segment by segment, and a route with a regular expression for
/// those that the expression matches; a route stands for a path in one way alone.
pub proof fn law_routes_match_by_kind(route: Arc<RouteConfig>, path: Seq<char>)
    ensures
        route.match_.path matches PathMatch::Exact { value } ==> {
            &&& is_exact(route, path_segments(path)) <==> path_segments(value@) == path_segments(path)
            &&& forall|n: int| !is_prefix(route, #[trigger] path_segments(path).take(n))
            &&& regex_params(route, path) is None
        },
        route.match_.path matches PathMatch::Prefix { value } ==> {
            &&& (exists|n: int|
                0 <= n <= path_segments(path).len() && is_prefix(
                    route,
                    #[trigger] path_segments(path).take(n),
                )) <==> path_segments(value@).is_prefix_of(path_segments(path))
            &&& !is_exact(route, path_segments(path))
            &&& regex_params(route, path) is None
        },
        route.match_.path matches PathMatch::Regex { pattern } ==> {
            &&& regex_params(route, path) is Some <==> (compiled_regex(pattern@) matches Ok(re)
                && regex_groups(re, path) is Some)
            &&& !is_exact(route, path_segments(path))
            &&& forall|n: int| !is_prefix(route, #[trigger] path_segments(path).take(n))
        },
{
    if let PathMatch::Prefix { value } = route.match_.path {
        let own = path_segments(value@);
        let segs = path_segments(path);
        if own.is_prefix_of(segs) {
            assert(segs.take(own.len() as int) == own);
        }
    }
}

/// The parameters of a route with a regular expression: each group that has a name and took
/// part in the match, with the text that it took, in the order of the groups, and no other.
pub proof fn law_named_groups_are_parameters(
    names: Seq<Option<Seq<char>>>,
    texts: Seq<Option<Seq<char>>>,
)
    requires
        names.len() == texts.len(),
    ensures
        named_groups(names, texts) == names.zip_with(texts).filter(
            |g: (Option<Seq<char>>, Option<Seq<char>>)| g.0 is Some && g.1 is Some,
        ).map_values(|g: (Option<Seq<char>>, Option<Seq<char>>)| (g.0->0, g.1->0)),
    decreases names.len(),
{
    let keep = |g: (Option<Seq<char>>, Option<Seq<char>>)| g.0 is Some && g.1 is Some;
    let bare = |g: (Option<Seq<char>>, Option<Seq<char>>)| (g.0->0, g.1->0);
    let all = names.zip_with(texts);
    if names.len() == 0 {
        reveal(Seq::filter);
        assert(all.filter(keep).map_values(bare) == Seq::<(Seq<char>, Seq<char>)>::empty());
    } else {
        let rest = names.skip(1).zip_with(texts.skip(1));
        law_named_groups_are_parameters(names.skip(1), texts.skip(1));
        let one = seq![all[0]];
        assert(all == one + rest);
        Seq::filter_distributes_over_add(one, rest, keep);
        assert(one.filter(keep) == if keep(all[0]) {
            one
        } else {
            Seq::empty()
        }) by {
            reveal_with_fuel(Seq::filter, 2);
            assert(one.drop_last() == Seq::<(Option<Seq<char>>, Option<Seq<char>>)>::empty());
            assert(Seq::<(Option<Seq<char>>, Option<Seq<char>>)>::empty().push(all[0]) == one);
        }
        assert((one.filter(keep) + rest.filter(keep)).map_values(bare) == one.filter(
            keep,
        ).map_values(bare) + rest.filter(keep).map_values(bare));
        if keep(all[0]) {
            assert(one.map_values(bare) == seq![(names[0]->0, texts[0]->0)]);
        } else {
            assert(one.filter(keep).map_values(bare) == Seq::<(Seq<char>, Seq<char>)>::empty());
            assert(Seq::<(Seq<char>, Seq<char>)>::empty() + rest.filter(keep).map_values(bare)
                == rest.filter(keep).map_values(bare));
        }
    }
}

/// A route with a regular expression that matches the path hands on the named groups of that
/// expression; an expression that does not compile matches nothing.
pub proof fn law_regex_parameters(route: Arc<RouteConfig>, pattern: String, path: Seq<char>)
    requires
        route.match_.path == (PathMatch::Regex { pattern }),
    ensures
        compiled_regex(pattern@) is Err ==> regex_params(route, path) is None,
        compiled_regex(pattern@) matches Ok(re) ==> (regex_groups(re, path) matches Some(texts)
            ==> regex_params(route, path) == Some(named_groups(regex_group_names(re), texts))),
{
}

} // verus!
