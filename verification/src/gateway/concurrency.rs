//! Admission: how many requests may be in flight.
//!
//! A request takes a permit of the whole gateway first, then one of its route, never the
//! other way round: so two requests cannot wait for each other.

use std::time::Duration;

use vstd::prelude::*;

use crate::clock::duration_nanos;
use crate::config::schema::{GatewayConfig, RouteConfig};
use crate::gateway::response::{service_unavailable, unavailable_view, GatewayResponse, ResponseView};
use crate::names::{law_entries_are_found, lemma_position, lookup, with_entry, NameMap};

verus! {

/// How many requests may be in flight: on the whole, and on single routes.
///
/// Routes without a limit of their own only take from the whole.
#[derive(Debug)]
pub struct ConcurrencyLimiter {
    global: usize,
    routes: NameMap<usize>,
    acquire_timeout: Duration,
}

/// What came of waiting for a permit.
#[derive(Debug, Clone, Copy, PartialEq, Eq, Structural)]
pub enum PermitEvent {
    Acquired,
    /// The gateway is shutting down.
    Closed,
    /// The time to wait is over.
    TimedOut,
}

/// Which limit refused a request.
#[derive(Debug, Clone, Copy, PartialEq, Eq, Structural)]
pub enum RefusedBy {
    Global,
    Route,
    Shutdown,
}

/// What admission needs next.
#[derive(Debug)]
pub enum Admission {
    /// A permit of the whole gateway has to be waited for.
    NeedsGlobal,
    /// A permit of the route has to be waited for.
    NeedsRoute { limit: usize },
    Admitted,
    Refused { by: RefusedBy, response: GatewayResponse },
}

/// What admission needs next.
pub enum AdmissionView {
    NeedsGlobal,
    NeedsRoute(usize),
    Admitted,
    Refused(RefusedBy, ResponseView),
}

impl Admission {
    pub open spec fn view(&self) -> AdmissionView {
        match self {
            Admission::NeedsGlobal => AdmissionView::NeedsGlobal,
            Admission::NeedsRoute { limit } => AdmissionView::NeedsRoute(*limit),
            Admission::Admitted => AdmissionView::Admitted,
            Admission::Refused { by, response } => AdmissionView::Refused(*by, response.view()),
        }
    }
}

/// The limits of the first `n` routes, each under the name of its route; of two routes of
/// the same name the later counts.
pub open spec fn limits_upto(routes: Seq<std::sync::Arc<RouteConfig>>, n: int) -> Seq<
    (Seq<char>, usize),
>
    decreases n,
{
    if n <= 0 {
        Seq::empty()
    } else {
        let before = limits_upto(routes, n - 1);
        match routes[n - 1].max_concurrent_requests {
            Some(limit) => with_entry(before, routes[n - 1].id@, limit),
            None => before,
        }
    }
}

/// What follows after waiting for a permit of the whole gateway.
pub open spec fn after_global(route_limit: Option<usize>, event: PermitEvent) -> AdmissionView {
    match event {
        PermitEvent::Acquired => match route_limit {
            Some(limit) => AdmissionView::NeedsRoute(limit),
            None => AdmissionView::Admitted,
        },
        PermitEvent::Closed => AdmissionView::Refused(
            RefusedBy::Shutdown,
            unavailable_view("gateway shutting down"@),
        ),
        PermitEvent::TimedOut => AdmissionView::Refused(
            RefusedBy::Global,
            unavailable_view("server concurrency limit exceeded"@),
        ),
    }
}

/// What follows after waiting for a permit of the route.
pub open spec fn after_route(event: PermitEvent) -> AdmissionView {
    match event {
        PermitEvent::Acquired => AdmissionView::Admitted,
        PermitEvent::Closed => AdmissionView::Refused(
            RefusedBy::Shutdown,
            unavailable_view("gateway shutting down"@),
        ),
        PermitEvent::TimedOut => AdmissionView::Refused(
            RefusedBy::Route,
            unavailable_view("route concurrency limit exceeded"@),
        ),
    }
}

/// How admission ends, after waiting for the permits that it asks for.
pub open spec fn admission_end(
    route_limit: Option<usize>,
    global: PermitEvent,
    route: PermitEvent,
) -> AdmissionView {
    match after_global(route_limit, global) {
        AdmissionView::NeedsRoute(_) => after_route(route),
        state => state,
    }
}

impl ConcurrencyLimiter {
    /// The most requests in flight on the whole.
    pub closed spec fn global(&self) -> usize {
        self.global
    }

    /// The routes with a limit of their own, and their limits.
    pub closed spec fn limits(&self) -> Seq<(Seq<char>, usize)> {
        self.routes.pairs()
    }

    /// How long a request waits for a permit, in nanoseconds.
    pub closed spec fn patience(&self) -> nat {
        duration_nanos(self.acquire_timeout)
    }

    /// The limits of a configuration.
    pub fn build(cfg: &GatewayConfig) -> (r: Self)
        ensures
            r.global() == cfg.listener.max_concurrent_requests,
            r.limits() == limits_upto(cfg.routes@, cfg.routes@.len() as int),
            r.patience() == cfg.listener.concurrency_acquire_timeout_ms * 1_000_000,
    {
        let mut routes: NameMap<usize> = NameMap::new();
        for i in 0..cfg.routes.len()
            invariant
                routes.pairs() == limits_upto(cfg.routes@, i as int),
        {
            let route = &cfg.routes[i];
            if let Some(limit) = route.max_concurrent_requests {
                routes.insert(route.id.clone(), limit);
            }
        }
        ConcurrencyLimiter {
            global: cfg.listener.max_concurrent_requests,
            routes,
            acquire_timeout: Duration::from_millis(cfg.listener.concurrency_acquire_timeout_ms),
        }
    }

    /// The most requests in flight on the whole.
    pub fn global_limit(&self) -> (r: usize)
        ensures
            r == self.global(),
    {
        self.global
    }

    /// The number of routes with a limit of their own.
    pub fn routes_with_limits(&self) -> (r: usize)
        ensures
            r == self.limits().len(),
    {
        self.routes.len()
    }

    /// The name and the limit of a route with one, by its position among them.
    pub fn route_limit_at(&self, i: usize) -> (r: (&str, usize))
        requires
            i < self.limits().len(),
        ensures
            r.0@ == self.limits()[i as int].0,
            r.1 == self.limits()[i as int].1,
    {
        (self.routes.name_at(i), *self.routes.value_at(i))
    }

    /// The limit of a route, if it has one of its own.
    pub fn route_limit(&self, route_id: &str) -> (r: Option<usize>)
        ensures
            r == lookup(self.limits(), route_id@),
    {
        match self.routes.get(route_id) {
            Some(limit) => Some(*limit),
            None => None,
        }
    }

    /// How long a request waits for a permit.
    pub fn acquire_timeout(&self) -> (r: Duration)
        ensures
            duration_nanos(r) == self.patience(),
    {
        self.acquire_timeout
    }

    /// Begin to admit a request.
    pub fn begin(&self) -> (r: Admission)
        ensures
            r.view() == AdmissionView::NeedsGlobal,
    {
        Admission::NeedsGlobal
    }

    /// Go on after waiting for a permit of the whole gateway.
    pub fn global_answered(&self, route_id: &str, event: PermitEvent) -> (r: Admission)
        ensures
            r.view() == after_global(lookup(self.limits(), route_id@), event),
    {
        match event {
            PermitEvent::Acquired => match self.route_limit(route_id) {
                Some(limit) => Admission::NeedsRoute { limit },
                None => Admission::Admitted,
            },
            PermitEvent::Closed => Admission::Refused {
                by: RefusedBy::Shutdown,
                response: service_unavailable("gateway shutting down"),
            },
            PermitEvent::TimedOut => Admission::Refused {
                by: RefusedBy::Global,
                response: service_unavailable("server concurrency limit exceeded"),
            },
        }
    }

    /// Go on after waiting for a permit of the route.
    pub fn route_answered(&self, event: PermitEvent) -> (r: Admission)
        ensures
            r.view() == after_route(event),
    {
        match event {
            PermitEvent::Acquired => Admission::Admitted,
            PermitEvent::Closed => Admission::Refused {
                by: RefusedBy::Shutdown,
                response: service_unavailable("gateway shutting down"),
            },
            PermitEvent::TimedOut => Admission::Refused {
                by: RefusedBy::Route,
                response: service_unavailable("route concurrency limit exceeded"),
            },
        }
    }
}

impl ConcurrencyLimiter {
    /// Admit a request, given what comes of waiting for a permit of the whole gateway and, where
    /// it comes to that, for one of its route.
    pub fn acquire(&self, route_id: &str, global: PermitEvent, route: PermitEvent) -> (r: Result<
        (),
        (RefusedBy, GatewayResponse),
    >)
        ensures
            match admission_end(lookup(self.limits(), route_id@), global, route) {
                AdmissionView::Admitted => r is Ok,
                AdmissionView::Refused(by, view) => r matches Err(refusal) && refusal.0 == by
                    && refusal.1.view() == view,
                _ => false,
            },
    {
        let end = match self.global_answered(route_id, global) {
            Admission::NeedsRoute { .. } => self.route_answered(route),
            state => state,
        };
        match end {
            Admission::Refused { by, response } => Err((by, response)),
            _ => Ok(()),
        }
    }
}

// ── Laws ────────────────────────────────────────────────────────────────────

/// A request is admitted exactly if it got a permit of the whole gateway, and one of its
/// route where that has a limit.
pub proof fn law_admission_takes_every_permit(
    route_limit: Option<usize>,
    global: PermitEvent,
    route: PermitEvent,
)
    ensures
        ({
            let end = admission_end(route_limit, global, route);
            &&& end is Admitted <==> global == PermitEvent::Acquired && (route_limit is Some
                ==> route == PermitEvent::Acquired)
            &&& end is Admitted || end is Refused
        }),
{
}

/// The free permits of the whole gateway and of a route.
pub struct FreePermits {
    pub global: nat,
    pub route: nat,
}

/// Whether waiting for a permit of `free` ones can end so: one is got only where one is free.
pub open spec fn can_happen(event: PermitEvent, free: nat) -> bool {
    event == PermitEvent::Acquired ==> free > 0
}

/// Whether a request takes a permit of the whole gateway on its way, and whether it takes one
/// of its route.
pub open spec fn takes(
    route_limit: Option<usize>,
    global: PermitEvent,
    route: PermitEvent,
) -> (bool, bool) {
    (
        global == PermitEvent::Acquired,
        after_global(route_limit, global) is NeedsRoute && route == PermitEvent::Acquired,
    )
}

/// The free permits while a request holds those that it took.
pub open spec fn while_held(free: FreePermits, taken: (bool, bool)) -> FreePermits {
    FreePermits {
        global: (free.global - if taken.0 {
            1int
        } else {
            0
        }) as nat,
        route: (free.route - if taken.1 {
            1int
        } else {
            0
        }) as nat,
    }
}

/// The free permits once a request gives back those that it took.
pub open spec fn once_given_back(free: FreePermits, taken: (bool, bool)) -> FreePermits {
    FreePermits {
        global: free.global + if taken.0 {
            1nat
        } else {
            0
        },
        route: free.route + if taken.1 {
            1nat
        } else {
            0
        },
    }
}

/// The free permits after admission: a request that is admitted holds what it took, and one
/// that is refused gives back what it took.
pub open spec fn after_admission(
    free: FreePermits,
    route_limit: Option<usize>,
    global: PermitEvent,
    route: PermitEvent,
) -> FreePermits {
    let taken = takes(route_limit, global, route);
    if admission_end(route_limit, global, route) is Admitted {
        while_held(free, taken)
    } else {
        once_given_back(while_held(free, taken), taken)
    }
}

/// A request that is refused leaves the free permits as they were, also if only its route had
/// none left. One that is admitted holds a permit of the whole gateway, and one of its route
/// where that has a limit; once it gives them back, as many are free as before.
pub proof fn law_refusals_leave_the_permits(
    free: FreePermits,
    route_limit: Option<usize>,
    global: PermitEvent,
    route: PermitEvent,
)
    requires
        can_happen(global, free.global),
        can_happen(route, free.route),
    ensures
        ({
            let after = after_admission(free, route_limit, global, route);
            let end = admission_end(route_limit, global, route);
            &&& end is Refused ==> after == free
            &&& end is Admitted ==> {
                &&& after.global == free.global - 1
                &&& after.route == free.route - if route_limit is Some {
                    1int
                } else {
                    0
                }
                &&& once_given_back(after, takes(route_limit, global, route)) == free
            }
        }),
{
}

/// Where a permit that is free is got, a request is admitted exactly if a permit of the whole
/// gateway is free, and one of its route where that has a limit. It holds these until it gives
/// them back. Any other is answered 503, told to try again in a second, and leaves the free
/// permits as they were.
pub proof fn law_acquire_takes_all_or_nothing(
    free: FreePermits,
    route_limit: Option<usize>,
    global: PermitEvent,
    route: PermitEvent,
)
    requires
        global == PermitEvent::Acquired <==> free.global > 0,
        route == PermitEvent::Acquired <==> free.route > 0,
    ensures
        ({
            let end = admission_end(route_limit, global, route);
            let after = after_admission(free, route_limit, global, route);
            let taken = takes(route_limit, global, route);
            &&& end is Admitted <==> free.global > 0 && (route_limit is Some ==> free.route > 0)
            &&& end is Admitted ==> {
                &&& after.global == free.global - 1
                &&& after.route == free.route - if route_limit is Some {
                    1int
                } else {
                    0
                }
                &&& once_given_back(after, taken) == free
            }
            &&& !(end is Admitted) ==> {
                &&& after == free
                &&& end matches AdmissionView::Refused(by, response) && response.status == 503
                    && response.headers.contains(("Retry-After"@, "1"@))
            }
        }),
{
    law_refusals_leave_the_permits(free, route_limit, global, route);
    law_refusals_are_unavailable(route_limit, global);
    law_refusals_are_unavailable(route_limit, route);
}

/// A request that is not admitted is answered 503, and told to try again in a second.
pub proof fn law_refusals_are_unavailable(route_limit: Option<usize>, event: PermitEvent)
    ensures
        after_global(route_limit, event) matches AdmissionView::Refused(by, response) ==> (
        response.status == 503 && response.headers.contains(("Retry-After"@, "1"@))),
        after_route(event) matches AdmissionView::Refused(by, response) ==> (response.status == 503
            && response.headers.contains(("Retry-After"@, "1"@))),
{
    assert forall|m: Seq<char>|
        (#[trigger] unavailable_view(m)).headers.contains(("Retry-After"@, "1"@)) by {
        let h = unavailable_view(m).headers;
        assert(h[1] == ("Retry-After"@, "1"@));
    }
}

/// A refusal names the limit that the request waited for in vain, or the shutdown, and tells
/// the client which.
pub proof fn law_refusals_name_their_limit(
    route_limit: Option<usize>,
    global: PermitEvent,
    route: PermitEvent,
)
    ensures
        ({
            let end = admission_end(route_limit, global, route);
            &&& global == PermitEvent::TimedOut ==> end == AdmissionView::Refused(
                RefusedBy::Global,
                unavailable_view("server concurrency limit exceeded"@),
            )
            &&& global == PermitEvent::Closed ==> end == AdmissionView::Refused(
                RefusedBy::Shutdown,
                unavailable_view("gateway shutting down"@),
            )
            &&& global == PermitEvent::Acquired && route_limit is Some && route
                == PermitEvent::TimedOut ==> end == AdmissionView::Refused(
                RefusedBy::Route,
                unavailable_view("route concurrency limit exceeded"@),
            )
            &&& global == PermitEvent::Acquired && route_limit is Some && route
                == PermitEvent::Closed ==> end == AdmissionView::Refused(
                RefusedBy::Shutdown,
                unavailable_view("gateway shutting down"@),
            )
        }),
{
}

/// A permit of the route is waited for only once a permit of the whole gateway is held, only
/// where the route has a limit, and it is one of that limit.
pub proof fn law_whole_gateway_comes_first(route_limit: Option<usize>, event: PermitEvent)
    ensures
        after_global(route_limit, event) is NeedsRoute <==> event == PermitEvent::Acquired
            && route_limit is Some,
        after_global(route_limit, event) matches AdmissionView::NeedsRoute(limit) ==> route_limit
            == Some(limit),
        after_global(route_limit, event) is Admitted <==> event == PermitEvent::Acquired
            && route_limit is None,
        !(after_global(route_limit, event) is NeedsGlobal),
{
}

proof fn lemma_limits_upto(routes: Seq<std::sync::Arc<RouteConfig>>, n: int, id: Seq<char>)
    requires
        0 <= n <= routes.len(),
    ensures
        (forall|j: int| 0 <= j < n ==> (#[trigger] routes[j]).id@ != id) ==> lookup(
            limits_upto(routes, n),
            id,
        ) is None,
    decreases n,
{
    if n > 0 {
        lemma_limits_upto(routes, n - 1, id);
        if let Some(limit) = routes[n - 1].max_concurrent_requests {
            law_entries_are_found(limits_upto(routes, n - 1), routes[n - 1].id@, limit, id);
        }
    } else {
        lemma_position(limits_upto(routes, n), id, 0);
    }
}

/// Where no two routes have the same name, each has the limit that it is configured with, and
/// none if it is configured with none.
pub proof fn law_routes_have_their_limits(
    routes: Seq<std::sync::Arc<RouteConfig>>,
    n: int,
    i: int,
)
    requires
        0 <= i < n <= routes.len(),
        forall|j: int, k: int|
            0 <= j < k < routes.len() ==> (#[trigger] routes[j]).id@ != (#[trigger] routes[k]).id@,
    ensures
        lookup(limits_upto(routes, n), routes[i].id@) == routes[i].max_concurrent_requests,
    decreases n,
{
    let last = routes[n - 1];
    if i < n - 1 {
        law_routes_have_their_limits(routes, n - 1, i);
        if let Some(limit) = last.max_concurrent_requests {
            law_entries_are_found(limits_upto(routes, n - 1), last.id@, limit, routes[i].id@);
        }
    } else {
        lemma_limits_upto(routes, n - 1, routes[i].id@);
        if let Some(limit) = last.max_concurrent_requests {
            law_entries_are_found(limits_upto(routes, n - 1), last.id@, limit, last.id@);
        }
    }
}

} // verus!
