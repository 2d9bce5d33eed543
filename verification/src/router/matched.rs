//! The outcome of a successful match.

use std::sync::Arc;

use vstd::prelude::*;

use crate::config::schema::RouteConfig;

verus! {

/// A route that applies to a request.
///
/// It shares the route, so it stays valid while a reload replaces the routing table.
#[derive(Debug)]
pub struct MatchedRoute {
    pub route: Arc<RouteConfig>,
    /// The named groups of a regular expression, with the parts of the path they took.
    /// Empty for prefix and exact routes.
    pub path_params: Vec<(String, String)>,
}

/// Names and values as texts.
pub open spec fn param_texts(params: Seq<(String, String)>) -> Seq<(Seq<char>, Seq<char>)> {
    params.map_values(|p: (String, String)| (p.0@, p.1@))
}

impl MatchedRoute {
    /// A match without parameters.
    pub fn new(route: Arc<RouteConfig>) -> (r: Self)
        ensures
            r.route == route,
            r.path_params@.len() == 0,
    {
        MatchedRoute { route, path_params: Vec::new() }
    }

    /// A match with parameters.
    pub fn with_params(route: Arc<RouteConfig>, params: Vec<(String, String)>) -> (r: Self)
        ensures
            r.route == route,
            r.path_params == params,
    {
        MatchedRoute { route, path_params: params }
    }

    /// The name of the upstream that the request goes to.
    pub fn upstream(&self) -> (r: &str)
        ensures
            r@ == self.route.upstream@,
    {
        self.route.upstream.as_str()
    }

    /// The identifier of the route.
    pub fn route_id(&self) -> (r: &str)
        ensures
            r@ == self.route.id@,
    {
        self.route.id.as_str()
    }
}

} // verus!
