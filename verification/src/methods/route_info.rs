//! The request for a route without a payment, and its answer.

use crate::router::{requested_kind, Router};
use crate::strategy::{hop_views, RouteError, RouteHop, StrategyKind};
use vstd::prelude::*;

verus! {

/// A request for the route to a node.
#[derive(Debug, PartialEq, Eq)]
pub struct BarqRouteInfoRequest {
    pub dest_pubkey: String,
    pub amount_msat: u64,
    pub cltv: u64,
    /// The strategy to route with; `None` asks for the default.
    pub strategy: Option<String>,
}

impl BarqRouteInfoRequest {
    /// The kind of strategy that the request asks for.
    pub fn strategy(&self) -> (r: Result<StrategyKind, RouteError>)
        ensures
            r == requested_kind(
                match self.strategy {
                    Some(s) => Some(s@),
                    None => None,
                },
            ),
    {
        Router::resolve(&self.strategy)
    }
}

/// The answer to a request for a route.
#[derive(Debug, PartialEq, Eq)]
pub struct BarqRouteInfoResponse {
    pub status: String,
    pub message: Option<String>,
    pub route_info: Option<Vec<RouteHop>>,
}

impl BarqRouteInfoResponse {
    /// The answer that hands out a route.
    pub fn found(route: Vec<RouteHop>) -> (r: Self)
        ensures
            r.status@ == "success"@,
            r.message is None,
            r.route_info matches Some(hops) && hop_views(hops@) == hop_views(route@),
    {
        BarqRouteInfoResponse { status: "success".to_owned(), message: None, route_info: Some(route) }
    }

    /// The answer that says why there is no route.
    pub fn failed(error: RouteError) -> (r: Self)
        ensures
            r.status@ == "failure"@,
            r.message matches Some(m) && m@ == error.message_of(),
            r.route_info is None,
    {
        BarqRouteInfoResponse {
            status: "failure".to_owned(),
            message: Some(error.message()),
            route_info: None,
        }
    }
}

} // verus!
