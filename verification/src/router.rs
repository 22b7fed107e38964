//! The router: it picks the strategy that a request names and lets it
//! answer.

use crate::algorithms::dijkstra::{lemma_search_answer_is_cheapest, FeeOnly};
use crate::algorithms::probabilistic::DEFAULT_BASE_PENALTY_MSAT;
use crate::algorithms::{get_algorithm, Algorithm};
use crate::graph::NetworkGraph;
use crate::strategy::{
    check_input, input_error, kind_named, lowercase_of, outcome, Query, RouteError, RouteHopView,
    RouteInput, RouteOutput, Strategy, StrategyKind,
};
use vstd::prelude::*;

verus! {

/// The kind of strategy that a request asks for: the one it names,
/// whatever the case of the name, or the direct one where it names none.
pub open spec fn requested_kind(strategy: Option<Seq<char>>) -> Result<StrategyKind, RouteError> {
    match strategy {
        None => Ok(StrategyKind::Direct),
        Some(name) => match kind_named(lowercase_of(name)) {
            Some(kind) => Ok(kind),
            None => Err(RouteError::UnknownStrategy),
        },
    }
}

/// What the router answers to `q` when it works with `algorithm`: a
/// request that makes no sense is refused first, then one to which the
/// algorithm cannot be applied; what is left the algorithm answers.
pub open spec fn routed_answer(algorithm: Algorithm, q: Query) -> Result<
    Seq<RouteHopView>,
    RouteError,
> {
    if input_error(q) is Some {
        Err(input_error(q).unwrap())
    } else {
        match algorithm.applicable(q) {
            Err(e) => Err(e),
            Ok(false) => Err(RouteError::NotApplicable),
            Ok(true) => algorithm.answer(q),
        }
    }
}

/// `algorithm` is what the registry hands out for `kind`.
pub open spec fn registered(kind: StrategyKind, algorithm: Algorithm) -> bool {
    &&& algorithm.kind_of() == kind
    &&& algorithm matches Algorithm::Probabilistic(s) ==> s.scorer@.base_penalty_msat
        == DEFAULT_BASE_PENALTY_MSAT && s.scorer@.penalties.len() == 0
}

/// The router. It holds no state: every request brings its graph.
pub struct Router;

impl Router {
    pub fn new() -> Self {
        Router
    }

    /// The kind of strategy that `strategy` asks for.
    pub fn resolve(strategy: &Option<String>) -> (r: Result<StrategyKind, RouteError>)
        ensures
            r == requested_kind(
                match *strategy {
                    Some(s) => Some(s@),
                    None => None,
                },
            ),
    {
        match strategy {
            None => Ok(StrategyKind::default()),
            Some(name) => StrategyKind::from_name(name.as_str()),
        }
    }

    /// The answer of `algorithm` to the request, after the checks that
    /// the router makes for every algorithm.
    pub fn execute_with<G: NetworkGraph>(&self, algorithm: &Algorithm, input: &RouteInput<G>) -> (r:
        Result<RouteOutput, RouteError>)
        ensures
            outcome(r) == routed_answer(*algorithm, input@),
    {
        match check_input(input) {
            Err(e) => {
                return Err(e);
            },
            Ok(_) => {},
        }
        match algorithm.can_apply(input) {
            Err(e) => Err(e),
            Ok(false) => Err(RouteError::NotApplicable),
            Ok(true) => algorithm.route(input),
        }
    }

    /// The route for the request, found by the strategy that the request
    /// names. An unknown name is refused with `UnknownStrategy`.
    pub fn execute<G: NetworkGraph>(&self, input: &RouteInput<G>) -> (r: Result<
        RouteOutput,
        RouteError,
    >)
        ensures
            match requested_kind(input@.strategy) {
                Err(e) => r == Err::<RouteOutput, RouteError>(e),
                Ok(kind) => exists|algorithm: Algorithm| #[trigger]
                    registered(kind, algorithm) && outcome(r) == routed_answer(algorithm, input@),
            },
    {
        let kind = match Router::resolve(&input.strategy) {
            Ok(kind) => kind,
            Err(e) => {
                return Err(e);
            },
        };
        match get_algorithm(&kind) {
            Some(algorithm) => {
                let r = self.execute_with(&algorithm, input);
                proof {
                    assert(registered(kind, algorithm));
                }
                r
            },
            None => Err(RouteError::UnknownStrategy),
        }
    }
}

impl Default for Router {
    fn default() -> Self {
        Router::new()
    }
}

/// The answer of a strategy is a function of the request: asked twice,
/// it answers the same.
pub proof fn lemma_same_request_same_route<S: Strategy>(
    strategy: S,
    q: Query,
    first: Result<RouteOutput, RouteError>,
    second: Result<RouteOutput, RouteError>,
)
    requires
        outcome(first) == strategy.answer(q),
        outcome(second) == strategy.answer(q),
    ensures
        outcome(first) == outcome(second),
{
}

/// A request from a node to itself is refused as invalid input, whatever
/// the algorithm.
pub proof fn lemma_self_route_is_invalid(algorithm: Algorithm, q: Query)
    requires
        q.src == q.dst,
    ensures
        routed_answer(algorithm, q) == Err::<Seq<RouteHopView>, RouteError>(RouteError::SelfRoute),
        algorithm.answer(q) == Err::<Seq<RouteHopView>, RouteError>(RouteError::SelfRoute),
        RouteError::SelfRoute.kind_of() == crate::strategy::ErrorKind::InvalidInput,
{
}

/// No algorithm answers with a route that has no hops.
pub proof fn lemma_no_empty_route(algorithm: Algorithm, q: Query)
    requires
        q.holdable(),
    ensures
        algorithm.answer(q) matches Ok(hops) ==> hops.len() > 0,
        routed_answer(algorithm, q) matches Ok(hops) ==> hops.len() > 0,
{
    lemma_search_answer_is_cheapest(q, FeeOnly);
    match algorithm {
        Algorithm::Probabilistic(s) => {
            lemma_search_answer_is_cheapest(q, s.scorer);
        },
        _ => {},
    }
}

} // verus!
