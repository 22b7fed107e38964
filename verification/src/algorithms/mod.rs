//! The routing algorithms and the registry that finds them by kind.

pub mod dijkstra;
pub mod direct;
pub mod probabilistic;

use crate::algorithms::dijkstra::Dijkstra;
use crate::algorithms::direct::Direct;
use crate::algorithms::probabilistic::{LDKRoutingStrategy, DEFAULT_BASE_PENALTY_MSAT};
use crate::graph::NetworkGraph;
use crate::strategy::{
    Query, RouteError, RouteHopView, RouteInput, RouteOutput, Strategy, StrategyKind,
};
use vstd::prelude::*;

verus! {

/// A routing algorithm of one of the registered kinds.
pub enum Algorithm {
    Direct(Direct),
    ShortestPath(Dijkstra),
    Probabilistic(LDKRoutingStrategy),
}

impl Algorithm {
    /// The kind under which the algorithm is registered.
    pub open spec fn kind_of(self) -> StrategyKind {
        match self {
            Algorithm::Direct(_) => StrategyKind::Direct,
            Algorithm::ShortestPath(_) => StrategyKind::ShortestPath,
            Algorithm::Probabilistic(_) => StrategyKind::Probabilistic,
        }
    }
}

impl Strategy for Algorithm {
    open spec fn applicable(&self, q: Query) -> Result<bool, RouteError> {
        match self {
            Algorithm::Direct(s) => s.applicable(q),
            Algorithm::ShortestPath(s) => s.applicable(q),
            Algorithm::Probabilistic(s) => s.applicable(q),
        }
    }

    open spec fn answer(&self, q: Query) -> Result<Seq<RouteHopView>, RouteError> {
        match self {
            Algorithm::Direct(s) => s.answer(q),
            Algorithm::ShortestPath(s) => s.answer(q),
            Algorithm::Probabilistic(s) => s.answer(q),
        }
    }

    fn can_apply<G: NetworkGraph>(&self, input: &RouteInput<G>) -> (r: Result<bool, RouteError>) {
        match self {
            Algorithm::Direct(s) => s.can_apply(input),
            Algorithm::ShortestPath(s) => s.can_apply(input),
            Algorithm::Probabilistic(s) => s.can_apply(input),
        }
    }

    fn route<G: NetworkGraph>(&self, input: &RouteInput<G>) -> (r: Result<RouteOutput, RouteError>)
    {
        match self {
            Algorithm::Direct(s) => s.route(input),
            Algorithm::ShortestPath(s) => s.route(input),
            Algorithm::Probabilistic(s) => s.route(input),
        }
    }
}

/// The algorithm registered for `strategy`, made anew; the scored one
/// comes with its default scoring model.
pub fn get_algorithm(strategy: &StrategyKind) -> (r: Option<Algorithm>)
    ensures
        r matches Some(a) && a.kind_of() == *strategy,
        r matches Some(Algorithm::Probabilistic(s)) ==> s.scorer@.base_penalty_msat
            == DEFAULT_BASE_PENALTY_MSAT && s.scorer@.penalties.len() == 0,
{
    match strategy {
        StrategyKind::Direct => Some(Algorithm::Direct(Direct::new())),
        StrategyKind::ShortestPath => Some(Algorithm::ShortestPath(Dijkstra::new())),
        StrategyKind::Probabilistic => Some(Algorithm::Probabilistic(LDKRoutingStrategy::default())),
    }
}

} // verus!
