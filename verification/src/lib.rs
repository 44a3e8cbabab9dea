//! Route search for an autonomous vehicle over a road graph or a hazard raster.
//!
//! All quantities are integers in fixed units: coordinates in decimicro-degrees,
//! distances in millimetres, raster positions in thousandths of a cell and
//! pheromone levels in millionths.

pub mod deadline;
pub mod extractor;
pub mod geometry;
pub mod graph;
pub mod loader;
pub mod parser;
pub mod providers;
pub mod random;
pub mod route;
pub mod status;
pub mod tcas;
pub mod weather;

use rand::rngs::StdRng;
use vstd::prelude::*;
pub use crate::deadline::Deadline;
use crate::graph::{Edge, Graph, GraphView, NodeId};
use crate::providers::aco::{is_aco_result, RouteGeneratorACO};
use crate::providers::greedy::{is_greedy_route, MetricType, RouteGeneratorGreedy,
    GREEDY_MAX_STEPS};
use crate::providers::pso::{is_pso_route, is_pso_trace, RouteGeneratorPSO};
pub use crate::route::{GenerationMode, GridPosition, PixRoute, Route, RouteDetails,
    RouteGeneratorStrategy, WxRouteDetails};
use crate::route::{is_walk, walk_end};
pub use crate::status::{RouteError, RouteStatus};
use crate::weather::PixelColor;

verus! {

/// What every strategy promises of a search from `start` towards `end`.
///
/// Where the graph lacks `start` or `end` the search fails on the first of them that is
/// missing and returns no edge. Otherwise the route is a walk through the graph from
/// `start`; it stops at `end` where the status is `Success`, and short of it where the
/// status is `Partial`. Only a search with a deadline is cut off by the clock.
pub open spec fn is_search_result(
    g: GraphView,
    start: NodeId,
    end: NodeId,
    route: Seq<Edge>,
    status: RouteStatus,
) -> bool {
    if !g.nodes.contains_key(start) {
        route.len() == 0 && status == RouteStatus::Failed(RouteError::UnknownNode(start))
    } else if !g.nodes.contains_key(end) {
        route.len() == 0 && status == RouteStatus::Failed(RouteError::UnknownNode(end))
    } else {
        &&& is_walk(g, start, route)
        &&& status == RouteStatus::Success ==> walk_end(start, route) == end
        &&& status is Partial ==> walk_end(start, route) != end
    }
}

/// What a search strategy can do.
pub trait RouteGenerator {
    /// Whether the strategy can search the raster.
    spec fn raster_mode() -> bool;

    /// Searches a route through the graph.
    fn generate_route(
        graph: &Graph,
        generation_strategy: RouteGeneratorStrategy,
        route_details: &RouteDetails,
        mode: GenerationMode,
        rng: &mut StdRng,
        deadline: &Deadline,
    ) -> (route: Route)
        ensures
            is_search_result(
                graph@,
                route_details.starting_node,
                route_details.ending_node,
                route.0@,
                route.1,
            ),
    ;

    /// Searches the raster without a grid to search on: whatever the strategy, no
    /// position comes back.
    fn generate_route_rn(
        _generation_strategy: RouteGeneratorStrategy,
        _route_details: &WxRouteDetails,
    ) -> (route: PixRoute)
        ensures
            route.0@.len() == 0,
            route.1 == RouteStatus::Partial(RouteError::NoPathFound),
    {
        PixRoute(Vec::new(), RouteStatus::Partial(RouteError::NoPathFound))
    }

    /// Whether the strategy can search the raster.
    fn real_mode_supported() -> (r: bool)
        ensures
            r == Self::raster_mode(),
    ;

    /// Searches a route through the raster; a strategy that cannot returns no position.
    fn generate_route_real_num(
        route_details: &WxRouteDetails,
        grid: &Vec<PixelColor>,
        rng: &mut StdRng,
        deadline: &Deadline,
    ) -> (route: PixRoute)
        ensures
            !Self::raster_mode() ==> route.0@.len() == 0 && route.1 == RouteStatus::Partial(
                RouteError::NoPathFound,
            ),
    ;
}

/// Searches a route through the raster with the given strategy, until the deadline at
/// the latest. Only the particle swarm can; the other strategies return no position,
/// and the empty strategy calls that a success.
pub fn generate_route_rn(
    generation_strategy: RouteGeneratorStrategy,
    route_details: &WxRouteDetails,
    grid: &Vec<PixelColor>,
    rng: &mut StdRng,
    deadline: &Deadline,
) -> (route: PixRoute)
    ensures
        match generation_strategy {
            RouteGeneratorStrategy::PSO => is_pso_trace(
                grid@,
                deadline.limited(),
                route_details.starting_position,
                route_details.ending_position,
                route.0@,
                route.1,
            ),
            RouteGeneratorStrategy::Empty => route.0@.len() == 0 && route.1
                == RouteStatus::Success,
            _ => route.0@.len() == 0 && route.1 == RouteStatus::Partial(RouteError::NoPathFound),
        },
{
    match generation_strategy {
        RouteGeneratorStrategy::Greedy => RouteGeneratorGreedy::generate_route_real_num(
            route_details,
            grid,
            rng,
            deadline,
        ),
        RouteGeneratorStrategy::ACO => RouteGeneratorACO::generate_route_real_num(
            route_details,
            grid,
            rng,
            deadline,
        ),
        RouteGeneratorStrategy::PSO => RouteGeneratorPSO::generate_route_real_num(
            route_details,
            grid,
            rng,
            deadline,
        ),
        RouteGeneratorStrategy::Empty => PixRoute(Vec::new(), RouteStatus::Success),
    }
}

/// Searches a route through the graph with the given strategy, until the deadline at
/// the latest. The empty strategy searches nothing and returns no edge, which it calls
/// a success.
pub fn generate_route(
    graph: &Graph,
    generation_strategy: RouteGeneratorStrategy,
    route_details: &RouteDetails,
    rng: &mut StdRng,
    deadline: &Deadline,
) -> (route: Route)
    ensures
        match generation_strategy {
            RouteGeneratorStrategy::Empty => route.0@.len() == 0 && route.1
                == RouteStatus::Success,
            RouteGeneratorStrategy::Greedy => is_greedy_route(
                graph@,
                MetricType::GoalDistance,
                GREEDY_MAX_STEPS as nat,
                deadline.limited(),
                route_details.starting_node,
                route_details.ending_node,
                route.0@,
                route.1,
            ),
            RouteGeneratorStrategy::ACO => is_aco_result(
                graph@,
                deadline.limited(),
                route_details.starting_node,
                route_details.ending_node,
                route.0@,
                route.1,
            ),
            RouteGeneratorStrategy::PSO => is_pso_route(
                graph@,
                deadline.limited(),
                route_details.starting_node,
                route_details.ending_node,
                route.0@,
                route.1,
            ),
        },
{
    match generation_strategy {
        RouteGeneratorStrategy::Greedy => RouteGeneratorGreedy::generate_route(
            graph,
            generation_strategy,
            route_details,
            GenerationMode::Graph,
            rng,
            deadline,
        ),
        RouteGeneratorStrategy::ACO => RouteGeneratorACO::generate_route(
            graph,
            generation_strategy,
            route_details,
            GenerationMode::Graph,
            rng,
            deadline,
        ),
        RouteGeneratorStrategy::PSO => RouteGeneratorPSO::generate_route(
            graph,
            generation_strategy,
            route_details,
            GenerationMode::Graph,
            rng,
            deadline,
        ),
        RouteGeneratorStrategy::Empty => Route(Vec::new(), RouteStatus::Success),
    }
}

} // verus!
