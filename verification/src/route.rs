//! What a search is asked for and what it hands back.

use vstd::prelude::*;
use crate::graph::{created_edge, Edge, GraphView, NodeId};
use crate::status::RouteStatus;

verus! {

/// The two ends of a route through the graph.
#[derive(Debug, Clone, Copy)]
pub struct RouteDetails {
    pub starting_node: NodeId,
    pub ending_node: NodeId,
}

/// The edges of a path in the order of travel, and how the search for it ended.
#[derive(Debug, Clone)]
pub struct Route(pub Vec<Edge>, pub RouteStatus);

/// A position in the raster, in thousandths of a cell.
#[derive(Copy, Clone, Debug, PartialEq, Eq, Structural)]
pub struct GridPosition {
    pub x: i32,
    pub y: i32,
}

/// How many units of a `GridPosition` make up one cell.
pub const CELL_UNITS: i32 = 1000;

/// The positions recorded at each step of a simulation, and how the simulation ended.
#[derive(Debug)]
pub struct PixRoute(pub Vec<GridPosition>, pub RouteStatus);

/// The two ends of a route through the raster.
#[derive(Debug, Clone, Copy)]
pub struct WxRouteDetails {
    pub starting_position: GridPosition,
    pub ending_position: GridPosition,
}

/// Which kind of map a search works on.
#[derive(Debug, Clone, Copy, PartialEq, Eq, Structural)]
pub enum GenerationMode {
    WX,
    Graph,
}

/// The search strategies, in the order of their numbers.
#[derive(Debug, Clone, Copy, PartialEq, Eq, Structural)]
pub enum RouteGeneratorStrategy {
    Empty,
    Greedy,
    ACO,
    PSO,
}

impl RouteGeneratorStrategy {
    /// The number that stands for this strategy across a foreign boundary.
    pub open spec fn spec_code(self) -> u32 {
        match self {
            RouteGeneratorStrategy::Empty => 0,
            RouteGeneratorStrategy::Greedy => 1,
            RouteGeneratorStrategy::ACO => 2,
            RouteGeneratorStrategy::PSO => 3,
        }
    }

    /// The number that stands for this strategy across a foreign boundary.
    #[verifier::when_used_as_spec(spec_code)]
    pub fn code(self) -> (r: u32)
        ensures
            r == self.spec_code(),
    {
        match self {
            RouteGeneratorStrategy::Empty => 0,
            RouteGeneratorStrategy::Greedy => 1,
            RouteGeneratorStrategy::ACO => 2,
            RouteGeneratorStrategy::PSO => 3,
        }
    }

    /// The strategy that a number stands for.
    pub fn from_code(code: u32) -> (r: Option<Self>)
        ensures
            match r {
                Some(s) => s.spec_code() == code,
                None => code > 3,
            },
    {
        if code == 0 {
            Some(RouteGeneratorStrategy::Empty)
        } else if code == 1 {
            Some(RouteGeneratorStrategy::Greedy)
        } else if code == 2 {
            Some(RouteGeneratorStrategy::ACO)
        } else if code == 3 {
            Some(RouteGeneratorStrategy::PSO)
        } else {
            None
        }
    }

    /// Whether the strategy can search the raster.
    pub open spec fn spec_supports_real_mode(self) -> bool {
        self == RouteGeneratorStrategy::PSO
    }

    /// Whether the strategy can search the raster.
    #[verifier::when_used_as_spec(spec_supports_real_mode)]
    pub fn supports_real_mode(self) -> (r: bool)
        ensures
            r == self.spec_supports_real_mode(),
    {
        match self {
            RouteGeneratorStrategy::PSO => true,
            _ => false,
        }
    }
}

impl Route {
    pub fn edges(&self) -> (r: &Vec<Edge>)
        ensures
            r@ == self.0@,
    {
        &self.0
    }

    /// How the search for this route ended.
    pub fn status(&self) -> (r: RouteStatus)
        ensures
            r == self.1,
    {
        self.1
    }
}

/// Where a walk that starts at `start` stands after its last edge.
pub open spec fn walk_end(start: NodeId, edges: Seq<Edge>) -> NodeId {
    if edges.len() == 0 {
        start
    } else {
        edges.last().to
    }
}

/// `edges` is a walk through the graph from `start`: every edge follows a connection of
/// the graph, carries the length that the graph's coordinates give it, and begins where
/// the edge before it ended.
pub open spec fn is_walk(g: GraphView, start: NodeId, edges: Seq<Edge>) -> bool {
    forall|i: int|
        0 <= i < edges.len() ==> {
            &&& (#[trigger] edges[i]).from == walk_end(start, edges.take(i))
            &&& g.adjacency(edges[i].from).contains(edges[i].to)
            &&& created_edge(g, edges[i].from, edges[i].to) == Ok::<Edge, crate::status::RouteError>(
                edges[i],
            )
        }
}

/// A walk grows by one edge that leaves its end along a connection of the graph.
pub proof fn lemma_walk_push(g: GraphView, start: NodeId, edges: Seq<Edge>, e: Edge)
    requires
        is_walk(g, start, edges),
        e.from == walk_end(start, edges),
        g.adjacency(e.from).contains(e.to),
        created_edge(g, e.from, e.to) == Ok::<Edge, crate::status::RouteError>(e),
    ensures
        is_walk(g, start, edges.push(e)),
        walk_end(start, edges.push(e)) == e.to,
{
    let longer = edges.push(e);
    assert forall|i: int| 0 <= i < longer.len() implies {
        &&& (#[trigger] longer[i]).from == walk_end(start, longer.take(i))
        &&& g.adjacency(longer[i].from).contains(longer[i].to)
        &&& created_edge(g, longer[i].from, longer[i].to) == Ok::<Edge, crate::status::RouteError>(
            longer[i],
        )
    } by {
        if i < edges.len() {
            assert(longer.take(i) =~= edges.take(i));
            assert(longer[i] == edges[i]);
        } else {
            assert(longer.take(i) =~= edges);
        }
    }
}

} // verus!
