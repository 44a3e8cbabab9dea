//! Typed outcomes of a route search.

use vstd::prelude::*;
use crate::graph::NodeId;

verus! {

/// Why a search stopped short of a complete route.
#[derive(Debug, Clone, Copy, PartialEq, Eq, Structural)]
pub enum RouteError {
    /// A referenced node id is absent from the graph.
    UnknownNode(NodeId),
    /// A node reached during the search has no adjacency entry.
    NoAdjacency(NodeId),
    /// Every candidate selection weight was zero.
    DegenerateDistribution,
    /// A walk used up its step budget.
    MaxStepsExceeded,
    /// A simulation used up its iteration budget.
    MaxIterationsExceeded,
    /// The search ended without reaching the destination.
    NoPathFound,
}

/// The flag that accompanies every search result.
#[derive(Debug, Clone, Copy, PartialEq, Eq, Structural)]
pub enum RouteStatus {
    /// The result reaches the destination.
    Success,
    /// The result is the best effort of a search that stopped early.
    Partial(RouteError),
    /// The search could not be carried out on the given data.
    Failed(RouteError),
}

impl RouteStatus {
    /// Whether the search reached the destination.
    pub fn is_success(&self) -> (r: bool)
        ensures
            r == (*self == RouteStatus::Success),
    {
        match self {
            RouteStatus::Success => true,
            _ => false,
        }
    }
}

} // verus!
