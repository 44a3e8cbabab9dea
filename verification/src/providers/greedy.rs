//! A single deterministic walk that always takes the best-looking open connection.

use rand::rngs::StdRng;
use vstd::prelude::*;
use crate::weather::PixelColor;
use crate::RouteGenerator;
use crate::deadline::Deadline;
use crate::graph::{created_edge, joins, node_distance, Edge, Graph, GraphView, Node, NodeId};
use crate::route::{is_walk, lemma_walk_push, walk_end, GenerationMode, PixRoute, Route,
    RouteDetails, RouteGeneratorStrategy, WxRouteDetails};
use crate::status::{RouteError, RouteStatus};

verus! {

pub struct RouteGeneratorGreedy;

/// By what the walk ranks the connections that leave a node.
#[derive(PartialEq, Eq, Structural, Debug, Clone, Copy)]
pub enum MetricType {
    /// The length of the hop to the next node.
    EdgeLength,
    /// The straight-line distance from the next node to the goal.
    GoalDistance,
}

/// The most edges that the walk lays down before it gives up.
pub const GREEDY_MAX_STEPS: usize = 1_000_000;

/// Whether the route already runs between `a` and `b`, in either direction.
pub open spec fn route_has_segment(route: Seq<Edge>, a: NodeId, b: NodeId) -> bool {
    exists|j: int| 0 <= j < route.len() && joins(#[trigger] route[j], a, b)
}

/// Whether connection `i` of `cur` leads over a segment that the route has not used.
pub open spec fn is_open(g: GraphView, route: Seq<Edge>, cur: NodeId, i: int) -> bool {
    0 <= i < g.adjacency(cur).len() && !route_has_segment(route, cur, g.adjacency(cur)[i])
}

/// The rank of the connection from `cur` to `to`: lower is better.
pub open spec fn candidate_key(
    g: GraphView,
    metric: MetricType,
    cur: NodeId,
    to: NodeId,
    goal: Node,
) -> nat {
    match metric {
        MetricType::EdgeLength => node_distance(g.nodes[cur], g.nodes[to]),
        MetricType::GoalDistance => node_distance(g.nodes[to], goal),
    }
}

/// Connection `i` of `cur` is the first of the open connections with the lowest rank.
pub open spec fn is_greedy_pick(
    g: GraphView,
    metric: MetricType,
    route: Seq<Edge>,
    cur: NodeId,
    goal: Node,
    i: int,
) -> bool {
    let adj = g.adjacency(cur);
    &&& is_open(g, route, cur, i)
    &&& forall|j: int| #[trigger]
        is_open(g, route, cur, j) ==> candidate_key(g, metric, cur, adj[i], goal)
            <= candidate_key(g, metric, cur, adj[j], goal)
    &&& forall|j: int|
        0 <= j < i && #[trigger] is_open(g, route, cur, j) ==> candidate_key(
            g,
            metric,
            cur,
            adj[i],
            goal,
        ) < candidate_key(g, metric, cur, adj[j], goal)
}

/// Every connection of `cur` before index `n` leads to a node that the graph knows.
pub open spec fn connections_known(g: GraphView, cur: NodeId, n: int) -> bool {
    forall|j: int| 0 <= j < n ==> (#[trigger] created_edge(g, cur, g.adjacency(cur)[j])) is Ok
}

/// What one step of the walk decides at `cur` with `route` behind it.
///
/// It fails with `NoAdjacency` where `cur` has no adjacency entry, and with the error of
/// the first connection whose edge cannot be created. Otherwise it names the target of the
/// first open connection of lowest rank, or nothing where no connection is open.
pub open spec fn greedy_step(
    g: GraphView,
    metric: MetricType,
    route: Seq<Edge>,
    cur: NodeId,
    goal: Node,
    r: Result<Option<NodeId>, RouteError>,
) -> bool {
    let adj = g.adjacency(cur);
    if !g.edge_connections.contains_key(cur) {
        r == Err::<Option<NodeId>, RouteError>(RouteError::NoAdjacency(cur))
    } else {
        match r {
            Err(e) => exists|i: int|
                0 <= i < adj.len() && connections_known(g, cur, i) && #[trigger] created_edge(
                    g,
                    cur,
                    adj[i],
                ) == Err::<Edge, RouteError>(e),
            Ok(None) => connections_known(g, cur, adj.len() as int) && forall|i: int|
                !#[trigger] is_open(g, route, cur, i),
            Ok(Some(n)) => connections_known(g, cur, adj.len() as int) && exists|i: int|
                #[trigger] is_greedy_pick(g, metric, route, cur, goal, i) && adj[i] == n,
        }
    }
}

/// How the walk ends once no further edge is laid at the end of `route`.
pub open spec fn greedy_end(
    g: GraphView,
    metric: MetricType,
    max_steps: nat,
    limited: bool,
    start: NodeId,
    end: NodeId,
    route: Seq<Edge>,
    status: RouteStatus,
) -> bool {
    let cur = walk_end(start, route);
    let goal = g.nodes[end];
    if cur == end {
        status == RouteStatus::Success
    } else if route.len() == max_steps {
        status == RouteStatus::Partial(RouteError::MaxStepsExceeded)
    } else {
        match status {
            RouteStatus::Success => false,
            RouteStatus::Partial(e) => (limited && e == RouteError::MaxStepsExceeded) || (e
                == RouteError::NoPathFound && (greedy_step(g, metric, route, cur, goal, Ok(None))
                || (route.len() == 0 && greedy_step(
                g,
                metric,
                route,
                cur,
                goal,
                Err(RouteError::NoAdjacency(cur)),
            )))),
            RouteStatus::Failed(e) => greedy_step(g, metric, route, cur, goal, Err(e)) && !(
            route.len() == 0 && e == RouteError::NoAdjacency(cur)),
        }
    }
}

/// `route` with `status` is the result of the greedy walk from `start` towards `end`.
///
/// Where the graph lacks `start` or `end` the walk fails on the first of them that is
/// missing. Otherwise every edge is the choice of `greedy_step` at the point where it was
/// laid, none is laid once the end is reached or the budget is spent, and the status says
/// why the walk stopped: at the end (`Success`), out of steps or, where the walk is
/// `limited` by a deadline, out of time (`MaxStepsExceeded`), with no open connection or
/// at a start without adjacency entry (`NoPathFound`), or on an error of the step
/// (`Failed`).
pub open spec fn is_greedy_route(
    g: GraphView,
    metric: MetricType,
    max_steps: nat,
    limited: bool,
    start: NodeId,
    end: NodeId,
    route: Seq<Edge>,
    status: RouteStatus,
) -> bool {
    if !g.nodes.contains_key(start) {
        route.len() == 0 && status == RouteStatus::Failed(RouteError::UnknownNode(start))
    } else if !g.nodes.contains_key(end) {
        route.len() == 0 && status == RouteStatus::Failed(RouteError::UnknownNode(end))
    } else {
        &&& is_walk(g, start, route)
        &&& route.len() <= max_steps
        &&& forall|i: int|
            0 <= i < route.len() ==> {
                &&& walk_end(start, route.take(i)) != end
                &&& greedy_step(
                    g,
                    metric,
                    route.take(i),
                    walk_end(start, route.take(i)),
                    g.nodes[end],
                    Ok(Some((#[trigger] route[i]).to)),
                )
            }
        &&& greedy_end(g, metric, max_steps, limited, start, end, route, status)
    }
}

/// Tests whether the route already holds an edge equal to `edge`, whatever its direction.
pub fn route_contains(route: &Vec<Edge>, edge: &Edge) -> (r: bool)
    ensures
        r == route_has_segment(route@, edge.from, edge.to),
{
    let mut i: usize = 0;
    while i < route.len()
        invariant
            i <= route.len(),
            forall|j: int| 0 <= j < i ==> !joins(#[trigger] route@[j], edge.from, edge.to),
        decreases route.len() - i,
    {
        if route[i] == *edge {
            assert(joins(route@[i as int], edge.from, edge.to));
            return true;
        }
        i += 1;
    }
    false
}

/// Selects the node to go to next: the target of the first open connection of lowest rank.
pub fn select_next_best(
    route: &Vec<Edge>,
    current_node: NodeId,
    graph: &Graph,
    ending_node: &Node,
    metric: MetricType,
) -> (r: Result<Option<NodeId>, RouteError>)
    ensures
        greedy_step(graph@, metric, route@, current_node, *ending_node, r),
        graph@.consistent(),
{
    let ghost g = graph@;
    let ghost adj = g.adjacency(current_node);
    let from_node = graph.find_node(current_node);
    let connections = match graph.neighbours(current_node) {
        None => {
            return Err(RouteError::NoAdjacency(current_node));
        },
        Some(v) => v,
    };
    let mut best_index: usize = 0;
    let mut best_key: u64 = 0;
    let mut found: bool = false;
    let mut i: usize = 0;
    while i < connections.len()
        invariant
            g == graph@,
            adj == g.adjacency(current_node),
            g.edge_connections.contains_key(current_node),
            connections@ == adj,
            from_node == g.nodes.get(current_node),
            i <= connections.len(),
            connections_known(g, current_node, i as int),
            !found ==> forall|j: int| 0 <= j < i ==> !#[trigger] is_open(g, route@, current_node, j),
            found ==> {
                &&& best_index < i
                &&& is_open(g, route@, current_node, best_index as int)
                &&& best_key == candidate_key(
                    g,
                    metric,
                    current_node,
                    adj[best_index as int],
                    *ending_node,
                )
                &&& forall|j: int|
                    0 <= j < i && #[trigger] is_open(g, route@, current_node, j) ==> best_key
                        <= candidate_key(g, metric, current_node, adj[j], *ending_node)
                &&& forall|j: int|
                    0 <= j < best_index && #[trigger] is_open(g, route@, current_node, j)
                        ==> best_key < candidate_key(g, metric, current_node, adj[j], *ending_node)
            },
        decreases connections.len() - i,
    {
        let target: NodeId = connections[i];
        let new_edge = match Edge::create(graph, current_node, target) {
            Err(e) => {
                assert(created_edge(g, current_node, adj[i as int]) == Err::<Edge, RouteError>(e));
                return Err(e);
            },
            Ok(e) => e,
        };
        assert(created_edge(g, current_node, adj[i as int]) is Ok);
        if !route_contains(route, &new_edge) {
            let key: u64 = match metric {
                MetricType::EdgeLength => new_edge.length,
                MetricType::GoalDistance => match graph.find_node(target) {
                    Some(n) => Edge::length(&n, ending_node),
                    None => 0,
                },
            };
            assert(key == candidate_key(g, metric, current_node, target, *ending_node)) by {
                let a = g.nodes[current_node];
                let b = g.nodes[target];
                crate::geometry::lemma_flat_distance_bound(a.lat, a.lon, b.lat, b.lon);
            }
            assert(is_open(g, route@, current_node, i as int));
            if !found || key < best_key {
                best_index = i;
                best_key = key;
                found = true;
            }
        }
        i += 1;
    }
    if found {
        assert(is_greedy_pick(g, metric, route@, current_node, *ending_node, best_index as int));
        Ok(Some(connections[best_index]))
    } else {
        Ok(None)
    }
}

impl RouteGeneratorGreedy {
    /// Walks from the start towards the end of `route_details`, ranking connections by
    /// `metric` and laying at most `max_steps` edges. Before each step the deadline is
    /// looked at.
    pub fn walk(
        graph: &Graph,
        route_details: &RouteDetails,
        metric: MetricType,
        max_steps: usize,
        deadline: &Deadline,
    ) -> (result: Route)
        ensures
            is_greedy_route(
                graph@,
                metric,
                max_steps as nat,
                deadline.limited(),
                route_details.starting_node,
                route_details.ending_node,
                result.0@,
                result.1,
            ),
    {
        let ghost g = graph@;
        let start: NodeId = route_details.starting_node;
        let end: NodeId = route_details.ending_node;
        let mut route: Vec<Edge> = Vec::new();
        if graph.find_node(start).is_none() {
            return Route(route, RouteStatus::Failed(RouteError::UnknownNode(start)));
        }
        let ending_node = match graph.find_node(end) {
            None => {
                return Route(route, RouteStatus::Failed(RouteError::UnknownNode(end)));
            },
            Some(n) => n,
        };
        let mut current_node: NodeId = start;
        let mut status: RouteStatus = RouteStatus::Success;
        while current_node != end
            invariant_except_break
                status == RouteStatus::Success,
            invariant
                g == graph@,
                start == route_details.starting_node,
                end == route_details.ending_node,
                g.nodes.contains_key(start),
                g.nodes.contains_key(end),
                ending_node == g.nodes[end],
                current_node == walk_end(start, route@),
                is_walk(g, start, route@),
                route.len() <= max_steps,
                forall|i: int|
                    0 <= i < route.len() ==> {
                        &&& walk_end(start, route@.take(i)) != end
                        &&& greedy_step(
                            g,
                            metric,
                            route@.take(i),
                            walk_end(start, route@.take(i)),
                            g.nodes[end],
                            Ok(Some((#[trigger] route@[i]).to)),
                        )
                    },
            ensures
                is_greedy_route(
                    g,
                    metric,
                    max_steps as nat,
                    deadline.limited(),
                    start,
                    end,
                    route@,
                    status,
                ),
            decreases max_steps - route.len(),
        {
            if route.len() >= max_steps || deadline.passed() {
                status = RouteStatus::Partial(RouteError::MaxStepsExceeded);
                break ;
            }
            match select_next_best(&route, current_node, graph, &ending_node, metric) {
                Err(e) => {
                    let at_start: bool = route.len() == 0;
                    status =
                    match e {
                        RouteError::NoAdjacency(_) => if at_start {
                            RouteStatus::Partial(RouteError::NoPathFound)
                        } else {
                            RouteStatus::Failed(e)
                        },
                        _ => RouteStatus::Failed(e),
                    };
                    break ;
                },
                Ok(None) => {
                    status = RouteStatus::Partial(RouteError::NoPathFound);
                    break ;
                },
                Ok(Some(n)) => {
                    let edge = match Edge::create(graph, current_node, n) {
                        Ok(edge) => edge,
                        Err(e) => {
                            proof {
                                let i = choose|i: int| #[trigger]
                                    is_greedy_pick(g, metric, route@, current_node, ending_node, i)
                                        && g.adjacency(current_node)[i] == n;
                                assert(created_edge(g, current_node, g.adjacency(current_node)[i])
                                    is Ok);
                            }
                            status = RouteStatus::Failed(e);
                            break ;
                        },
                    };
                    proof {
                        let i = choose|i: int| #[trigger]
                            is_greedy_pick(g, metric, route@, current_node, ending_node, i)
                                && g.adjacency(current_node)[i] == n;
                        assert(g.adjacency(current_node).contains(n));
                        lemma_walk_push(g, start, route@, edge);
                        let longer = route@.push(edge);
                        assert(longer.take(route@.len() as int) =~= route@);
                        assert forall|k: int| 0 <= k < longer.len() implies {
                            &&& walk_end(start, longer.take(k)) != end
                            &&& greedy_step(
                                g,
                                metric,
                                longer.take(k),
                                walk_end(start, longer.take(k)),
                                g.nodes[end],
                                Ok(Some((#[trigger] longer[k]).to)),
                            )
                        } by {
                            if k < route@.len() {
                                assert(longer.take(k) =~= route@.take(k));
                                assert(longer[k] == route@[k]);
                            }
                        }
                    }
                    route.push(edge);
                    current_node = n;
                },
            }
        }
        Route(route, status)
    }

}

impl RouteGenerator for RouteGeneratorGreedy {
    open spec fn raster_mode() -> bool {
        false
    }

    /// Generates a route with the greedy walk, ranking connections by their distance to
    /// the goal.
    fn generate_route(
        graph: &Graph,
        _generation_strategy: RouteGeneratorStrategy,
        route_details: &RouteDetails,
        _mode: GenerationMode,
        _rng: &mut StdRng,
        deadline: &Deadline,
    ) -> (result: Route)
        ensures
            is_greedy_route(
                graph@,
                MetricType::GoalDistance,
                GREEDY_MAX_STEPS as nat,
                deadline.limited(),
                route_details.starting_node,
                route_details.ending_node,
                result.0@,
                result.1,
            ),
    {
        RouteGeneratorGreedy::walk(
            graph,
            route_details,
            MetricType::GoalDistance,
            GREEDY_MAX_STEPS,
            deadline,
        )
    }

    fn real_mode_supported() -> (r: bool) {
        false
    }

    fn generate_route_real_num(
        _route_details: &WxRouteDetails,
        _grid: &Vec<PixelColor>,
        _rng: &mut StdRng,
        _deadline: &Deadline,
    ) -> (route: PixRoute) {
        PixRoute(Vec::new(), RouteStatus::Partial(RouteError::NoPathFound))
    }
}

/// Where the end is a connection of the start, every connection of the start leads to a
/// known node, and the end is the only one of them at distance zero from the end, the
/// walk by goal distance without a deadline is the single edge from the start to the
/// end, and it succeeds.
pub proof fn lemma_greedy_reaches_adjacent_goal(
    g: GraphView,
    max_steps: nat,
    start: NodeId,
    end: NodeId,
    route: Seq<Edge>,
    status: RouteStatus,
)
    requires
        g.nodes.contains_key(start),
        g.nodes.contains_key(end),
        start != end,
        max_steps >= 1,
        g.adjacency(start).contains(end),
        forall|i: int|
            0 <= i < g.adjacency(start).len() ==> {
                &&& g.nodes.contains_key(#[trigger] g.adjacency(start)[i])
                &&& g.adjacency(start)[i] != end ==> node_distance(
                    g.nodes[g.adjacency(start)[i]],
                    g.nodes[end],
                ) > 0
            },
        is_greedy_route(g, MetricType::GoalDistance, max_steps, false, start, end, route, status),
    ensures
        route.len() == 1,
        route[0].from == start,
        route[0].to == end,
        status == RouteStatus::Success,
{
    let adj = g.adjacency(start);
    let goal = g.nodes[end];
    let metric = MetricType::GoalDistance;
    let empty = Seq::<Edge>::empty();
    let k = choose|k: int| 0 <= k < adj.len() && adj[k] == end;
    assert(is_open(g, empty, start, k));
    assert(connections_known(g, start, adj.len() as int)) by {
        assert forall|j: int| 0 <= j < adj.len() implies (#[trigger] created_edge(
            g,
            start,
            adj[j],
        )) is Ok by {
            assert(g.nodes.contains_key(adj[j]));
        }
    }
    assert(g.edge_connections.contains_key(start));
    crate::graph::lemma_length_identity(goal);
    if route.len() == 0 {
        assert(route =~= empty);
        assert(walk_end(start, route) == start);
        match status {
            RouteStatus::Success => {},
            RouteStatus::Partial(e) => {
                assert(!greedy_step(g, metric, route, start, goal, Ok(None)));
            },
            RouteStatus::Failed(e) => {
                let i = choose|i: int|
                    0 <= i < adj.len() && connections_known(g, start, i) && #[trigger] created_edge(
                        g,
                        start,
                        adj[i],
                    ) == Err::<Edge, RouteError>(e);
                assert(created_edge(g, start, adj[i]) is Ok);
            },
        }
        assert(false);
    }
    assert(route.take(0) =~= empty);
    assert(walk_end(start, route.take(0)) == start);
    assert(route[0].from == start);
    let i = choose|i: int| #[trigger]
        is_greedy_pick(g, metric, empty, start, goal, i) && adj[i] == route[0].to;
    assert(candidate_key(g, metric, start, adj[i], goal) <= candidate_key(
        g,
        metric,
        start,
        adj[k],
        goal,
    ));
    assert(route[0].to == end);
    if route.len() >= 2 {
        assert(route.take(1).last() == route[0]);
        assert(walk_end(start, route.take(1)) == end);
        assert(greedy_step(
            g,
            metric,
            route.take(1),
            walk_end(start, route.take(1)),
            g.nodes[end],
            Ok(Some(route[1].to)),
        ));
        assert(false);
    }
    assert(walk_end(start, route) == end);
}

/// From a start that no connection leaves, the walk without a deadline lays no edge and
/// ends without a path and without a failure.
pub proof fn lemma_greedy_isolated_start(
    g: GraphView,
    metric: MetricType,
    max_steps: nat,
    start: NodeId,
    end: NodeId,
    route: Seq<Edge>,
    status: RouteStatus,
)
    requires
        g.nodes.contains_key(start),
        g.nodes.contains_key(end),
        start != end,
        max_steps >= 1,
        g.adjacency(start).len() == 0,
        is_greedy_route(g, metric, max_steps, false, start, end, route, status),
    ensures
        route.len() == 0,
        status == RouteStatus::Partial(RouteError::NoPathFound),
{
    let goal = g.nodes[end];
    let empty = Seq::<Edge>::empty();
    if route.len() > 0 {
        assert(route.take(0) =~= empty);
        assert(walk_end(start, route.take(0)) == start);
        assert(greedy_step(g, metric, empty, start, goal, Ok(Some(route[0].to))));
        if g.edge_connections.contains_key(start) {
            let i = choose|i: int| #[trigger]
                is_greedy_pick(g, metric, empty, start, goal, i) && g.adjacency(start)[i]
                    == route[0].to;
            assert(is_open(g, empty, start, i));
        }
        assert(false);
    }
    assert(route =~= empty);
    assert(walk_end(start, route) == start);
    match status {
        RouteStatus::Failed(e) => {
            if g.edge_connections.contains_key(start) {
                assert(!greedy_step(g, metric, route, start, goal, Err(e)));
            }
        },
        _ => {},
    }
}

/// From every node but the end a connection leads on, every connection leads to a node
/// that the graph knows, and one of them leads strictly closer to the end.
pub open spec fn descends_to(g: GraphView, end: NodeId) -> bool {
    forall|c: NodeId|
        #![trigger g.nodes.contains_key(c)]
        g.nodes.contains_key(c) && c != end ==> {
            &&& g.edge_connections.contains_key(c)
            &&& forall|k: int|
                0 <= k < g.adjacency(c).len() ==> g.nodes.contains_key(
                    #[trigger] g.adjacency(c)[k],
                )
            &&& exists|m: int|
                0 <= m < g.adjacency(c).len() && goal_distance(g, #[trigger] g.adjacency(c)[m], end)
                    < goal_distance(g, c, end)
        }
}

/// The distance from the node `n` to the node `end`.
pub open spec fn goal_distance(g: GraphView, n: NodeId, end: NodeId) -> nat {
    node_distance(g.nodes[n], g.nodes[end])
}

/// Every edge of the route is the choice of `greedy_step` by goal distance at the point
/// where it was laid, and none leaves the end.
pub open spec fn greedy_steps(g: GraphView, start: NodeId, end: NodeId, route: Seq<Edge>) -> bool {
    forall|i: int|
        0 <= i < route.len() ==> {
            &&& walk_end(start, route.take(i)) != end
            &&& greedy_step(
                g,
                MetricType::GoalDistance,
                route.take(i),
                walk_end(start, route.take(i)),
                g.nodes[end],
                Ok(Some((#[trigger] route[i]).to)),
            )
        }
}

/// The walk has come at least a millimetre closer to the end with each of its first
/// `i` edges.
pub open spec fn descended(g: GraphView, start: NodeId, end: NodeId, route: Seq<Edge>, i: int)
    -> bool {
    forall|j: int|
        0 <= j <= i ==> goal_distance(g, walk_end(start, #[trigger] route.take(j)), end)
            >= goal_distance(g, walk_end(start, route.take(i)), end) + (i - j)
}

/// After `i` edges of descent a connection that leads closer to the end is open: the
/// route has not run along it.
proof fn lemma_descending_connection_open(
    g: GraphView,
    start: NodeId,
    end: NodeId,
    route: Seq<Edge>,
    i: int,
    m: int,
)
    requires
        is_walk(g, start, route),
        0 <= i <= route.len(),
        descended(g, start, end, route, i),
        0 <= m < g.adjacency(walk_end(start, route.take(i))).len(),
        goal_distance(g, g.adjacency(walk_end(start, route.take(i)))[m], end) < goal_distance(
            g,
            walk_end(start, route.take(i)),
            end,
        ),
    ensures
        is_open(g, route.take(i), walk_end(start, route.take(i)), m),
{
    let here = walk_end(start, route.take(i));
    let target = g.adjacency(here)[m];
    let prefix = route.take(i);
    if route_has_segment(prefix, here, target) {
        let j = choose|j: int| 0 <= j < prefix.len() && joins(#[trigger] prefix[j], here, target);
        assert(prefix[j] == route[j]);
        assert(route[j].from == walk_end(start, route.take(j)));
        assert(route.take(j + 1).last() == route[j]);
        assert(route[j].to == walk_end(start, route.take(j + 1)));
        assert(goal_distance(g, walk_end(start, route.take(j)), end) >= goal_distance(
            g,
            here,
            end,
        ) + (i - j));
        assert(goal_distance(g, walk_end(start, route.take(j + 1)), end) >= goal_distance(
            g,
            here,
            end,
        ) + (i - (j + 1)));
        assert(false);
    }
}

/// A step by goal distance that has an open connection leading closer to the end goes
/// to a node that is closer to the end.
proof fn lemma_greedy_step_descends(
    g: GraphView,
    route: Seq<Edge>,
    cur: NodeId,
    end: NodeId,
    next: NodeId,
    m: int,
)
    requires
        greedy_step(g, MetricType::GoalDistance, route, cur, g.nodes[end], Ok(Some(next))),
        is_open(g, route, cur, m),
        goal_distance(g, g.adjacency(cur)[m], end) < goal_distance(g, cur, end),
    ensures
        goal_distance(g, next, end) < goal_distance(g, cur, end),
{
    let adj = g.adjacency(cur);
    let picked = choose|k: int| #[trigger]
        is_greedy_pick(g, MetricType::GoalDistance, route, cur, g.nodes[end], k) && adj[k]
            == next;
    assert(candidate_key(g, MetricType::GoalDistance, cur, adj[picked], g.nodes[end])
        <= candidate_key(g, MetricType::GoalDistance, cur, adj[m], g.nodes[end]));
}

/// Where the walk by goal distance stands after its first `i` edges on a graph that
/// descends to the end: at a known node, at least a millimetre closer to the end with
/// every edge.
proof fn lemma_greedy_descent(g: GraphView, start: NodeId, end: NodeId, route: Seq<Edge>, i: int)
    requires
        g.nodes.contains_key(start),
        g.nodes.contains_key(end),
        descends_to(g, end),
        is_walk(g, start, route),
        greedy_steps(g, start, end, route),
        0 <= i <= route.len(),
    ensures
        g.nodes.contains_key(walk_end(start, route.take(i))),
        descended(g, start, end, route, i),
    decreases i,
{
    let here = walk_end(start, route.take(i));
    if i > 0 {
        lemma_greedy_descent(g, start, end, route, i - 1);
        let before = walk_end(start, route.take(i - 1));
        let edge = route[i - 1];
        assert(route.take(i).last() == edge);
        assert(here == edge.to);
        assert(edge.from == before);
        assert(created_edge(g, edge.from, edge.to) is Ok);
        assert(before != end);
        let adj = g.adjacency(before);
        let m = choose|m: int|
            0 <= m < adj.len() && goal_distance(g, #[trigger] adj[m], end) < goal_distance(
                g,
                before,
                end,
            );
        lemma_descending_connection_open(g, start, end, route, i - 1, m);
        lemma_greedy_step_descends(g, route.take(i - 1), before, end, edge.to, m);
        assert forall|j: int| 0 <= j <= i implies goal_distance(
            g,
            walk_end(start, #[trigger] route.take(j)),
            end,
        ) >= goal_distance(g, here, end) + (i - j) by {
            if j < i {
                assert(goal_distance(g, walk_end(start, route.take(j)), end) >= goal_distance(
                    g,
                    before,
                    end,
                ) + (i - 1 - j));
            }
        }
    } else {
        assert(route.take(0) =~= Seq::<Edge>::empty());
    }
}

/// A walk that comes closer to the end with every edge has fewer edges than the graph
/// has nodes.
proof fn lemma_descent_visits_distinct_nodes(
    g: GraphView,
    start: NodeId,
    end: NodeId,
    route: Seq<Edge>,
)
    requires
        g.nodes.contains_key(start),
        g.nodes.contains_key(end),
        descends_to(g, end),
        is_walk(g, start, route),
        greedy_steps(g, start, end, route),
        g.nodes.dom().finite(),
    ensures
        route.len() < g.nodes.len(),
{
    let n = route.len() as int;
    let visited = Seq::new((n + 1) as nat, |j: int| walk_end(start, route.take(j)));
    lemma_greedy_descent(g, start, end, route, n);
    assert forall|a: int, b: int|
        0 <= a < visited.len() && 0 <= b < visited.len() && a != b implies visited[a]
        != visited[b] by {
        let low = if a < b {
            a
        } else {
            b
        };
        let high = if a < b {
            b
        } else {
            a
        };
        lemma_greedy_descent(g, start, end, route, high);
        assert(goal_distance(g, walk_end(start, route.take(low)), end) >= goal_distance(
            g,
            walk_end(start, route.take(high)),
            end,
        ) + (high - low));
    }
    assert(visited.no_duplicates());
    visited.unique_seq_to_set();
    assert(visited.to_set().subset_of(g.nodes.dom())) by {
        assert forall|node: NodeId| visited.to_set().contains(node) implies g.nodes.dom().contains(
            node,
        ) by {
            let j = choose|j: int| 0 <= j < visited.len() && visited[j] == node;
            lemma_greedy_descent(g, start, end, route, j);
        }
    }
    vstd::set_lib::lemma_len_subset(visited.to_set(), g.nodes.dom());
}

/// On a graph that descends to the end, the walk by goal distance without a deadline
/// comes at least a millimetre closer to the end with every edge and so visits no node
/// twice. It stops only at the end or out of steps, and it reaches the end where the
/// steps allowed outnumber the millimetres between start and end, or are as many as
/// the graph has nodes; its last edge then leads to the end.
pub proof fn lemma_greedy_descends_to_goal(
    g: GraphView,
    max_steps: nat,
    start: NodeId,
    end: NodeId,
    route: Seq<Edge>,
    status: RouteStatus,
)
    requires
        g.nodes.contains_key(start),
        g.nodes.contains_key(end),
        start != end,
        descends_to(g, end),
        is_greedy_route(g, MetricType::GoalDistance, max_steps, false, start, end, route, status),
    ensures
        route.len() <= goal_distance(g, start, end),
        status == RouteStatus::Success || status == RouteStatus::Partial(
            RouteError::MaxStepsExceeded,
        ),
        status == RouteStatus::Success ==> route.len() > 0 && route.last().to == end,
        goal_distance(g, start, end) < max_steps ==> status == RouteStatus::Success,
        g.nodes.dom().finite() ==> route.len() < g.nodes.len(),
        g.nodes.dom().finite() && g.nodes.len() <= max_steps ==> status == RouteStatus::Success,
{
    if g.nodes.dom().finite() {
        lemma_descent_visits_distinct_nodes(g, start, end, route);
    }
    let n = route.len() as int;
    assert(greedy_steps(g, start, end, route));
    lemma_greedy_descent(g, start, end, route, n);
    assert(route.take(n) =~= route);
    assert(route.take(0) =~= Seq::<Edge>::empty());
    let here = walk_end(start, route);
    assert(goal_distance(g, walk_end(start, route.take(0)), end) >= goal_distance(g, here, end)
        + (n - 0));
    if here != end && route.len() != max_steps {
        let adj = g.adjacency(here);
        let m = choose|m: int|
            0 <= m < adj.len() && goal_distance(g, #[trigger] adj[m], end) < goal_distance(
                g,
                here,
                end,
            );
        lemma_descending_connection_open(g, start, end, route, n, m);
        assert(is_open(g, route, here, m));
        match status {
            RouteStatus::Failed(e) => {
                let k = choose|k: int|
                    0 <= k < adj.len() && connections_known(g, here, k) && #[trigger] created_edge(
                        g,
                        here,
                        adj[k],
                    ) == Err::<Edge, RouteError>(e);
                assert(g.nodes.contains_key(adj[k]));
                assert(false);
            },
            _ => {},
        }
        assert(false);
    }
}

} // verus!
