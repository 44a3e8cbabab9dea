//! Builds the road graph from the objects of a map extract.

use std::collections::HashMap;
use vstd::prelude::*;
use crate::graph::{node_distance, Edge, Graph, GraphView, Node, NodeId};
use crate::parser::{filter_way_data, way_type, ApprovedHighwayType, Way};
use crate::status::RouteError;

verus! {

/// The box of coordinates around the nodes that ways of the graph leave from.
#[derive(Debug, Clone, Copy, PartialEq, Eq, Structural)]
pub struct CoordinateStats {
    pub min_lat: i32,
    pub max_lat: i32,
    pub min_lon: i32,
    pub max_lon: i32,
}

/// An object of a map extract; what is neither node nor way is `Other`.
#[derive(Debug, Clone)]
pub enum MapObject {
    Node(Node),
    Way(Way),
    Other,
}

/// The box after a node is taken in: the node alone where it is the first, and the box
/// stretched to hold the node otherwise.
pub open spec fn widened(stats: CoordinateStats, first: bool, node: Node) -> CoordinateStats {
    if first {
        CoordinateStats {
            min_lat: node.lat,
            max_lat: node.lat,
            min_lon: node.lon,
            max_lon: node.lon,
        }
    } else {
        CoordinateStats {
            min_lat: if node.lat < stats.min_lat {
                node.lat
            } else {
                stats.min_lat
            },
            max_lat: if node.lat > stats.max_lat {
                node.lat
            } else {
                stats.max_lat
            },
            min_lon: if node.lon < stats.min_lon {
                node.lon
            } else {
                stats.min_lon
            },
            max_lon: if node.lon > stats.max_lon {
                node.lon
            } else {
                stats.max_lon
            },
        }
    }
}

/// Takes a node into the box of coordinates.
pub fn update_min_max_stats(stats: &mut CoordinateStats, first: bool, node: &Node)
    ensures
        *final(stats) == widened(*old(stats), first, *node),
{
    if first {
        stats.min_lat = node.lat;
        stats.max_lat = node.lat;
        stats.min_lon = node.lon;
        stats.max_lon = node.lon;
    } else {
        if node.lat < stats.min_lat {
            stats.min_lat = node.lat;
        }
        if node.lat > stats.max_lat {
            stats.max_lat = node.lat;
        }
        if node.lon < stats.min_lon {
            stats.min_lon = node.lon;
        }
        if node.lon > stats.max_lon {
            stats.max_lon = node.lon;
        }
    }
}

/// The node map after the nodes with the given ids are copied over from `known`, each
/// filed under its own id.
pub open spec fn nodes_inserted(nodes: Map<NodeId, Node>, known: Map<i64, Node>, ids: Seq<NodeId>)
    -> Map<NodeId, Node>
    decreases ids.len(),
{
    if ids.len() == 0 {
        nodes
    } else {
        nodes_inserted(nodes, known, ids.drop_last()).insert(
            known[ids.last().0].id,
            known[ids.last().0],
        )
    }
}

/// The place of the first id that `known` lacks; the length of the list where it lacks
/// none.
pub open spec fn first_unknown(known: Map<i64, Node>, ids: Seq<NodeId>) -> int
    decreases ids.len(),
{
    if ids.len() == 0 {
        0
    } else {
        let before = first_unknown(known, ids.drop_last());
        if before < ids.len() - 1 || !known.contains_key(ids.last().0) {
            before
        } else {
            ids.len() as int
        }
    }
}

/// Copies the nodes with the given ids from `osm_nodes` into the graph. Stops with
/// `UnknownNode` at the first id that `osm_nodes` lacks.
pub fn insert_many(node_id: &Vec<NodeId>, graph: &mut Graph, osm_nodes: &HashMap<i64, Node>) -> (r:
    Result<(), RouteError>)
    ensures
        ({
            let stop = first_unknown(osm_nodes@, node_id@);
            &&& 0 <= stop <= node_id.len()
            &&& final(graph)@ == (GraphView {
                nodes: nodes_inserted(old(graph)@.nodes, osm_nodes@, node_id@.take(stop)),
                ..old(graph)@
            })
            &&& if stop == node_id.len() {
                r is Ok
            } else {
                r == Err::<(), RouteError>(RouteError::UnknownNode(node_id[stop]))
            }
        }),
{
    let mut i: usize = 0;
    assert(node_id@.take(0) =~= Seq::<NodeId>::empty());
    while i < node_id.len()
        invariant
            i <= node_id.len(),
            first_unknown(osm_nodes@, node_id@.take(i as int)) == i,
            graph@ == (GraphView {
                nodes: nodes_inserted(old(graph)@.nodes, osm_nodes@, node_id@.take(i as int)),
                ..old(graph)@
            }),
        decreases node_id.len() - i,
    {
        let id: NodeId = node_id[i];
        proof {
            assert(node_id@.take(i as int + 1).drop_last() =~= node_id@.take(i as int));
            assert(node_id@.take(i as int + 1).last() == id);
        }
        match osm_nodes.get(&id.0) {
            None => {
                proof {
                    lemma_first_unknown_stays(osm_nodes@, node_id@, i as int + 1);
                }
                return Err(RouteError::UnknownNode(id));
            },
            Some(node) => {
                graph.add_node(*node);
            },
        }
        i += 1;
    }
    assert(node_id@.take(node_id.len() as int) =~= node_id@);
    Ok(())
}

/// Once an id is lacking among the first `n`, the first lacking id of the whole list is
/// that of its first `n`.
proof fn lemma_first_unknown_stays(known: Map<i64, Node>, ids: Seq<NodeId>, n: int)
    requires
        0 <= n <= ids.len(),
        first_unknown(known, ids.take(n)) < n,
    ensures
        first_unknown(known, ids) == first_unknown(known, ids.take(n)),
    decreases ids.len() - n,
{
    if n < ids.len() {
        assert(ids.take(n + 1).drop_last() =~= ids.take(n));
        lemma_first_unknown_stays(known, ids, n + 1);
    } else {
        assert(ids.take(n) =~= ids);
    }
}

/// The graph after the stretch of a way from `from` to `to` is added: the two nodes,
/// an edge in each direction with the length between the nodes, and a connection in
/// each direction.
pub open spec fn segment_added(
    g: GraphView,
    from: NodeId,
    to: NodeId,
    a: Node,
    b: Node,
    highway_type: ApprovedHighwayType,
) -> GraphView {
    let forth = Edge { from, to, length: node_distance(a, b) as u64, highway_type };
    let back = Edge { from: to, to: from, length: node_distance(a, b) as u64, highway_type };
    GraphView {
        nodes: g.nodes.insert(a.id, a).insert(b.id, b),
        edges: g.edges.push(forth).push(back),
        edge_by_node_id: g.edge_by_node_id.insert((from, to), forth).insert((to, from), back),
        edge_connections: g.connected(from, to).connected(to, from).edge_connections,
    }
}

/// How many stretches a way through `n` nodes has.
pub open spec fn stretches(n: nat) -> nat {
    if n == 0 {
        0
    } else {
        (n - 1) as nat
    }
}

/// The graph and the box of coordinates after the first `count` stretches of a way are
/// added, or the first node of them that `known` lacks.
pub open spec fn way_added(
    known: Map<i64, Node>,
    g: GraphView,
    stats: CoordinateStats,
    ids: Seq<NodeId>,
    highway_type: ApprovedHighwayType,
    count: nat,
) -> Result<(GraphView, CoordinateStats), RouteError>
    decreases count,
{
    if count == 0 {
        Ok((g, stats))
    } else {
        match way_added(known, g, stats, ids, highway_type, (count - 1) as nat) {
            Err(e) => Err(e),
            Ok((g1, s1)) => {
                let from = ids[count - 1];
                let to = ids[count as int];
                if !known.contains_key(from.0) {
                    Err(RouteError::UnknownNode(from))
                } else if !known.contains_key(to.0) {
                    Err(RouteError::UnknownNode(to))
                } else {
                    Ok(
                        (
                            segment_added(g1, from, to, known[from.0], known[to.0], highway_type),
                            widened(s1, g1.edges.len() == 0, known[from.0]),
                        ),
                    )
                }
            },
        }
    }
}

/// Adds the stretch of a way from `from` to `to` to the graph.
pub fn add_segment(
    graph: &mut Graph,
    stats: &mut CoordinateStats,
    osm_nodes: &HashMap<i64, Node>,
    from: NodeId,
    to: NodeId,
    highway_type: ApprovedHighwayType,
) -> (r: Result<(), RouteError>)
    ensures
        !osm_nodes@.contains_key(from.0) ==> r == Err::<(), RouteError>(
            RouteError::UnknownNode(from),
        ),
        osm_nodes@.contains_key(from.0) && !osm_nodes@.contains_key(to.0) ==> r == Err::<
            (),
            RouteError,
        >(RouteError::UnknownNode(to)),
        osm_nodes@.contains_key(from.0) && osm_nodes@.contains_key(to.0) ==> {
            &&& r is Ok
            &&& final(graph)@ == segment_added(
                old(graph)@,
                from,
                to,
                osm_nodes@[from.0],
                osm_nodes@[to.0],
                highway_type,
            )
            &&& *final(stats) == widened(
                *old(stats),
                old(graph)@.edges.len() == 0,
                osm_nodes@[from.0],
            )
        },
{
    let node_from: Node = match osm_nodes.get(&from.0) {
        None => {
            return Err(RouteError::UnknownNode(from));
        },
        Some(n) => *n,
    };
    let node_to: Node = match osm_nodes.get(&to.0) {
        None => {
            return Err(RouteError::UnknownNode(to));
        },
        Some(n) => *n,
    };
    let first: bool = graph.edges().len() == 0;
    let mut pair: Vec<NodeId> = Vec::new();
    pair.push(from);
    pair.push(to);
    proof {
        let ids = pair@;
        assert(ids.take(2) =~= ids);
        assert(ids.drop_last() =~= seq![from]);
        assert(ids.drop_last().drop_last() =~= Seq::<NodeId>::empty());
        assert(first_unknown(osm_nodes@, ids.drop_last().drop_last()) == 0);
        assert(first_unknown(osm_nodes@, ids.drop_last()) == 1);
        assert(first_unknown(osm_nodes@, ids) == 2);
        let before = old(graph)@.nodes;
        assert(nodes_inserted(before, osm_nodes@, ids.drop_last().drop_last()) == before);
        assert(ids.drop_last().last() == from);
        assert(nodes_inserted(before, osm_nodes@, ids.drop_last()) == before.insert(
            node_from.id,
            node_from,
        ));
        assert(ids.last() == to);
        assert(nodes_inserted(before, osm_nodes@, ids) == before.insert(
            node_from.id,
            node_from,
        ).insert(node_to.id, node_to));
    }
    match insert_many(&pair, graph, osm_nodes) {
        Ok(()) => {},
        Err(e) => {
            return Err(e);
        },
    }
    update_min_max_stats(stats, first, &node_from);
    let edge_length: u64 = Edge::length(&node_from, &node_to);
    graph.add_edge(Edge::new(from, to, edge_length, highway_type));
    graph.add_edge(Edge::new(to, from, edge_length, highway_type));
    graph.add_edge_connection(from, to);
    graph.add_edge_connection(to, from);
    Ok(())
}

/// Adds every stretch of a way to the graph. Stops with `UnknownNode` at the first
/// node of the way that `osm_nodes` lacks.
pub fn add_way(
    graph: &mut Graph,
    stats: &mut CoordinateStats,
    osm_nodes: &HashMap<i64, Node>,
    way_nodes: &Vec<NodeId>,
    highway_type: ApprovedHighwayType,
) -> (r: Result<(), RouteError>)
    ensures
        match way_added(
            osm_nodes@,
            old(graph)@,
            *old(stats),
            way_nodes@,
            highway_type,
            stretches(way_nodes@.len()),
        ) {
            Ok((g, s)) => r is Ok && final(graph)@ == g && *final(stats) == s,
            Err(e) => r == Err::<(), RouteError>(e),
        },
{
    let way_nodes_count: usize = way_nodes.len();
    if way_nodes_count == 0 {
        return Ok(());
    }
    let mut way_node_idx: usize = 0;
    while way_node_idx < way_nodes_count - 1
        invariant
            way_nodes_count == way_nodes.len(),
            way_nodes_count >= 1,
            way_node_idx <= way_nodes_count - 1,
            way_added(
                osm_nodes@,
                old(graph)@,
                *old(stats),
                way_nodes@,
                highway_type,
                way_node_idx as nat,
            ) == Ok::<(GraphView, CoordinateStats), RouteError>((graph@, *stats)),
        decreases way_nodes_count - way_node_idx,
    {
        let node_id_from: NodeId = way_nodes[way_node_idx];
        let node_id_to: NodeId = way_nodes[way_node_idx + 1];
        match add_segment(graph, stats, osm_nodes, node_id_from, node_id_to, highway_type) {
            Ok(()) => {},
            Err(e) => {
                proof {
                    lemma_way_error_stays(
                        osm_nodes@,
                        old(graph)@,
                        *old(stats),
                        way_nodes@,
                        highway_type,
                        way_node_idx as nat + 1,
                        stretches(way_nodes@.len()),
                    );
                }
                return Err(e);
            },
        }
        way_node_idx += 1;
    }
    Ok(())
}

/// A way that fails within its first `n` stretches fails in the same way as a whole.
proof fn lemma_way_error_stays(
    known: Map<i64, Node>,
    g: GraphView,
    stats: CoordinateStats,
    ids: Seq<NodeId>,
    highway_type: ApprovedHighwayType,
    n: nat,
    count: nat,
)
    requires
        n <= count,
        way_added(known, g, stats, ids, highway_type, n) is Err,
    ensures
        way_added(known, g, stats, ids, highway_type, count) == way_added(
            known,
            g,
            stats,
            ids,
            highway_type,
            n,
        ),
    decreases count - n,
{
    if n < count {
        lemma_way_error_stays(known, g, stats, ids, highway_type, n, (count - 1) as nat);
    }
}

/// A graph that holds nothing.
pub open spec fn empty_graph() -> GraphView {
    GraphView {
        nodes: Map::empty(),
        edges: Seq::empty(),
        edge_by_node_id: Map::empty(),
        edge_connections: Map::empty(),
    }
}

/// The nodes seen, the graph and the box of coordinates after the first `count` objects
/// of a map extract are taken in, or the first node of a way that was not seen before
/// the way.
///
/// A node is remembered under its id; a later node with the same id takes its place. A
/// way that `way_type` gives a road class adds its stretches to the graph. Anything else
/// is passed over.
pub open spec fn objects_ingested(objects: Seq<MapObject>, count: nat) -> Result<
    (Map<i64, Node>, GraphView, CoordinateStats),
    RouteError,
>
    decreases count,
{
    if count == 0 {
        Ok(
            (
                Map::empty(),
                empty_graph(),
                CoordinateStats { min_lat: 0, max_lat: 0, min_lon: 0, max_lon: 0 },
            ),
        )
    } else {
        match objects_ingested(objects, (count - 1) as nat) {
            Err(e) => Err(e),
            Ok((known, g, stats)) => match objects[count - 1] {
                MapObject::Node(n) => Ok((known.insert(n.id.0, n), g, stats)),
                MapObject::Way(w) => match way_type(w.tags@) {
                    None => Ok((known, g, stats)),
                    Some(highway_type) => match way_added(
                        known,
                        g,
                        stats,
                        w.nodes@,
                        highway_type,
                        stretches(w.nodes@.len()),
                    ) {
                        Err(e) => Err(e),
                        Ok((g2, s2)) => Ok((known, g2, s2)),
                    },
                },
                MapObject::Other => Ok((known, g, stats)),
            },
        }
    }
}

/// An extract that fails within its first `n` objects fails in the same way as a whole.
proof fn lemma_ingest_error_stays(objects: Seq<MapObject>, n: nat, count: nat)
    requires
        n <= count,
        objects_ingested(objects, n) is Err,
    ensures
        objects_ingested(objects, count) == objects_ingested(objects, n),
    decreases count - n,
{
    if n < count {
        lemma_ingest_error_stays(objects, n, (count - 1) as nat);
    }
}

/// Builds the road graph from the objects of a map extract, taken in order, together
/// with the box of coordinates around the nodes that stretches of ways leave from.
/// Every stretch of an accepted way enters the graph in both directions. Fails with
/// `UnknownNode` on the first node of an accepted way that the extract has not shown
/// before the way.
pub fn produce_connection_graph(objects: &Vec<MapObject>) -> (r: Result<
    (Graph, CoordinateStats),
    RouteError,
>)
    ensures
        match objects_ingested(objects@, objects@.len()) {
            Ok((known, g, s)) => r matches Ok((graph, stats)) && graph@ == g && stats == s,
            Err(e) => r matches Err(err) && err == e,
        },
{
    let mut osm_nodes: HashMap<i64, Node> = HashMap::new();
    let mut graph = Graph::new();
    let mut stats = CoordinateStats { min_lat: 0, max_lat: 0, min_lon: 0, max_lon: 0 };
    assert(graph@ == empty_graph());
    let mut i: usize = 0;
    while i < objects.len()
        invariant
            i <= objects.len(),
            objects_ingested(objects@, i as nat) == Ok::<
                (Map<i64, Node>, GraphView, CoordinateStats),
                RouteError,
            >((osm_nodes@, graph@, stats)),
        decreases objects.len() - i,
    {
        match &objects[i] {
            MapObject::Node(node) => {
                osm_nodes.insert(node.id.0, *node);
            },
            MapObject::Way(way) => {
                if let Some((accepted, road_type)) = filter_way_data(way) {
                    match add_way(&mut graph, &mut stats, &osm_nodes, &accepted.nodes, road_type) {
                        Ok(()) => {},
                        Err(e) => {
                            proof {
                                lemma_ingest_error_stays(
                                    objects@,
                                    i as nat + 1,
                                    objects@.len(),
                                );
                            }
                            return Err(e);
                        },
                    }
                }
            },
            MapObject::Other => {},
        }
        i += 1;
    }
    Ok((graph, stats))
}

} // verus!
