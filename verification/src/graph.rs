//! Nodes, edges and the road graph that every search strategy reads.

use std::collections::HashMap;
use vstd::prelude::*;
use vstd::std_specs::cmp::PartialEqSpec;
use vstd::std_specs::cmp::PartialEqSpecImpl;
use crate::geometry::{flat_distance, flat_distance_mm, lemma_flat_distance_identity,
    lemma_flat_distance_symmetric, lemma_flat_distance_triangle, DISTANCE_LIMIT};
use crate::parser::ApprovedHighwayType;
use crate::status::RouteError;

verus! {

/// The identity of a node.
#[derive(Debug, Clone, Copy, PartialEq, Eq, Structural, Hash, PartialOrd, Ord)]
pub struct NodeId(pub i64);

/// A point of the road graph; latitude and longitude are in decimicro-degrees.
#[derive(Debug, Clone, Copy)]
pub struct Node {
    pub id: NodeId,
    pub lat: i32,
    pub lon: i32,
}

impl PartialEq for Node {
    fn eq(&self, other: &Self) -> (r: bool) {
        self.id == other.id
    }
}

impl Eq for Node {}

impl PartialEqSpecImpl for Node {
    open spec fn obeys_eq_spec() -> bool {
        true
    }

    open spec fn eq_spec(&self, other: &Self) -> bool {
        self.id == other.id
    }
}

/// `i64`'s `Hash::hash` feeds the number to the hasher; nothing is claimed of the hasher's state.
pub assume_specification<H: std::hash::Hasher>[ <i64 as std::hash::Hash>::hash ](
    value: &i64,
    state: &mut H,
);

impl std::hash::Hash for Node {
    fn hash<H: std::hash::Hasher>(&self, state: &mut H) {
        self.id.0.hash(state);
    }
}

impl Node {
    pub fn new(id: NodeId, lat: i32, lon: i32) -> (n: Self)
        ensures
            n == (Node { id, lat, lon }),
    {
        Node { id, lat, lon }
    }

    /// A probe for lookups by id: its coordinates are placeholders.
    pub fn id(id: NodeId) -> (n: Self)
        ensures
            n == (Node { id, lat: 0, lon: 0 }),
    {
        Node { id, lat: 0, lon: 0 }
    }

    pub fn get_id(&self) -> (r: NodeId)
        ensures
            r == self.id,
    {
        self.id
    }

    pub fn get_coordinates(&self) -> (r: (i32, i32))
        ensures
            r == (self.lat, self.lon),
    {
        (self.lat, self.lon)
    }

    pub fn lat(&self) -> (r: i32)
        ensures
            r == self.lat,
    {
        self.lat
    }

    pub fn lon(&self) -> (r: i32)
        ensures
            r == self.lon,
    {
        self.lon
    }
}

/// The distance in millimetres between two nodes.
pub open spec fn node_distance(a: Node, b: Node) -> nat {
    flat_distance(a.lat as int, a.lon as int, b.lat as int, b.lon as int)
}

/// A connection between two nodes, stored with a direction and compared without one.
#[derive(Debug, Clone, Copy)]
pub struct Edge {
    pub from: NodeId,
    pub to: NodeId,
    /// Physical length in millimetres.
    pub length: u64,
    pub highway_type: ApprovedHighwayType,
}

impl PartialEq for Edge {
    fn eq(&self, other: &Self) -> (r: bool) {
        (self.from == other.from && self.to == other.to) || (self.from == other.to && self.to
            == other.from)
    }
}

impl Eq for Edge {}

impl PartialEqSpecImpl for Edge {
    open spec fn obeys_eq_spec() -> bool {
        true
    }

    open spec fn eq_spec(&self, other: &Self) -> bool {
        (self.from == other.from && self.to == other.to) || (self.from == other.to && self.to
            == other.from)
    }
}

/// Whether an edge joins `a` and `b`, in either direction.
pub open spec fn joins(e: Edge, a: NodeId, b: NodeId) -> bool {
    (e.from == a && e.to == b) || (e.from == b && e.to == a)
}

/// The key under which the directed pair `(from, to)` is stored.
pub open spec fn edge_key(from: NodeId, to: NodeId) -> int {
    from.0 * 0x1_0000_0000_0000_0000 + (to.0 + 0x8000_0000_0000_0000)
}

/// Distinct directed pairs have distinct keys.
pub proof fn lemma_edge_key_injective(a: NodeId, b: NodeId, c: NodeId, d: NodeId)
    requires
        edge_key(a, b) == edge_key(c, d),
    ensures
        a == c,
        b == d,
{
}

/// Computes the key under which the directed pair `(from, to)` is stored.
pub fn edge_key_of(from: NodeId, to: NodeId) -> (k: i128)
    ensures
        k == edge_key(from, to),
{
    let high: i128 = from.0 as i128;
    let low: i128 = to.0 as i128;
    high * 0x1_0000_0000_0000_0000 + (low + 0x8000_0000_0000_0000)
}

/// What a graph holds, as plain mathematical values.
pub struct GraphView {
    /// The nodes, by id.
    pub nodes: Map<NodeId, Node>,
    /// Every edge in the order of insertion.
    pub edges: Seq<Edge>,
    /// The last edge inserted for each ordered pair of endpoints.
    pub edge_by_node_id: Map<(NodeId, NodeId), Edge>,
    /// For each source node the targets of its connections, in the order of insertion.
    pub edge_connections: Map<NodeId, Seq<NodeId>>,
}

impl GraphView {
    /// The targets reachable from `id` by one connection; empty where `id` has no entry.
    pub open spec fn adjacency(self, id: NodeId) -> Seq<NodeId> {
        if self.edge_connections.contains_key(id) {
            self.edge_connections[id]
        } else {
            Seq::empty()
        }
    }

    /// The graph with the connection from `from` to `to` added at the end of the
    /// connections of `from`.
    pub open spec fn connected(self, from: NodeId, to: NodeId) -> GraphView {
        GraphView {
            edge_connections: self.edge_connections.insert(from, self.adjacency(from).push(to)),
            ..self
        }
    }

    /// Every node is filed under its own id, every edge under its own endpoints.
    pub open spec fn consistent(self) -> bool {
        &&& forall|id: NodeId| #[trigger]
            self.nodes.contains_key(id) ==> self.nodes[id].id == id
        &&& forall|from: NodeId, to: NodeId| #[trigger]
            self.edge_by_node_id.contains_key((from, to)) ==> {
                &&& self.edge_by_node_id[(from, to)].from == from
                &&& self.edge_by_node_id[(from, to)].to == to
            }
    }
}

#[derive(Debug)]
pub struct Graph {
    nodes: HashMap<i64, Node>,
    edges: Vec<Edge>,
    edge_by_node_id: HashMap<i128, Edge>,
    edge_connections: HashMap<i64, Vec<NodeId>>,
}

pub const DEFAULT_GRAPH_NODES_CAPACITY: usize = 5000;

/// Each point can have two edges: one coming in and one going out.
pub const DEFAULT_GRAPH_EDGES_CAPACITY: usize = 10000;

/// The node map as it reads when keyed by `NodeId`.
pub open spec fn nodes_by_id(m: Map<i64, Node>) -> Map<NodeId, Node> {
    Map::new(|id: NodeId| m.contains_key(id.0), |id: NodeId| m[id.0])
}

/// The edge map as it reads when keyed by the ordered pair of endpoints.
pub open spec fn edges_by_pair(m: Map<i128, Edge>) -> Map<(NodeId, NodeId), Edge> {
    Map::new(
        |p: (NodeId, NodeId)| m.contains_key(edge_key(p.0, p.1) as i128),
        |p: (NodeId, NodeId)| m[edge_key(p.0, p.1) as i128],
    )
}

/// The adjacency index as it reads when keyed by `NodeId`.
pub open spec fn connections_by_id(m: Map<i64, Vec<NodeId>>) -> Map<NodeId, Seq<NodeId>> {
    Map::new(|id: NodeId| m.contains_key(id.0), |id: NodeId| m[id.0]@)
}

impl View for Graph {
    type V = GraphView;

    closed spec fn view(&self) -> GraphView {
        GraphView {
            nodes: nodes_by_id(self.nodes@),
            edges: self.edges@,
            edge_by_node_id: edges_by_pair(self.edge_by_node_id@),
            edge_connections: connections_by_id(self.edge_connections@),
        }
    }
}

impl Default for Graph {
    fn default() -> (g: Self)
        ensures
            g@.nodes == Map::<NodeId, Node>::empty(),
            g@.edges == Seq::<Edge>::empty(),
            g@.edge_by_node_id == Map::<(NodeId, NodeId), Edge>::empty(),
            g@.edge_connections == Map::<NodeId, Seq<NodeId>>::empty(),
    {
        Graph::new()
    }
}

impl Clone for Graph {
    fn clone(&self) -> (g: Self)
        ensures
            g@ == self@,
    {
        proof {
            use_type_invariant(self);
        }
        Graph {
            nodes: self.nodes.clone(),
            edges: self.edges.clone(),
            edge_by_node_id: self.edge_by_node_id.clone(),
            edge_connections: self.edge_connections.clone(),
        }
    }
}

impl Graph {
    #[verifier::type_invariant]
    closed spec fn wf(&self) -> bool {
        &&& forall|k: i64| #[trigger]
            self.nodes@.contains_key(k) ==> self.nodes@[k].id.0 == k
        &&& forall|k: i128| #[trigger]
            self.edge_by_node_id@.contains_key(k) ==> k == edge_key(
                self.edge_by_node_id@[k].from,
                self.edge_by_node_id@[k].to,
            )
    }

    /// An empty graph.
    pub fn new() -> (g: Self)
        ensures
            g@.nodes == Map::<NodeId, Node>::empty(),
            g@.edges == Seq::<Edge>::empty(),
            g@.edge_by_node_id == Map::<(NodeId, NodeId), Edge>::empty(),
            g@.edge_connections == Map::<NodeId, Seq<NodeId>>::empty(),
    {
        let g = Graph {
            nodes: HashMap::with_capacity(DEFAULT_GRAPH_NODES_CAPACITY),
            edges: Vec::with_capacity(DEFAULT_GRAPH_EDGES_CAPACITY),
            edge_by_node_id: HashMap::new(),
            edge_connections: HashMap::new(),
        };
        assert(g@.nodes =~= Map::<NodeId, Node>::empty());
        assert(g@.edge_by_node_id =~= Map::<(NodeId, NodeId), Edge>::empty());
        assert(g@.edge_connections =~= Map::<NodeId, Seq<NodeId>>::empty());
        g
    }

    /// The number of nodes and the number of edges.
    pub fn stats(&self) -> (r: (usize, usize))
        ensures
            r.0 == self@.nodes.len(),
            r.1 == self@.edges.len(),
    {
        proof {
            self.lemma_nodes_len();
        }
        (self.nodes.len(), self.edges.len())
    }

    /// Files `node` under its id; a node already there is replaced, so the last
    /// coordinates written win.
    pub fn add_node(&mut self, node: Node)
        ensures
            final(self)@ == (GraphView {
                nodes: old(self)@.nodes.insert(node.id, node),
                ..old(self)@
            }),
    {
        proof {
            use_type_invariant(&*self);
        }
        let mut nodes: HashMap<i64, Node> = HashMap::new();
        std::mem::swap(&mut self.nodes, &mut nodes);
        nodes.insert(node.id.0, node);
        std::mem::swap(&mut self.nodes, &mut nodes);
        assert(nodes_by_id(self.nodes@) =~= nodes_by_id(old(self).nodes@).insert(node.id, node));
    }

    /// Appends `to` to the connections of `from`; nothing is deduplicated.
    pub fn add_edge_connection(&mut self, from: NodeId, to: NodeId)
        ensures
            final(self)@ == old(self)@.connected(from, to),
    {
        proof {
            use_type_invariant(&*self);
        }
        let mut index: HashMap<i64, Vec<NodeId>> = HashMap::new();
        std::mem::swap(&mut self.edge_connections, &mut index);
        let mut connections: Vec<NodeId> = match index.remove(&from.0) {
            Some(v) => v,
            None => Vec::new(),
        };
        connections.push(to);
        index.insert(from.0, connections);
        std::mem::swap(&mut self.edge_connections, &mut index);
        assert(connections_by_id(self.edge_connections@) =~= connections_by_id(
            old(self).edge_connections@,
        ).insert(from, old(self)@.adjacency(from).push(to)));
    }

    /// Appends `edge` to the edge list and files it under its ordered pair of endpoints.
    pub fn add_edge(&mut self, edge: Edge)
        ensures
            final(self)@ == (GraphView {
                edges: old(self)@.edges.push(edge),
                edge_by_node_id: old(self)@.edge_by_node_id.insert((edge.from, edge.to), edge),
                ..old(self)@
            }),
    {
        proof {
            use_type_invariant(&*self);
        }
        let key: i128 = edge_key_of(edge.from, edge.to);
        let mut by_pair: HashMap<i128, Edge> = HashMap::new();
        std::mem::swap(&mut self.edge_by_node_id, &mut by_pair);
        by_pair.insert(key, edge);
        std::mem::swap(&mut self.edge_by_node_id, &mut by_pair);
        let mut edges: Vec<Edge> = Vec::new();
        std::mem::swap(&mut self.edges, &mut edges);
        edges.push(edge);
        std::mem::swap(&mut self.edges, &mut edges);
        assert(edges_by_pair(self.edge_by_node_id@) =~= edges_by_pair(
            old(self).edge_by_node_id@,
        ).insert((edge.from, edge.to), edge)) by {
            assert forall|p: (NodeId, NodeId)| p != (edge.from, edge.to) implies edge_key(p.0, p.1)
                != key by {
                if edge_key(p.0, p.1) == key {
                    lemma_edge_key_injective(p.0, p.1, edge.from, edge.to);
                }
            }
        }
    }

    /// The nodes, keyed by the number of their id.
    pub fn nodes(&self) -> (r: &HashMap<i64, Node>)
        ensures
            nodes_by_id(r@) == self@.nodes,
            self@.consistent(),
    {
        proof {
            use_type_invariant(self);
        }
        &self.nodes
    }

    /// Every edge in the order of insertion.
    pub fn edges(&self) -> (r: &Vec<Edge>)
        ensures
            r@ == self@.edges,
    {
        &self.edges
    }

    /// The adjacency index, keyed by the number of the source node's id.
    pub fn edge_connections(&self) -> (r: &HashMap<i64, Vec<NodeId>>)
        ensures
            connections_by_id(r@) == self@.edge_connections,
    {
        &self.edge_connections
    }

    /// The edges by ordered pair of endpoints, keyed by `edge_key`.
    pub fn edge_by_node_id(&self) -> (r: &HashMap<i128, Edge>)
        ensures
            edges_by_pair(r@) == self@.edge_by_node_id,
            self@.consistent(),
    {
        proof {
            use_type_invariant(self);
            self.lemma_consistent();
        }
        &self.edge_by_node_id
    }

    /// Looks a node up by its id.
    pub fn find_node(&self, id: NodeId) -> (r: Option<Node>)
        ensures
            r == self@.nodes.get(id),
            self@.consistent(),
    {
        proof {
            use_type_invariant(self);
            self.lemma_consistent();
        }
        match self.nodes.get(&id.0) {
            Some(n) => Some(*n),
            None => None,
        }
    }

    /// Looks up the connections that leave `id`.
    pub fn neighbours(&self, id: NodeId) -> (r: Option<&Vec<NodeId>>)
        ensures
            match r {
                Some(v) => self@.edge_connections.contains_key(id) && v@
                    == self@.edge_connections[id],
                None => !self@.edge_connections.contains_key(id),
            },
    {
        self.edge_connections.get(&id.0)
    }

    /// Looks up the edge stored for the ordered pair `(from, to)`.
    pub fn find_edge(&self, from: NodeId, to: NodeId) -> (r: Option<Edge>)
        ensures
            r == self@.edge_by_node_id.get((from, to)),
            self@.consistent(),
    {
        proof {
            use_type_invariant(self);
            self.lemma_consistent();
        }
        let key: i128 = edge_key_of(from, to);
        match self.edge_by_node_id.get(&key) {
            Some(e) => Some(*e),
            None => None,
        }
    }

    proof fn lemma_consistent(&self)
        requires
            self.wf(),
        ensures
            self@.consistent(),
    {
        assert forall|from: NodeId, to: NodeId| #[trigger]
            self@.edge_by_node_id.contains_key((from, to)) implies self@.edge_by_node_id[(
            from,
            to,
        )].from == from && self@.edge_by_node_id[(from, to)].to == to by {
            let e = self@.edge_by_node_id[(from, to)];
            lemma_edge_key_injective(from, to, e.from, e.to);
        }
    }

    proof fn lemma_nodes_len(&self)
        ensures
            self@.nodes.dom().finite(),
            self@.nodes.len() == self.nodes@.len(),
    {
        let keys = self.nodes@.dom();
        let ids = self@.nodes.dom();
        assert(ids =~= keys.map(|k: i64| NodeId(k))) by {
            assert forall|id: NodeId| ids.contains(id) implies keys.map(|k: i64| NodeId(k)).contains(id) by {
                assert(keys.contains(id.0));
                assert(NodeId(id.0) == id);
            }
        }
        vstd::set_lib::lemma_map_size(keys, ids, |k: i64| NodeId(k));
        keys.lemma_map_finite(|k: i64| NodeId(k));
    }
}

impl Edge {
    pub fn new(from: NodeId, to: NodeId, length: u64, highway_type: ApprovedHighwayType) -> (e:
        Self)
        ensures
            e == (Edge { from, to, length, highway_type }),
    {
        Edge { from, to, length, highway_type }
    }

    /// The edge from `from` to `to` with its length computed from the coordinates that the
    /// graph holds now. Fails with `UnknownNode` on the first of the two ids that the graph
    /// lacks.
    pub fn create(graph: &Graph, from: NodeId, to: NodeId) -> (r: Result<Self, RouteError>)
        ensures
            r == created_edge(graph@, from, to),
            graph@.consistent(),
    {
        match graph.find_node(from) {
            None => Err(RouteError::UnknownNode(from)),
            Some(from_node) => match graph.find_node(to) {
                None => Err(RouteError::UnknownNode(to)),
                Some(to_node) => {
                    let length: u64 = Edge::length(&from_node, &to_node);
                    Ok(Edge::new(from, to, length, ApprovedHighwayType::NA))
                },
            },
        }
    }

    /// The flat-Earth distance in millimetres between two nodes.
    pub fn length(from: &Node, to: &Node) -> (r: u64)
        ensures
            r == node_distance(*from, *to),
            r < DISTANCE_LIMIT,
    {
        flat_distance_mm(from.lat, from.lon, to.lat, to.lon)
    }
}

/// What `Edge::create` yields on a graph.
pub open spec fn created_edge(g: GraphView, from: NodeId, to: NodeId) -> Result<Edge, RouteError> {
    if !g.nodes.contains_key(from) {
        Err(RouteError::UnknownNode(from))
    } else if !g.nodes.contains_key(to) {
        Err(RouteError::UnknownNode(to))
    } else {
        Ok(
            Edge {
                from,
                to,
                length: node_distance(g.nodes[from], g.nodes[to]) as u64,
                highway_type: ApprovedHighwayType::NA,
            },
        )
    }
}

/// Edge equality is symmetric.
pub proof fn lemma_edge_eq_symmetric(a: Edge, b: Edge)
    ensures
        PartialEqSpec::eq_spec(&a, &b) == PartialEqSpec::eq_spec(&b, &a),
{
}

/// An edge equals its reverse, whatever the lengths and road classes.
pub proof fn lemma_edge_eq_reversed(
    a: NodeId,
    b: NodeId,
    length: u64,
    highway_type: ApprovedHighwayType,
    other_length: u64,
    other_highway_type: ApprovedHighwayType,
)
    ensures
        PartialEqSpec::eq_spec(
            &(Edge { from: a, to: b, length, highway_type }),
            &(Edge { from: b, to: a, length: other_length, highway_type: other_highway_type }),
        ),
        PartialEqSpec::eq_spec(
            &(Edge { from: a, to: b, length, highway_type }),
            &(Edge { from: a, to: b, length: other_length, highway_type: other_highway_type }),
        ),
{
}

/// Two edges are equal exactly when their sets of endpoints are.
pub proof fn lemma_edge_eq_endpoints(a: Edge, b: Edge)
    ensures
        PartialEqSpec::eq_spec(&a, &b) <==> set![a.from, a.to] == set![b.from, b.to],
{
    let sa = set![a.from, a.to];
    let sb = set![b.from, b.to];
    if PartialEqSpec::eq_spec(&a, &b) {
        assert(sa =~= sb);
    }
    if sa == sb {
        assert(sa.contains(a.from) && sa.contains(a.to));
        assert(sb.contains(b.from) && sb.contains(b.to));
    }
}

/// Node equality looks at the id alone.
pub proof fn lemma_node_eq_by_id(a: Node, b: Node)
    ensures
        PartialEqSpec::eq_spec(&a, &b) <==> a.id == b.id,
        PartialEqSpec::eq_spec(&a, &(Node { id: a.id, lat: 0, lon: 0 })),
{
}

/// Two nodes that share an id leave one entry in a node map, with the coordinates
/// written last.
pub proof fn lemma_same_id_one_entry(nodes: Map<NodeId, Node>, a: Node, b: Node)
    requires
        a.id == b.id,
    ensures
        nodes.insert(a.id, a).insert(b.id, b) == nodes.insert(b.id, b),
        nodes.insert(a.id, a).insert(b.id, b).dom() == nodes.dom().insert(a.id),
        nodes.insert(a.id, a).insert(b.id, b)[a.id] == b,
{
    assert(nodes.insert(a.id, a).insert(b.id, b) =~= nodes.insert(b.id, b));
    assert(nodes.insert(b.id, b).dom() =~= nodes.dom().insert(a.id));
}

/// A new connection goes to the end of the connections of its source, behind all that
/// were there, whether or not the target is among them or is the source itself; the
/// connections of every other node stay as they are.
pub proof fn lemma_connection_appended(g: GraphView, from: NodeId, to: NodeId)
    ensures
        g.connected(from, to).adjacency(from) == g.adjacency(from).push(to),
        g.connected(from, to).adjacency(from).len() == g.adjacency(from).len() + 1,
        g.connected(from, to).adjacency(from).last() == to,
        forall|i: int|
            0 <= i < g.adjacency(from).len() ==> g.connected(from, to).adjacency(from)[i]
                == #[trigger] g.adjacency(from)[i],
        forall|other: NodeId|
            other != from ==> #[trigger] g.connected(from, to).adjacency(other) == g.adjacency(
                other,
            ),
        g.connected(from, to).edge_connections.dom() == g.edge_connections.dom().insert(from),
{
}

/// A node is at distance zero from itself.
pub proof fn lemma_length_identity(n: Node)
    ensures
        node_distance(n, n) == 0,
{
    lemma_flat_distance_identity(n.lat as int, n.lon as int);
}

/// The distance between two nodes does not depend on the direction.
pub proof fn lemma_length_symmetric(a: Node, b: Node)
    ensures
        node_distance(a, b) == node_distance(b, a),
{
    lemma_flat_distance_symmetric(a.lat as int, a.lon as int, b.lat as int, b.lon as int);
}

/// The distance between nodes obeys the triangle inequality.
pub proof fn lemma_length_triangle(a: Node, b: Node, c: Node)
    ensures
        node_distance(a, c) <= node_distance(a, b) + node_distance(b, c),
{
    lemma_flat_distance_triangle(
        a.lat as int,
        a.lon as int,
        b.lat as int,
        b.lon as int,
        c.lat as int,
        c.lon as int,
    );
}

} // verus!
