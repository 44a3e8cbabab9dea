use std::collections::HashSet;

use route_generator::geometry::{ceil_sqrt_u128, flat_distance_mm};
use route_generator::graph::{edge_key_of, Edge, Graph, Node, NodeId};
use route_generator::parser::ApprovedHighwayType;
use route_generator::status::RouteError;

#[test]
fn test_map_node_hash_insert() {
    let node1 = Node::new(NodeId(1), 0, 0);
    let node2 = Node::new(NodeId(1), 51_000_000, 230_000_000);
    let node3 = Node::new(NodeId(2), 0, 0);

    let mut set = HashSet::new();
    set.insert(node1);
    set.insert(node2);
    set.insert(node3);

    assert_eq!(set.len(), 2);
}

#[test]
fn test_map_node_eq() {
    let node1 = Node::new(NodeId(1), 70_000_000, 30_000_000);
    let node2 = Node::new(NodeId(4), 51_000_000, 230_000_000);
    let node3 = Node::new(NodeId(4), 78_000_000, 1_115_643_400);

    let mut set = HashSet::new();
    set.insert(node1);
    set.insert(node2);

    assert_eq!(set.len(), 2);

    assert!(set.contains(&Node::new(NodeId(1), 0, 0)));
    assert!(set.contains(&Node::new(NodeId(4), 51_000_000, 230_000_000)));

    assert_ne!(node1, node2);

    assert_eq!(node2, node3);
}

#[test]
fn test_edge_length() {
    // Three and four degrees apart: five degrees, at 111.1 km each, in millimetres.
    let p1 = Node::new(NodeId(1), 0, 0);
    let p2 = Node::new(NodeId(1), 30_000_000, 40_000_000);

    let len = Edge::length(&p1, &p2);

    assert_eq!(len, 555_500_000)
}

#[test]
fn test_edge_length_single_point() {
    let p1 = Node::new(NodeId(1), 0, 0);
    let p2 = Node::new(NodeId(1), 0, 0);

    let len = Edge::length(&p1, &p2);

    assert_eq!(len, 0)
}

#[test]
fn test_node_connections() {
    let mut g = Graph::new();

    g.add_edge_connection(NodeId(1), NodeId(2));
    g.add_edge_connection(NodeId(1), NodeId(3));
    g.add_edge_connection(NodeId(3), NodeId(4));

    assert_eq!(g.edge_connections().len(), 2); // We have two distinct keys
    assert_eq!(g.edge_connections().get(&2), None);
    assert_eq!(g.edge_connections().get(&1), Some(&vec![NodeId(2), NodeId(3)]));
}

#[test]
fn test_node_connections_circular() {
    let mut g = Graph::new();

    g.add_edge_connection(NodeId(1), NodeId(2));
    g.add_edge_connection(NodeId(1), NodeId(3));
    g.add_edge_connection(NodeId(3), NodeId(4));
    g.add_edge_connection(NodeId(3), NodeId(1));
    g.add_edge_connection(NodeId(1), NodeId(1));

    assert_eq!(g.edge_connections().len(), 2); // We have two distinct keys
    assert_eq!(g.edge_connections().get(&2), None);
    assert_eq!(
        g.edge_connections().get(&1),
        Some(&vec![NodeId(2), NodeId(3), NodeId(1)])
    );
}

#[test]
fn adjacency_keeps_order_and_duplicates() {
    let mut g = Graph::new();
    g.add_edge_connection(NodeId(1), NodeId(2));
    g.add_edge_connection(NodeId(1), NodeId(3));
    g.add_edge_connection(NodeId(3), NodeId(4));
    g.add_edge_connection(NodeId(3), NodeId(1));
    g.add_edge_connection(NodeId(1), NodeId(1));
    g.add_edge_connection(NodeId(1), NodeId(2));

    assert_eq!(
        g.neighbours(NodeId(1)),
        Some(&vec![NodeId(2), NodeId(3), NodeId(1), NodeId(2)])
    );
    assert_eq!(g.neighbours(NodeId(3)), Some(&vec![NodeId(4), NodeId(1)]));
    assert_eq!(g.neighbours(NodeId(4)), None);
}

#[test]
fn edge_equality_same_node_ids() {
    let e1 = Edge::new(NodeId(1), NodeId(2), 0, ApprovedHighwayType::Motorway);
    let e2 = Edge::new(NodeId(1), NodeId(2), 0, ApprovedHighwayType::Motorway);

    assert_eq!(e1, e2);
}

#[test]
fn edge_equality_direction_doest_not_matter() {
    let e1 = Edge::new(NodeId(1), NodeId(2), 0, ApprovedHighwayType::Motorway);
    let e2 = Edge::new(NodeId(2), NodeId(1), 0, ApprovedHighwayType::Motorway);

    assert_eq!(e1, e2);
}

#[test]
fn edge_equality_not_equal() {
    let e1 = Edge::new(NodeId(1), NodeId(2), 0, ApprovedHighwayType::Motorway);
    let e2 = Edge::new(NodeId(3), NodeId(5), 0, ApprovedHighwayType::Motorway);

    assert_ne!(e1, e2);
}

#[test]
fn edge_equality_type_does_not_matter() {
    let e1 = Edge::new(NodeId(1), NodeId(2), 0, ApprovedHighwayType::Motorway);
    let e2 = Edge::new(NodeId(1), NodeId(2), 0, ApprovedHighwayType::Secondary);

    assert_eq!(e1, e2);
}

#[test]
fn edge_equality_length_does_not_matter() {
    let e1 = Edge::new(NodeId(1), NodeId(2), 0, ApprovedHighwayType::Motorway);
    let e2 = Edge::new(NodeId(1), NodeId(2), 12_340, ApprovedHighwayType::Motorway);

    assert_eq!(e1, e2);
}

#[test]
fn edge_equality_shares_one_end_only() {
    let e1 = Edge::new(NodeId(1), NodeId(2), 0, ApprovedHighwayType::Motorway);
    let e2 = Edge::new(NodeId(1), NodeId(3), 0, ApprovedHighwayType::Motorway);
    let e3 = Edge::new(NodeId(2), NodeId(2), 0, ApprovedHighwayType::Motorway);

    assert_ne!(e1, e2);
    assert_ne!(e1, e3);
}

#[test]
fn ceil_sqrt_rounds_up() {
    assert_eq!(ceil_sqrt_u128(0), 0);
    assert_eq!(ceil_sqrt_u128(1), 1);
    assert_eq!(ceil_sqrt_u128(2), 2);
    assert_eq!(ceil_sqrt_u128(4), 2);
    assert_eq!(ceil_sqrt_u128(5), 3);
    assert_eq!(ceil_sqrt_u128(1_000_000), 1_000);
    assert_eq!(ceil_sqrt_u128(1_000_001), 1_001);
    assert_eq!(ceil_sqrt_u128(u128::MAX), 1u128 << 64);
}

#[test]
fn distance_is_rounded_up_to_the_millimetre() {
    // One decimicro-degree is 11.11 mm.
    assert_eq!(flat_distance_mm(0, 0, 1, 0), 12);
    assert_eq!(flat_distance_mm(0, 0, 0, 100), 1111);
    // One degree is 111.1 km.
    assert_eq!(flat_distance_mm(0, 0, 10_000_000, 0), 111_100_000);
    assert_eq!(flat_distance_mm(i32::MIN, i32::MIN, i32::MAX, i32::MAX), 67_482_151_094);
}

#[test]
fn distance_is_a_metric_on_samples() {
    let points = [
        (0, 0),
        (1, 0),
        (521_234_567, 209_876_543),
        (-337_000_001, 1_511_000_007),
        (i32::MAX, i32::MIN),
        (3, -4),
    ];
    for a in points {
        assert_eq!(flat_distance_mm(a.0, a.1, a.0, a.1), 0);
        for b in points {
            let ab = flat_distance_mm(a.0, a.1, b.0, b.1);
            assert_eq!(ab, flat_distance_mm(b.0, b.1, a.0, a.1));
            for c in points {
                let bc = flat_distance_mm(b.0, b.1, c.0, c.1);
                let ac = flat_distance_mm(a.0, a.1, c.0, c.1);
                assert!(ac <= ab + bc);
            }
        }
    }
}

#[test]
fn add_node_lets_the_last_coordinates_win() {
    let mut g = Graph::new();
    g.add_node(Node::new(NodeId(7), 1, 2));
    g.add_node(Node::new(NodeId(7), 3, 4));
    g.add_node(Node::new(NodeId(8), 5, 6));

    assert_eq!(g.stats(), (2, 0));
    let found = g.find_node(NodeId(7)).unwrap();
    assert_eq!(found.get_coordinates(), (3, 4));
    assert_eq!(found.get_id(), NodeId(7));
    assert_eq!(g.nodes().get(&Node::id(NodeId(8)).get_id().0).unwrap().lat(), 5);
    assert_eq!(g.find_node(NodeId(9)), None);
}

#[test]
fn add_edge_files_the_edge_under_its_ordered_pair() {
    let mut g = Graph::new();
    let forth = Edge::new(NodeId(1), NodeId(2), 10, ApprovedHighwayType::Primary);
    let back = Edge::new(NodeId(2), NodeId(1), 20, ApprovedHighwayType::Trunk);
    g.add_edge(forth);
    g.add_edge(back);

    assert_eq!(g.stats(), (0, 2));
    assert_eq!(g.edges().len(), 2);
    assert_eq!(g.find_edge(NodeId(1), NodeId(2)).unwrap().length, 10);
    assert_eq!(g.find_edge(NodeId(2), NodeId(1)).unwrap().length, 20);
    assert_eq!(
        g.find_edge(NodeId(2), NodeId(1)).unwrap().highway_type,
        ApprovedHighwayType::Trunk
    );
    assert!(g.find_edge(NodeId(1), NodeId(3)).is_none());
    assert!(g
        .edge_by_node_id()
        .contains_key(&edge_key_of(NodeId(1), NodeId(2))));
    assert_ne!(
        edge_key_of(NodeId(-1), NodeId(5)),
        edge_key_of(NodeId(5), NodeId(-1))
    );
    assert_ne!(
        edge_key_of(NodeId(i64::MIN), NodeId(i64::MAX)),
        edge_key_of(NodeId(i64::MAX), NodeId(i64::MIN))
    );
}

#[test]
fn edge_create_computes_the_length_or_names_the_missing_node() {
    let mut g = Graph::new();
    g.add_node(Node::new(NodeId(1), 0, 0));
    g.add_node(Node::new(NodeId(2), 30_000_000, 40_000_000));

    let e = Edge::create(&g, NodeId(1), NodeId(2)).unwrap();
    assert_eq!(e.from, NodeId(1));
    assert_eq!(e.to, NodeId(2));
    assert_eq!(e.length, 555_500_000);
    assert_eq!(e.highway_type, ApprovedHighwayType::NA);

    assert_eq!(
        Edge::create(&g, NodeId(3), NodeId(2)).unwrap_err(),
        RouteError::UnknownNode(NodeId(3))
    );
    assert_eq!(
        Edge::create(&g, NodeId(1), NodeId(4)).unwrap_err(),
        RouteError::UnknownNode(NodeId(4))
    );
    assert_eq!(
        Edge::create(&g, NodeId(5), NodeId(6)).unwrap_err(),
        RouteError::UnknownNode(NodeId(5))
    );
}

#[test]
fn graph_clone_and_default_keep_the_contents() {
    let mut g = Graph::default();
    assert_eq!(g.stats(), (0, 0));
    g.add_node(Node::new(NodeId(1), 1, 1));
    g.add_edge_connection(NodeId(1), NodeId(2));
    let copy = g.clone();
    assert_eq!(copy.stats(), (1, 0));
    assert_eq!(copy.neighbours(NodeId(1)), Some(&vec![NodeId(2)]));
}
