use std::collections::HashMap;
use std::str::FromStr;

use route_generator::extractor::{
    insert_many, produce_connection_graph, CoordinateStats, MapObject,
};
use route_generator::graph::{Graph, Node, NodeId};
use route_generator::loader::{DataFetcher, Loader, OutputFormat};
use route_generator::parser::{filter_way_data, ApprovedHighwayType, Way, TARGET_TAG_KEY};
use route_generator::status::RouteError;

fn tag(key: &str, value: &str) -> (String, String) {
    (String::from(key), String::from(value))
}

#[test]
fn test_none_when_no_highway_tag() {
    let osm_way = Way {
        id: 1,
        nodes: vec![],
        tags: Default::default(),
    };

    assert_eq!(filter_way_data(&osm_way), None)
}

#[test]
fn test_some_when_highway_tag_as_primary() {
    let osm_node = Way {
        id: 1,
        tags: vec![tag(TARGET_TAG_KEY, "primary")],
        nodes: vec![],
    };

    assert_eq!(
        filter_way_data(&osm_node),
        Some((&osm_node, ApprovedHighwayType::Primary))
    )
}

#[test]
fn test_some_when_highway_tag_as_primary_and_more() {
    let osm_node = Way {
        id: 1,
        tags: vec![tag(TARGET_TAG_KEY, "primary"), tag(TARGET_TAG_KEY, "trunk")],
        nodes: vec![],
    };

    assert_eq!(
        filter_way_data(&osm_node),
        Some((&osm_node, ApprovedHighwayType::Primary))
    )
}

#[test]
fn test_none_when_no_accepted_highway_tag() {
    let osm_node = Way {
        id: 1,
        tags: vec![tag(TARGET_TAG_KEY, "footway")],
        nodes: vec![],
    };

    assert_eq!(filter_way_data(&osm_node), None);
}

#[test]
fn filter_reads_the_first_highway_tag_among_others() {
    let way = Way {
        id: 2,
        tags: vec![
            tag("name", "primary"),
            tag("highway", "living_street"),
            tag("highway", "footway"),
        ],
        nodes: vec![NodeId(1)],
    };
    assert_eq!(
        filter_way_data(&way),
        Some((&way, ApprovedHighwayType::LivingStreet))
    );

    let refused = Way {
        id: 3,
        tags: vec![tag("highway", "footway"), tag("highway", "primary")],
        nodes: vec![],
    };
    assert_eq!(filter_way_data(&refused), None);
}

#[test]
fn from_str_reads_every_road_class() {
    let cases = [
        ("secondary", ApprovedHighwayType::Secondary),
        ("living_street", ApprovedHighwayType::LivingStreet),
        ("residential", ApprovedHighwayType::Residential),
        ("tertiary", ApprovedHighwayType::Tertiary),
        ("trunk", ApprovedHighwayType::Trunk),
        ("motorway", ApprovedHighwayType::Motorway),
        ("primary", ApprovedHighwayType::Primary),
        ("motorway_link", ApprovedHighwayType::MotorwayLink),
        ("trunk_link", ApprovedHighwayType::TrunkLink),
        ("primary_link", ApprovedHighwayType::PrimaryLink),
        ("secondary_link", ApprovedHighwayType::SecondaryLink),
        ("tertiary_link", ApprovedHighwayType::TertiaryLink),
    ];
    for (text, expected) in cases {
        assert_eq!(ApprovedHighwayType::from_str(text), Ok(expected));
    }
    assert_eq!(ApprovedHighwayType::from_str("footway"), Err(()));
    assert_eq!(ApprovedHighwayType::from_str("Primary"), Err(()));
    assert_eq!(ApprovedHighwayType::from_str(""), Err(()));
    assert_eq!(ApprovedHighwayType::from_str("NA"), Err(()));
}

#[test]
fn test_insert_if_not_exists_when_not_exists() {
    let mut graph = Graph::new();
    let mut osm_nodes = HashMap::new();
    let node = Node::new(NodeId(1), 0, 0);
    osm_nodes.insert(1, node);

    assert_eq!(insert_many(&vec![NodeId(1)], &mut graph, &osm_nodes), Ok(()));

    assert_eq!(graph.nodes().len(), 1);
    assert_eq!(osm_nodes.len(), 1);
    assert_eq!(graph.find_node(NodeId(1)).unwrap(), node);
}

#[test]
fn test_insert_if_not_exists_when_exists() {
    let mut graph = Graph::new();
    let mut osm_nodes = HashMap::new();
    let node = Node::new(NodeId(1), 0, 0);
    osm_nodes.insert(1, node);

    assert_eq!(insert_many(&vec![NodeId(1)], &mut graph, &osm_nodes), Ok(()));

    assert_eq!(graph.nodes().len(), 1);
    assert_eq!(osm_nodes.len(), 1);
    assert_eq!(graph.find_node(NodeId(1)).unwrap(), node);
}

#[test]
fn insert_many_stops_at_the_first_unknown_id() {
    let mut graph = Graph::new();
    let mut osm_nodes = HashMap::new();
    osm_nodes.insert(1, Node::new(NodeId(1), 10, 20));
    osm_nodes.insert(3, Node::new(NodeId(3), 30, 40));

    let r = insert_many(
        &vec![NodeId(1), NodeId(2), NodeId(3)],
        &mut graph,
        &osm_nodes,
    );

    assert_eq!(r, Err(RouteError::UnknownNode(NodeId(2))));
    assert_eq!(graph.nodes().len(), 1);
    assert_eq!(graph.find_node(NodeId(1)).unwrap().get_coordinates(), (10, 20));
    assert!(graph.find_node(NodeId(3)).is_none());
}

fn small_extract() -> Vec<MapObject> {
    vec![
        MapObject::Node(Node::new(NodeId(1), 100, 500)),
        MapObject::Node(Node::new(NodeId(2), 300, 400)),
        MapObject::Node(Node::new(NodeId(3), 200, 900)),
        MapObject::Node(Node::new(NodeId(4), -50, 50)),
        MapObject::Other,
        MapObject::Way(Way {
            id: 10,
            nodes: vec![NodeId(1), NodeId(2), NodeId(3)],
            tags: vec![tag("highway", "primary")],
        }),
        MapObject::Way(Way {
            id: 11,
            nodes: vec![NodeId(3), NodeId(4)],
            tags: vec![tag("highway", "footway")],
        }),
        MapObject::Way(Way {
            id: 12,
            nodes: vec![NodeId(4)],
            tags: vec![tag("highway", "trunk")],
        }),
    ]
}

#[test]
fn connection_graph_holds_each_stretch_in_both_directions() {
    let (graph, stats) = produce_connection_graph(&small_extract()).unwrap();

    assert_eq!(graph.stats(), (3, 4));
    assert_eq!(graph.neighbours(NodeId(1)), Some(&vec![NodeId(2)]));
    assert_eq!(graph.neighbours(NodeId(2)), Some(&vec![NodeId(1), NodeId(3)]));
    assert_eq!(graph.neighbours(NodeId(3)), Some(&vec![NodeId(2)]));
    assert_eq!(graph.neighbours(NodeId(4)), None);
    assert!(graph.find_node(NodeId(4)).is_none());

    let edges = graph.edges();
    assert_eq!((edges[0].from, edges[0].to), (NodeId(1), NodeId(2)));
    assert_eq!((edges[1].from, edges[1].to), (NodeId(2), NodeId(1)));
    assert_eq!((edges[2].from, edges[2].to), (NodeId(2), NodeId(3)));
    assert_eq!((edges[3].from, edges[3].to), (NodeId(3), NodeId(2)));
    assert_eq!(edges[0].length, edges[1].length);
    assert_eq!(edges[0].highway_type, ApprovedHighwayType::Primary);
    // sqrt(200^2 + 100^2) * 11.11, rounded up
    assert_eq!(edges[0].length, 2485);
    assert_eq!(graph.find_edge(NodeId(3), NodeId(2)).unwrap().length, edges[2].length);

    // Only nodes that a stretch leaves from widen the box: nodes 1 and 2.
    assert_eq!(
        stats,
        CoordinateStats {
            min_lat: 100,
            max_lat: 300,
            min_lon: 400,
            max_lon: 500
        }
    );
}

#[test]
fn connection_graph_of_nothing_is_empty() {
    let (graph, stats) = produce_connection_graph(&vec![]).unwrap();
    assert_eq!(graph.stats(), (0, 0));
    assert_eq!(
        stats,
        CoordinateStats {
            min_lat: 0,
            max_lat: 0,
            min_lon: 0,
            max_lon: 0
        }
    );
}

#[test]
fn connection_graph_names_a_node_that_comes_too_late() {
    let objects = vec![
        MapObject::Node(Node::new(NodeId(1), 0, 0)),
        MapObject::Way(Way {
            id: 10,
            nodes: vec![NodeId(1), NodeId(2)],
            tags: vec![tag("highway", "residential")],
        }),
        MapObject::Node(Node::new(NodeId(2), 1, 1)),
    ];
    match produce_connection_graph(&objects) {
        Err(e) => assert_eq!(e, RouteError::UnknownNode(NodeId(2))),
        Ok(_) => panic!("the way names a node that the extract had not shown yet"),
    }
}

#[test]
fn loader_keeps_its_settings() {
    let loader = Loader::new(DataFetcher::File, OutputFormat::Json, false);
    assert_eq!(loader.fetch_strategy, DataFetcher::File);
    assert_eq!(loader.data_output_format, OutputFormat::Json);
    assert!(!loader.merge_files);
}
