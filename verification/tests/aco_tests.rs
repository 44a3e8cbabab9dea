use rand::rngs::StdRng;
use rand::SeedableRng;

use route_generator::graph::{Edge, Graph, Node, NodeId};
use route_generator::providers::aco::{
    candidate_weights, chosen_target, lay_route, progress_weight_of, trace_amount_of, ACOState,
    Ant, AntSwarm, OptimizerMode, PheromoneTable, RouteGeneratorACO, ANT_COUNT,
    ANT_MAX_MOVES_COUNT, PH_INITIAL_LEVEL, PH_MAX_LEVEL, PH_MIN_LEVEL,
};
use route_generator::route::{GenerationMode, Route, RouteDetails, RouteGeneratorStrategy};
use route_generator::status::{RouteError, RouteStatus};
use route_generator::{Deadline, RouteGenerator};

fn graph_of(nodes: &[(i64, i32, i32)], links: &[(i64, i64)]) -> Graph {
    let mut g = Graph::new();
    for &(id, lat, lon) in nodes {
        g.add_node(Node::new(NodeId(id), lat, lon));
    }
    for &(from, to) in links {
        g.add_edge_connection(NodeId(from), NodeId(to));
    }
    g
}

fn details(from: i64, to: i64) -> RouteDetails {
    RouteDetails {
        starting_node: NodeId(from),
        ending_node: NodeId(to),
    }
}

fn hops(edges: &Vec<Edge>) -> Vec<(i64, i64)> {
    edges.iter().map(|e| (e.from.0, e.to.0)).collect()
}

fn aco(g: &Graph, from: i64, to: i64, seed: u64) -> Route {
    let mut rng = StdRng::seed_from_u64(seed);
    RouteGeneratorACO::generate_route(
        g,
        RouteGeneratorStrategy::ACO,
        &details(from, to),
        GenerationMode::Graph,
        &mut rng,
        &Deadline::never(),
    )
}

#[test]
fn aco_finds_the_single_path() {
    let g = graph_of(
        &[(1, 0, 0), (2, 0, 1000), (3, 0, 2000), (4, 0, 3000)],
        &[(1, 2), (2, 1), (2, 3), (3, 2), (3, 4), (4, 3)],
    );
    for seed in 0..3 {
        let route = aco(&g, 1, 4, seed);
        assert_eq!(hops(route.edges()), vec![(1, 2), (2, 3), (3, 4)]);
        assert_eq!(route.status(), RouteStatus::Success);
    }
}

#[test]
fn aco_finds_the_end_past_a_dead_end() {
    let g = graph_of(
        &[(1, 0, 0), (2, 0, 1000), (3, 0, 2000), (5, 1000, 1000), (6, 2000, 1000)],
        &[(1, 2), (2, 1), (2, 5), (5, 2), (5, 6), (6, 5), (2, 3), (3, 2)],
    );
    let route = aco(&g, 1, 3, 11);
    assert_eq!(route.status(), RouteStatus::Success);
    assert_eq!(hops(route.edges()), vec![(1, 2), (2, 3)]);
}

#[test]
fn aco_result_is_the_same_for_the_same_seed() {
    let g = graph_of(
        &[(1, 0, 0), (2, 0, 1000), (3, 1000, 1000), (4, 1000, 0), (5, 2000, 2000)],
        &[
            (1, 2),
            (2, 1),
            (2, 3),
            (3, 2),
            (3, 4),
            (4, 3),
            (4, 1),
            (1, 4),
            (3, 5),
            (5, 3),
        ],
    );
    let first = aco(&g, 1, 5, 42);
    let second = aco(&g, 1, 5, 42);
    assert_eq!(hops(first.edges()), hops(second.edges()));
    assert_eq!(first.status(), RouteStatus::Success);
    assert_eq!(first.edges().last().unwrap().to, NodeId(5));
    let mut seen = vec![NodeId(1)];
    for e in first.edges() {
        assert!(!seen.contains(&e.to));
        seen.push(e.to);
    }
}

#[test]
fn aco_returns_its_best_effort_where_the_end_is_cut_off() {
    let g = graph_of(
        &[(1, 0, 0), (2, 0, 1000), (3, 0, 2000), (9, 0, 9000)],
        &[(1, 2), (2, 1), (2, 3), (3, 2)],
    );
    let route = aco(&g, 1, 9, 3);
    assert_eq!(route.status(), RouteStatus::Partial(RouteError::NoPathFound));
    assert!(!route.edges().is_empty());
    assert_eq!(route.edges()[0].from, NodeId(1));
    assert_ne!(route.edges().last().unwrap().to, NodeId(9));
}

#[test]
fn aco_from_an_isolated_start_returns_no_edge() {
    let g = graph_of(&[(1, 0, 0), (2, 0, 1000)], &[(2, 1)]);
    let route = aco(&g, 1, 2, 3);
    assert!(route.edges().is_empty());
    assert_eq!(route.status(), RouteStatus::Partial(RouteError::NoPathFound));
}

#[test]
fn aco_names_unknown_ends_and_broken_links() {
    let g = graph_of(&[(1, 0, 0), (2, 0, 1000), (3, 0, 2000)], &[(1, 2)]);
    assert_eq!(
        aco(&g, 8, 2, 1).status(),
        RouteStatus::Failed(RouteError::UnknownNode(NodeId(8)))
    );
    assert_eq!(
        aco(&g, 1, 8, 1).status(),
        RouteStatus::Failed(RouteError::UnknownNode(NodeId(8)))
    );
    assert_eq!(
        aco(&g, 1, 3, 1).status(),
        RouteStatus::Failed(RouteError::NoAdjacency(NodeId(2)))
    );
    let at_end = aco(&g, 1, 1, 1);
    assert!(at_end.edges().is_empty());
    assert_eq!(at_end.status(), RouteStatus::Success);
    let dangling = graph_of(&[(1, 0, 0), (2, 0, 1000)], &[(1, 7), (1, 2)]);
    assert_eq!(
        aco(&dangling, 1, 2, 1).status(),
        RouteStatus::Failed(RouteError::UnknownNode(NodeId(7)))
    );
}

#[test]
fn pheromone_evaporates_and_is_laid_by_the_formulas() {
    let mut table = PheromoneTable::new();
    assert_eq!(table.level(NodeId(1), NodeId(2)), PH_INITIAL_LEVEL);
    table.evaporate();
    assert_eq!(table.level(NodeId(1), NodeId(2)), 100_000_000);

    table.deposit(NodeId(1), NodeId(2), 0);
    table.evaporate();
    assert_eq!(table.level(NodeId(1), NodeId(2)), 60_000_000);
    assert_eq!(table.level(NodeId(2), NodeId(1)), 100_000_000);
    table.evaporate();
    assert_eq!(table.level(NodeId(1), NodeId(2)), 36_000_000);

    // 10 / (50 m * 50) and 10 / 50 m, in millionths
    assert_eq!(trace_amount_of(50_000, false), 4_000);
    assert_eq!(trace_amount_of(50_000, true), 200_000);
    assert_eq!(trace_amount_of(0, true), 10_000_000_000);
    assert_eq!(trace_amount_of(1, false), 200_000_000);
    assert_eq!(trace_amount_of(u64::MAX, false), 0);

    table.deposit(NodeId(1), NodeId(2), trace_amount_of(50_000, false));
    assert_eq!(table.level(NodeId(1), NodeId(2)), 36_004_000);
    table.deposit(NodeId(3), NodeId(4), 5);
    assert_eq!(table.level(NodeId(3), NodeId(4)), 100_000_005);
    table.deposit(NodeId(3), NodeId(4), u64::MAX);
    assert_eq!(table.level(NodeId(3), NodeId(4)), PH_MAX_LEVEL);
}

#[test]
fn pheromone_never_sinks_to_zero() {
    let mut table = PheromoneTable::new();
    table.deposit(NodeId(1), NodeId(2), 0);
    table.deposit(NodeId(2), NodeId(3), u64::MAX);
    let mut last = table.level(NodeId(1), NodeId(2));
    for _ in 0..200 {
        table.evaporate();
        let now = table.level(NodeId(1), NodeId(2));
        assert!(now >= PH_MIN_LEVEL);
        assert!(now > 0);
        assert!(now <= last);
        assert!(table.level(NodeId(2), NodeId(3)) > 0);
        last = now;
    }
    assert_eq!(last, PH_MIN_LEVEL);
    assert_eq!(table.level(NodeId(2), NodeId(3)), PH_MIN_LEVEL);
}

#[test]
fn round_update_lays_traces_after_evaporation() {
    let g = graph_of(&[(1, 0, 0), (2, 0, 450)], &[(1, 2), (2, 1)]);
    let d = details(1, 2);
    let mut state = ACOState::new(&g, &d);
    let edge = Edge::create(&g, NodeId(1), NodeId(2)).unwrap();
    assert_eq!(edge.length, 5_000);
    state.ph_levels.deposit(NodeId(1), NodeId(2), 0);
    state.ph_levels.deposit(NodeId(2), NodeId(1), 0);

    let mut swarm = AntSwarm::init();
    assert_eq!(swarm.ants.len(), ANT_COUNT);
    swarm
        .route_candidates
        .push(Route(vec![edge], RouteStatus::Success));
    swarm
        .route_candidates
        .push(Route(vec![edge], RouteStatus::Success));
    state.record_route(&Route(vec![edge], RouteStatus::Success), edge.length);
    assert_eq!(state.optimizer_mode, OptimizerMode::Distance);
    assert_eq!(state.best_distance_to_target, 0);

    swarm.update_pheromone_levels(&mut state);
    // 60 after evaporation, twice 10 / (5 m * 50), once 10 / 5 m
    assert_eq!(
        state.ph_levels.level(NodeId(1), NodeId(2)),
        60_000_000 + 2 * 40_000 + 2_000_000
    );
    assert_eq!(state.ph_levels.level(NodeId(2), NodeId(1)), 60_000_000);
    state.increase_iteration_number();
    assert_eq!(state.iteration_number, 1);

    swarm.reset();
    assert!(swarm.route_candidates.is_empty());
    assert_eq!(swarm.ants.len(), ANT_COUNT);

    let mut table = PheromoneTable::new();
    lay_route(&mut table, &vec![edge, edge], true);
    assert_eq!(table.level(NodeId(1), NodeId(2)), 104_000_000);
}

#[test]
fn recording_switches_the_aim_once_and_for_all() {
    let g = graph_of(
        &[(1, 0, 0), (2, 0, 900), (3, 0, 1800), (4, 0, 90)],
        &[(1, 2), (2, 3), (1, 4)],
    );
    let d = details(1, 3);
    let mut state = ACOState::new(&g, &d);
    assert_eq!(state.optimizer_mode, OptimizerMode::Target);
    assert!(state.get_best_route().is_none());

    let long = Edge::create(&g, NodeId(1), NodeId(2)).unwrap();
    let short = Edge::create(&g, NodeId(1), NodeId(4)).unwrap();
    let last = Edge::create(&g, NodeId(2), NodeId(3)).unwrap();

    state.record_route(&Route(vec![], RouteStatus::Partial(RouteError::NoPathFound)), 0);
    assert!(state.get_best_route().is_none());

    state.record_route(
        &Route(vec![long], RouteStatus::Partial(RouteError::NoPathFound)),
        long.length,
    );
    assert_eq!(state.best_route_length, 9_999);
    assert_eq!(state.optimizer_mode, OptimizerMode::Target);

    state.record_route(
        &Route(vec![short], RouteStatus::Partial(RouteError::NoPathFound)),
        short.length,
    );
    assert_eq!(state.best_route_length, 1_000);
    assert_eq!(state.get_best_route().as_ref().unwrap().edges()[0].to, NodeId(4));

    state.record_route(
        &Route(vec![long, last], RouteStatus::Success),
        long.length + last.length,
    );
    assert_eq!(state.optimizer_mode, OptimizerMode::Distance);
    assert_eq!(state.best_distance_to_target, 0);
    assert_eq!(state.best_route_length, 1_000);
    assert_eq!(state.get_best_route().as_ref().unwrap().edges().len(), 2);

    state.record_route(
        &Route(vec![short], RouteStatus::Partial(RouteError::NoPathFound)),
        short.length,
    );
    assert_eq!(state.optimizer_mode, OptimizerMode::Distance);
    assert_eq!(state.get_best_route().as_ref().unwrap().edges().len(), 2);
}

#[test]
fn progress_weight_is_the_power_of_eleven_eighths() {
    assert_eq!(progress_weight_of(0), 0);
    assert_eq!(progress_weight_of(1), 1);
    assert_eq!(progress_weight_of(256), 2048);
    assert_eq!(progress_weight_of(9999), 319_968);
}

#[test]
fn candidate_weights_are_shares_of_the_best_candidate() {
    let g = graph_of(
        &[
            (1, 0, 0),
            (2, 0, 900_000),
            (3, 0, -900_000),
            (4, 0, 9_000_000),
        ],
        &[(1, 2), (1, 3)],
    );
    let goal = g.find_node(NodeId(4)).unwrap();
    let toward = Edge::create(&g, NodeId(1), NodeId(2)).unwrap();
    let away = Edge::create(&g, NodeId(1), NodeId(3)).unwrap();
    let table = PheromoneTable::new();

    assert_eq!(
        candidate_weights(&g, &vec![toward, away], &goal, &table),
        Ok(vec![1_048_576, 3])
    );
    assert_eq!(
        candidate_weights(&g, &vec![away, away], &goal, &table),
        Ok(vec![1_048_576, 1_048_576])
    );
    assert_eq!(candidate_weights(&g, &vec![], &goal, &table), Ok(vec![]));

    let mut marked = PheromoneTable::new();
    marked.deposit(NodeId(1), NodeId(3), 100_000_000);
    // The level of the second edge doubles: 3.27 becomes 6.55.
    assert_eq!(
        candidate_weights(&g, &vec![toward, away], &goal, &marked),
        Ok(vec![1_048_576, 6])
    );

    let stray = Edge::new(
        NodeId(1),
        NodeId(77),
        5,
        route_generator::parser::ApprovedHighwayType::NA,
    );
    assert_eq!(
        candidate_weights(&g, &vec![toward, stray], &goal, &table),
        Err(RouteError::UnknownNode(NodeId(77)))
    );
    assert_eq!(chosen_target(&vec![toward, away], 1), Some(NodeId(3)));
    assert_eq!(chosen_target(&vec![toward, away], 2), None);
}

#[test]
fn an_ant_picks_only_among_unvisited_neighbours() {
    let g = graph_of(
        &[(1, 0, 0), (2, 0, 1000), (3, 0, 2000), (4, 1000, 0)],
        &[(1, 2), (1, 4), (2, 1), (2, 3), (4, 1), (3, 2)],
    );
    let table = PheromoneTable::new();
    let start = g.find_node(NodeId(1)).unwrap();
    let second = g.find_node(NodeId(2)).unwrap();
    let end = g.find_node(NodeId(3)).unwrap();
    let mut rng = StdRng::seed_from_u64(9);

    let fresh = Ant::new();
    let mut to_two = 0;
    let mut to_four = 0;
    for _ in 0..400 {
        match fresh.select_next_node(&g, &start, &end, &table, &mut rng) {
            Ok(Some(NodeId(2))) => to_two += 1,
            Ok(Some(NodeId(4))) => to_four += 1,
            other => panic!("unexpected choice {:?}", other),
        }
    }
    // Both have weight: node 2 makes a metre of progress, node 4 none, which counts as one.
    assert!(to_two > 0 && to_four > 0);

    let d = details(1, 3);
    let state = ACOState::new(&g, &d);
    let mut ant = Ant::new();
    let (route, length) = ant.generate_route(&state, &mut rng);
    assert!(route.edges().len() <= ANT_MAX_MOVES_COUNT);
    let mut total = 0;
    for e in route.edges() {
        total += e.length;
    }
    assert_eq!(length, total);
    // After its walk the ant has been to the start, so from node 2 only node 3 is left
    // if it went there, and nothing at all if it did not.
    match ant.select_next_node(&g, &second, &end, &table, &mut rng) {
        Ok(Some(NodeId(3))) => assert_eq!(route.edges()[0].to, NodeId(4)),
        Ok(None) => assert_eq!(route.status(), RouteStatus::Success),
        other => panic!("unexpected choice {:?}", other),
    }
    ant.reset();
    assert!(matches!(
        ant.select_next_node(&g, &second, &end, &table, &mut rng),
        Ok(Some(NodeId(1))) | Ok(Some(NodeId(3)))
    ));
    let lost = Node::new(NodeId(50), 0, 0);
    assert_eq!(
        ant.select_next_node(&g, &lost, &end, &table, &mut rng),
        Err(RouteError::NoAdjacency(NodeId(50)))
    );
}

#[test]
fn aco_follows_one_way_connections_to_the_end() {
    let g = graph_of(
        &[(1, 0, 0), (2, 0, 10_000_000), (3, 0, 20_000_000)],
        &[(1, 2), (2, 3)],
    );
    for seed in 0..4 {
        let route = aco(&g, 1, 3, seed);
        assert_eq!(route.edges().len(), 2);
        assert_eq!(hops(route.edges()), vec![(1, 2), (2, 3)]);
        assert_eq!(route.status(), RouteStatus::Success);
    }
}

#[test]
fn aco_from_an_isolated_start_is_not_troubled_by_broken_links_elsewhere() {
    let g = graph_of(
        &[(1, 0, 0), (2, 0, 1000), (3, 0, 2000)],
        &[(2, 9), (2, 3), (3, 8)],
    );
    for seed in 0..3 {
        let route = aco(&g, 1, 3, seed);
        assert!(route.edges().is_empty());
        assert_eq!(route.status(), RouteStatus::Partial(RouteError::NoPathFound));
    }
    // A start with an adjacency entry that holds nothing is isolated as well.
    let mut emptied = graph_of(&[(1, 0, 0), (2, 0, 1000)], &[(2, 1)]);
    emptied.add_edge_connection(NodeId(2), NodeId(7));
    let route = aco(&emptied, 1, 2, 5);
    assert!(route.edges().is_empty());
    assert_eq!(route.status(), RouteStatus::Partial(RouteError::NoPathFound));
}
