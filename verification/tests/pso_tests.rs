use rand::rngs::StdRng;
use rand::SeedableRng;

use route_generator::graph::{Edge, Graph, Node, NodeId};
use route_generator::providers::pso::{
    apply_operator, apply_operators, calculate_weight_coeff, common_prefix_of,
    designate_points_on_line, grid_distance_of, is_neighbour, next_operators_of,
    next_velocity_of, operator_for, position_in, random_operator, route_from_nodes, sequence_fitness_of, toward_of, DParticle,
    DSimulation, MoveOperator, Particle, RouteGeneratorPSO, Simulation, Velocity2D,
    FITNESS_THRESHOLD_STOP, MAX_ITERATIONS, MAX_VELOCITY, MIN_VELOCITY, PARTICLES_COUNT,
    UNREACHED_PENALTY,
};
use route_generator::route::{
    GenerationMode, GridPosition, RouteDetails, RouteGeneratorStrategy, WxRouteDetails,
};
use route_generator::status::{RouteError, RouteStatus};
use route_generator::weather::{cell_free, PixelColor};
use route_generator::{Deadline, RouteGenerator};

fn cells(x: i32, y: i32) -> GridPosition {
    GridPosition {
        x: x * 1000,
        y: y * 1000,
    }
}

fn open_grid() -> Vec<PixelColor> {
    vec![PixelColor { r: 0, g: 0, b: 0, a: 0 }; 10_000]
}

fn block(grid: &mut Vec<PixelColor>, x: usize, y: usize) {
    grid[y * 100 + x] = PixelColor { r: 0, g: 200, b: 0, a: 255 };
}

#[test]
fn test_designate_points_on_line() {
    let start_point = cells(0, 0);
    let end_point = cells(10, 10);
    let number_of_points = 5;

    let points = designate_points_on_line(start_point, end_point, number_of_points);
    assert_eq!(points.len(), 5);
    assert_eq!(points[0], cells(1, 1));
    assert_eq!(points[1], cells(3, 3));
    assert_eq!(points[2], cells(5, 5));
    assert_eq!(points[3], cells(7, 7));
    assert_eq!(points[4], cells(9, 9));
}

#[test]
fn test_designate_points_on_line_2() {
    let start_point = cells(0, 0);
    let end_point = cells(20, 10);
    let number_of_points = 5;

    let points = designate_points_on_line(start_point, end_point, number_of_points);
    assert_eq!(points.len(), 5);
    assert_eq!(points[0], cells(2, 1));
    assert_eq!(points[1], cells(6, 3));
    assert_eq!(points[2], cells(10, 5));
    assert_eq!(points[3], cells(14, 7));
    assert_eq!(points[4], cells(18, 9));
}

#[test]
fn test_designate_points_on_line_short_route() {
    let start_point = cells(0, 0);
    let end_point = cells(3, -1);
    let number_of_points = 5;

    let points = designate_points_on_line(start_point, end_point, number_of_points);
    assert_eq!(points.len(), 3);
    assert_eq!(points[0], cells(0, -1));
    assert_eq!(points[1], cells(1, -1));
    assert_eq!(points[2], cells(2, -1));
}

#[test]
fn designated_points_for_fractions_and_for_no_points() {
    assert!(designate_points_on_line(cells(0, 0), cells(5, 5), 0).is_empty());
    let same = designate_points_on_line(cells(4, 4), cells(4, 4), 7);
    assert_eq!(same, vec![cells(4, 4)]);
    // From 0.5 to 2.5 cells in two steps: the points lie at 1.0 and 2.0.
    let from = GridPosition { x: 500, y: -500 };
    let to = GridPosition { x: 2500, y: -2500 };
    assert_eq!(
        designate_points_on_line(from, to, 2),
        vec![cells(1, -1), cells(2, -2)]
    );
    assert!(position_in(&same, cells(4, 4)));
    assert!(!position_in(&same, cells(4, 5)));
}

#[test]
fn fitness_is_the_distance_to_the_target() {
    let p = Particle {
        position: cells(0, 0),
        velocity: Velocity2D { vx: 0, vy: 0 },
        personal_best: u64::MAX,
        personal_best_position: cells(0, 0),
    };
    assert_eq!(p.calculate_fitness(&cells(3, 4)), 5000);
    assert_eq!(p.calculate_fitness(&cells(0, 0)), 0);
    assert_eq!(p.calculate_fitness(&GridPosition { x: 1, y: 1 }), 2);
    assert_eq!(
        grid_distance_of(
            &GridPosition { x: i32::MIN, y: i32::MIN },
            &GridPosition { x: i32::MAX, y: i32::MAX }
        ),
        6_074_000_999
    );
}

#[test]
fn velocity_follows_the_formula_and_stays_in_bounds() {
    assert_eq!(calculate_weight_coeff(0), 990);
    assert_eq!(calculate_weight_coeff(499), 990);
    // 0.99 * 2000 = 1980
    assert_eq!(next_velocity_of(20_000, 15_000, 10_000, 2_000, 3, 0, 0), 1_980);
    // 0.99 * 2000 + 0.9 * 0.5 * 1000 + 1.25 * 1.0 * 2000 = 4930
    assert_eq!(next_velocity_of(12_000, 11_000, 10_000, 2_000, 3, 500, 1000), 4_930);
    // 1980 + 2250 + 12500 is beyond the bound
    assert_eq!(
        next_velocity_of(20_000, 15_000, 10_000, 2_000, 3, 500, 1000),
        MAX_VELOCITY
    );
    assert_eq!(
        next_velocity_of(-20_000, -15_000, 10_000, -2_000, 3, 1000, 1000),
        MIN_VELOCITY
    );
    // rounding goes down: -0.99 becomes -1, and 0.99 becomes 0
    assert_eq!(next_velocity_of(0, 0, 0, -1, 0, 0, 0), -1);
    assert_eq!(next_velocity_of(0, 0, 0, 1, 0, 0, 0), 0);
    assert_eq!(
        next_velocity_of(i32::MAX, i32::MAX, i32::MIN, i64::MAX, 0, 1000, 1000),
        MAX_VELOCITY
    );

    let mut rng = StdRng::seed_from_u64(4);
    let mut particle = Particle {
        position: cells(10, 10),
        velocity: Velocity2D { vx: 1_000, vy: -1_000 },
        personal_best: 0,
        personal_best_position: cells(10, 12),
    };
    let mut seen = std::collections::HashSet::new();
    for _ in 0..50 {
        particle.velocity = Velocity2D { vx: 1_000, vy: -1_000 };
        particle.update_velocity(cells(14, 10), 0, &mut rng);
        // x: 990 + 1.25 * r2 * 4000, y: -990 + 0.9 * r1 * 2000
        assert!(particle.velocity.vx >= 990 && particle.velocity.vx <= 5_990);
        assert!(particle.velocity.vy >= -990 && particle.velocity.vy <= 810);
        seen.insert(particle.velocity.vx);
    }
    assert!(seen.len() > 10);
}

#[test]
fn a_particle_moves_only_over_open_cells() {
    let mut grid = open_grid();
    let mut particle = Particle {
        position: cells(10, 10),
        velocity: Velocity2D { vx: 3_500, vy: 0 },
        personal_best: u64::MAX,
        personal_best_position: cells(0, 0),
    };
    particle.update_position(cells(0, 0), &grid);
    assert_eq!(particle.position, cells(13, 10));
    assert_eq!(particle.velocity, Velocity2D { vx: 3_500, vy: 0 });

    // A blocked cell on the way keeps the particle where it is.
    block(&mut grid, 15, 10);
    particle.update_position(cells(0, 0), &grid);
    assert_eq!(particle.position, cells(13, 10));

    // So does a blocked cell at the end of the way.
    particle.velocity = Velocity2D { vx: 2_000, vy: 0 };
    particle.update_position(cells(0, 0), &grid);
    assert_eq!(particle.position, cells(13, 10));

    // And so does a way that leaves the raster.
    particle.velocity = Velocity2D { vx: -14_000, vy: 0 };
    particle.update_position(cells(0, 0), &grid);
    assert_eq!(particle.position, cells(13, 10));
    particle.velocity = Velocity2D { vx: 0, vy: 90_000 };
    particle.update_position(cells(0, 0), &grid);
    assert_eq!(particle.position, cells(13, 10));
    particle.velocity = Velocity2D { vx: i64::MAX, vy: i64::MIN };
    particle.update_position(cells(0, 0), &grid);
    assert_eq!(particle.position, cells(13, 10));

    particle.velocity = Velocity2D { vx: -999, vy: 4_999 };
    particle.update_position(cells(0, 0), &grid);
    assert_eq!(particle.position, cells(12, 14));

    let mut outside = Particle {
        position: GridPosition { x: i32::MIN, y: 5_000 },
        velocity: Velocity2D { vx: 2_147_490_000, vy: 0 },
        personal_best: u64::MAX,
        personal_best_position: cells(0, 0),
    };
    outside.update_position(cells(0, 0), &grid);
    assert_eq!(outside.position, GridPosition { x: i32::MIN, y: 5_000 });

    assert!(cell_free(&grid, 0, 0));
    assert!(!cell_free(&grid, 15, 10));
    assert!(!cell_free(&grid, -1, 0));
    assert!(!cell_free(&grid, 100, 0));
    assert!(!cell_free(&grid, 0, 100));
}

fn raster_search(grid: &Vec<PixelColor>, wx: &WxRouteDetails, seed: u64) -> route_generator::PixRoute {
    let mut rng = StdRng::seed_from_u64(seed);
    RouteGeneratorPSO::generate_route_real_num(wx, grid, &mut rng, &Deadline::never())
}

#[test]
fn the_swarm_reaches_an_open_destination() {
    let grid = open_grid();
    let wx = WxRouteDetails {
        starting_position: cells(47, 40),
        ending_position: cells(84, 50),
    };
    let trace = raster_search(&grid, &wx, 21);
    assert!(!trace.0.is_empty());
    assert!(trace.0.len() <= MAX_ITERATIONS as usize);
    assert_eq!(trace.1, RouteStatus::Success);
    let last = trace.0.last().unwrap();
    assert!(grid_distance_of(last, &wx.ending_position) <= FITNESS_THRESHOLD_STOP);
    let mut before = u64::MAX;
    for (i, p) in trace.0.iter().enumerate() {
        let d = grid_distance_of(p, &wx.ending_position);
        assert!(d <= before);
        if i + 1 < trace.0.len() {
            assert!(d > FITNESS_THRESHOLD_STOP);
        }
        before = d;
        assert!(*p == wx.starting_position || cell_free(&grid, (p.x / 1000) as i64, (p.y / 1000) as i64));
    }
    assert_eq!(trace.0[0], wx.starting_position);
}

#[test]
fn the_swarm_never_reaches_a_walled_in_destination() {
    let mut grid = open_grid();
    for x in 81..=87 {
        for y in 47..=53 {
            block(&mut grid, x, y);
        }
    }
    let wx = WxRouteDetails {
        starting_position: cells(47, 40),
        ending_position: cells(84, 50),
    };
    for seed in [1, 2] {
        let trace = raster_search(&grid, &wx, seed);
        assert_eq!(
            trace.1,
            RouteStatus::Partial(RouteError::MaxIterationsExceeded)
        );
        assert_eq!(trace.0.len(), MAX_ITERATIONS as usize);
        for p in &trace.0 {
            assert!(grid_distance_of(p, &wx.ending_position) > FITNESS_THRESHOLD_STOP);
            assert!(
                *p == wx.starting_position
                    || cell_free(&grid, (p.x / 1000) as i64, (p.y / 1000) as i64)
            );
        }
    }
}

#[test]
fn the_swarm_stays_put_in_a_blocked_raster() {
    let grid = vec![PixelColor { r: 1, g: 0, b: 0, a: 0 }; 10_000];
    let wx = WxRouteDetails {
        starting_position: cells(10, 10),
        ending_position: cells(20, 20),
    };
    let trace = raster_search(&grid, &wx, 8);
    assert_eq!(trace.0.len(), MAX_ITERATIONS as usize);
    assert!(trace.0.iter().all(|p| *p == wx.starting_position));
    assert_eq!(
        trace.1,
        RouteStatus::Partial(RouteError::MaxIterationsExceeded)
    );
    // A start within reach of the end is a success after the first iteration.
    let near = WxRouteDetails {
        starting_position: cells(10, 10),
        ending_position: GridPosition { x: 11_000, y: 10_500 },
    };
    let at_once = raster_search(&grid, &near, 8);
    assert_eq!(at_once.0, vec![cells(10, 10)]);
    assert_eq!(at_once.1, RouteStatus::Success);
}

#[test]
fn simulation_steps_keep_the_best_and_the_bounds() {
    let grid = open_grid();
    let wx = WxRouteDetails {
        starting_position: cells(5, 5),
        ending_position: cells(9, 8),
    };
    let mut rng = StdRng::seed_from_u64(2);
    let mut simulation = Simulation::new(wx);
    assert_eq!(simulation.global_best, u64::MAX);
    simulation.init_particles(Some(wx.starting_position), &mut rng);
    assert_eq!(simulation.particles.len(), PARTICLES_COUNT as usize);
    for p in &simulation.particles {
        assert_eq!(p.position, cells(5, 5));
        assert!(p.velocity.vx >= MIN_VELOCITY && p.velocity.vx <= MAX_VELOCITY);
        assert!(p.velocity.vy >= MIN_VELOCITY && p.velocity.vy <= MAX_VELOCITY);
        assert_eq!(p.personal_best, u64::MAX);
    }
    let distinct: std::collections::HashSet<i64> =
        simulation.particles.iter().map(|p| p.velocity.vx).collect();
    assert!(distinct.len() > 50);

    simulation.swarm_update(&grid, &mut rng);
    assert_eq!(simulation.global_best, 5000);
    assert_eq!(simulation.global_best_position, cells(5, 5));
    assert_eq!(simulation.last_fitness_value, 5000);
    for p in &simulation.particles {
        assert_eq!(p.personal_best, 5000);
        assert_eq!(p.personal_best_position, cells(5, 5));
        assert_eq!(p.position.x % 1000, 0);
        assert!(p.velocity.vx >= MIN_VELOCITY && p.velocity.vx <= MAX_VELOCITY);
    }
    simulation.increase_iteration_count();
    assert_eq!(simulation.iteration_number, 1);
    let before = simulation.global_best;
    simulation.swarm_update(&grid, &mut rng);
    assert!(simulation.global_best <= before);

    let mut origin = Simulation::new(wx);
    origin.init_particles(None, &mut rng);
    assert!(origin.particles.iter().all(|p| p.position == cells(0, 0)));
}

fn graph_of(nodes: &[(i64, i32, i32)], links: &[(i64, i64)]) -> Graph {
    let mut g = Graph::new();
    for &(id, lat, lon) in nodes {
        g.add_node(Node::new(NodeId(id), lat, lon));
    }
    for &(from, to) in links {
        g.add_edge_connection(NodeId(from), NodeId(to));
    }
    g
}

fn hops(edges: &Vec<Edge>) -> Vec<(i64, i64)> {
    edges.iter().map(|e| (e.from.0, e.to.0)).collect()
}

fn ids(list: &[i64]) -> Vec<NodeId> {
    list.iter().map(|&i| NodeId(i)).collect()
}

fn graph_search(g: &Graph, from: i64, to: i64, seed: u64) -> route_generator::Route {
    let mut rng = StdRng::seed_from_u64(seed);
    RouteGeneratorPSO::generate_route(
        g,
        RouteGeneratorStrategy::PSO,
        &RouteDetails {
            starting_node: NodeId(from),
            ending_node: NodeId(to),
        },
        GenerationMode::Graph,
        &mut rng,
        &Deadline::never(),
    )
}

#[test]
fn the_swarm_on_the_graph_finds_the_end_of_a_chain() {
    let g = graph_of(
        &[(1, 0, 0), (2, 0, 1000), (3, 0, 2000), (4, 0, 3000)],
        &[(1, 2), (2, 1), (2, 3), (3, 2), (3, 4), (4, 3)],
    );
    let route = graph_search(&g, 1, 4, 6);
    assert_eq!(route.status(), RouteStatus::Success);
    assert_eq!(hops(route.edges()), vec![(1, 2), (2, 3), (3, 4)]);
    assert_eq!(route.edges()[2].length, 11_110);
    assert!(RouteGeneratorPSO::real_mode_supported());
}

#[test]
fn the_swarm_on_the_graph_walks_along_connections() {
    let g = graph_of(
        &[
            (1, 0, 0),
            (2, 0, 1000),
            (3, 1000, 1000),
            (4, 1000, 0),
            (5, 2000, 2000),
            (6, -1000, -1000),
        ],
        &[
            (1, 2),
            (2, 1),
            (2, 3),
            (3, 2),
            (3, 4),
            (4, 3),
            (4, 1),
            (1, 4),
            (3, 5),
            (5, 3),
            (1, 6),
            (6, 1),
        ],
    );
    let route = graph_search(&g, 1, 5, 17);
    assert_eq!(route.status(), RouteStatus::Success);
    let edges = route.edges();
    assert_eq!(edges[0].from, NodeId(1));
    assert_eq!(edges.last().unwrap().to, NodeId(5));
    for pair in edges.windows(2) {
        assert_eq!(pair[0].to, pair[1].from);
    }
    for e in edges {
        assert!(is_neighbour(&g, e.from, e.to));
        assert_eq!(Edge::create(&g, e.from, e.to).unwrap().length, e.length);
    }
    let again = graph_search(&g, 1, 5, 17);
    assert_eq!(hops(again.edges()), hops(edges));
}

#[test]
fn the_swarm_on_the_graph_reports_what_it_cannot_do() {
    let g = graph_of(
        &[(1, 0, 0), (2, 0, 1000), (9, 0, 9000)],
        &[(1, 2), (2, 1), (1, 77)],
    );
    let cut_off = graph_search(&g, 1, 9, 3);
    assert_eq!(cut_off.status(), RouteStatus::Partial(RouteError::NoPathFound));
    for e in cut_off.edges() {
        assert!(e.to == NodeId(1) || e.to == NodeId(2));
    }
    assert_eq!(
        graph_search(&g, 5, 9, 3).status(),
        RouteStatus::Failed(RouteError::UnknownNode(NodeId(5)))
    );
    assert_eq!(
        graph_search(&g, 1, 5, 3).status(),
        RouteStatus::Failed(RouteError::UnknownNode(NodeId(5)))
    );
    let at_end = graph_search(&g, 2, 2, 3);
    assert!(at_end.edges().is_empty());
    assert_eq!(at_end.status(), RouteStatus::Success);
}

#[test]
fn operators_edit_a_node_sequence_along_the_graph() {
    let g = graph_of(
        &[(1, 0, 0), (2, 0, 1000), (3, 0, 2000)],
        &[(1, 2), (2, 3), (2, 1), (1, 8)],
    );
    let end = NodeId(3);
    let mut position = ids(&[1]);
    apply_operator(&g, &mut position, end, MoveOperator::Append(NodeId(3)));
    assert_eq!(position, ids(&[1]));
    apply_operator(&g, &mut position, end, MoveOperator::Append(NodeId(8)));
    assert_eq!(position, ids(&[1]));
    apply_operator(&g, &mut position, end, MoveOperator::Append(NodeId(2)));
    assert_eq!(position, ids(&[1, 2]));
    apply_operator(&g, &mut position, end, MoveOperator::Truncate(2));
    assert_eq!(position, ids(&[1, 2]));
    apply_operator(&g, &mut position, end, MoveOperator::Truncate(0));
    assert_eq!(position, ids(&[1, 2]));
    apply_operator(&g, &mut position, end, MoveOperator::Append(NodeId(3)));
    assert_eq!(position, ids(&[1, 2, 3]));
    // At the end no step is taken.
    apply_operator(&g, &mut position, end, MoveOperator::Append(NodeId(2)));
    assert_eq!(position, ids(&[1, 2, 3]));
    apply_operator(&g, &mut position, end, MoveOperator::Truncate(1));
    assert_eq!(position, ids(&[1]));

    apply_operators(
        &g,
        &mut position,
        end,
        &vec![
            MoveOperator::Append(NodeId(2)),
            MoveOperator::Append(NodeId(1)),
            MoveOperator::Truncate(2),
            MoveOperator::Append(NodeId(3)),
        ],
    );
    assert_eq!(position, ids(&[1, 2, 3]));
    assert_eq!(hops(&route_from_nodes(&g, &position)), vec![(1, 2), (2, 3)]);
    assert!(route_from_nodes(&g, &vec![]).is_empty());
    assert!(is_neighbour(&g, NodeId(1), NodeId(2)));
    assert!(!is_neighbour(&g, NodeId(3), NodeId(2)));
}

#[test]
fn velocity_on_the_graph_leads_towards_the_best_sequences() {
    assert_eq!(common_prefix_of(&ids(&[1, 2, 3]), &ids(&[1, 2, 4, 3])), 2);
    assert_eq!(common_prefix_of(&ids(&[1, 2]), &ids(&[1, 2])), 2);
    assert_eq!(common_prefix_of(&ids(&[1]), &ids(&[])), 0);
    assert_eq!(common_prefix_of(&ids(&[2, 1]), &ids(&[1, 2])), 0);

    assert_eq!(
        toward_of(&ids(&[1, 2, 3]), &ids(&[1, 2, 4, 3])),
        vec![MoveOperator::Truncate(2), MoveOperator::Append(NodeId(4))]
    );
    assert_eq!(
        toward_of(&ids(&[1, 2, 3]), &ids(&[1, 2])),
        vec![MoveOperator::Truncate(2)]
    );
    assert_eq!(toward_of(&ids(&[1, 2]), &ids(&[1, 2])), vec![]);
    assert_eq!(toward_of(&ids(&[1, 2]), &ids(&[])), vec![]);

    let x = ids(&[1, 2]);
    let own = ids(&[1, 3]);
    let common = ids(&[1, 2, 5]);
    let social = vec![MoveOperator::Truncate(2), MoveOperator::Append(NodeId(5))];
    let cognitive = vec![MoveOperator::Truncate(1), MoveOperator::Append(NodeId(3))];
    // 0.9 * 0.555 is below a half, 0.9 * 0.556 is not; 1.25 * 0.4 is a half.
    assert_eq!(next_operators_of(&x, &own, &common, 555, 399), vec![]);
    assert_eq!(next_operators_of(&x, &own, &common, 555, 400), social);
    assert_eq!(next_operators_of(&x, &own, &common, 556, 399), cognitive);
    let mut both = social.clone();
    both.extend(cognitive.clone());
    assert_eq!(next_operators_of(&x, &own, &common, 1000, 1000), both);
}

#[test]
fn sequence_fitness_charges_for_stopping_short() {
    let g = graph_of(
        &[(1, 0, 0), (2, 0, 1000), (3, 0, 2000)],
        &[(1, 2), (2, 3)],
    );
    assert_eq!(sequence_fitness_of(&g, &ids(&[1, 2, 3]), NodeId(3)), 22_220);
    assert_eq!(
        sequence_fitness_of(&g, &ids(&[1, 2]), NodeId(3)),
        11_110 + UNREACHED_PENALTY + 11_110
    );
    assert_eq!(
        sequence_fitness_of(&g, &ids(&[1]), NodeId(3)),
        UNREACHED_PENALTY + 22_220
    );
    assert_eq!(sequence_fitness_of(&g, &ids(&[3]), NodeId(3)), 0);
    assert_eq!(sequence_fitness_of(&g, &ids(&[]), NodeId(3)), u64::MAX);
    assert_eq!(sequence_fitness_of(&g, &ids(&[1, 7]), NodeId(3)), u64::MAX);
    assert_eq!(sequence_fitness_of(&g, &ids(&[1, 2]), NodeId(7)), u64::MAX);
}

#[test]
fn particles_on_the_graph_keep_their_best() {
    let g = graph_of(
        &[(1, 0, 0), (2, 0, 1000), (3, 0, 2000)],
        &[(1, 2), (2, 1), (2, 3), (3, 2)],
    );
    let mut rng = StdRng::seed_from_u64(12);
    let mut particle = DParticle::new(NodeId(1));
    assert_eq!(particle.position, ids(&[1]));
    let first = particle.evaluate(&g, NodeId(3));
    assert_eq!(first, UNREACHED_PENALTY + 22_220);
    assert_eq!(particle.personal_best, first);
    assert_eq!(particle.personal_best_position, ids(&[1]));

    particle.update_position(&g, NodeId(3), &mut rng);
    assert!(particle.position == ids(&[1]) || particle.position == ids(&[1, 2]));
    particle.velocity = vec![MoveOperator::Truncate(1), MoveOperator::Append(NodeId(2))];
    particle.update_position(&g, NodeId(3), &mut rng);
    assert_eq!(&particle.position[..2], &ids(&[1, 2])[..]);
    particle.update_velocity(&ids(&[1, 2, 3]), &mut rng);
    for op in &particle.velocity {
        assert!(matches!(op, MoveOperator::Truncate(_) | MoveOperator::Append(_)));
    }

    let mut simulation = DSimulation::new(RouteDetails {
        starting_node: NodeId(1),
        ending_node: NodeId(3),
    });
    simulation.init_particles();
    assert_eq!(simulation.particles.len(), PARTICLES_COUNT as usize);
    simulation.swarm_update(&g, &mut rng);
    assert_eq!(simulation.global_best, UNREACHED_PENALTY + 22_220);
    assert_eq!(simulation.global_best_position, ids(&[1]));
    assert_eq!(simulation.last_fitness_value, UNREACHED_PENALTY + 22_220);
    simulation.increase_iteration_count();
    simulation.swarm_update(&g, &mut rng);
    assert_eq!(simulation.global_best, 11_110 + UNREACHED_PENALTY + 11_110);
    assert_eq!(simulation.iteration_number, 1);
}

#[test]
fn a_search_that_starts_at_its_end_records_the_start_alone() {
    let grid = open_grid();
    let wx = WxRouteDetails {
        starting_position: cells(10, 10),
        ending_position: cells(10, 10),
    };
    for seed in [0, 1, 2] {
        let trace = raster_search(&grid, &wx, seed);
        assert_eq!(trace.0, vec![cells(10, 10)]);
        assert_eq!(trace.1, RouteStatus::Success);
    }
}

#[test]
fn every_trace_begins_at_the_start() {
    let mut grid = open_grid();
    for y in 20..60 {
        block(&mut grid, 60, y);
    }
    let wx = WxRouteDetails {
        starting_position: GridPosition { x: 47_300, y: 40_700 },
        ending_position: cells(84, 50),
    };
    for seed in [3, 4, 5] {
        let trace = raster_search(&grid, &wx, seed);
        assert!(!trace.0.is_empty());
        assert_eq!(trace.0[0], wx.starting_position);
        let mut before = u64::MAX;
        for p in &trace.0 {
            let d = grid_distance_of(p, &wx.ending_position);
            assert!(d <= before);
            before = d;
        }
    }
}

#[test]
fn a_draw_decides_between_a_step_and_the_cut() {
    let connections = ids(&[5, 6]);
    assert_eq!(operator_for(&connections, 3, 0), MoveOperator::Append(NodeId(5)));
    assert_eq!(operator_for(&connections, 3, 1), MoveOperator::Append(NodeId(6)));
    assert_eq!(operator_for(&connections, 3, 2), MoveOperator::Truncate(2));
    assert_eq!(operator_for(&connections, 3, -1), MoveOperator::Truncate(2));
    assert_eq!(operator_for(&connections, 3, i64::MAX), MoveOperator::Truncate(2));
    assert_eq!(operator_for(&connections, 1, 2), MoveOperator::Truncate(0));
    assert_eq!(operator_for(&connections, 0, 2), MoveOperator::Truncate(0));
    assert_eq!(operator_for(&vec![], 4, 0), MoveOperator::Truncate(3));

    let g = graph_of(
        &[(1, 0, 0), (2, 0, 1000), (3, 0, 2000)],
        &[(1, 2), (2, 1), (2, 3)],
    );
    let mut rng = StdRng::seed_from_u64(31);
    let mut steps = std::collections::HashSet::new();
    let mut cuts = 0;
    for _ in 0..200 {
        match random_operator(&g, &ids(&[1, 2]), &mut rng) {
            MoveOperator::Append(n) => {
                assert!(n == NodeId(1) || n == NodeId(3));
                steps.insert(n);
            }
            MoveOperator::Truncate(k) => {
                assert_eq!(k, 1);
                cuts += 1;
            }
        }
    }
    assert_eq!(steps.len(), 2);
    assert!(cuts > 0);
    // Node 3 has no adjacency entry: only the cut is left.
    for _ in 0..20 {
        assert_eq!(
            random_operator(&g, &ids(&[1, 2, 3]), &mut rng),
            MoveOperator::Truncate(2)
        );
    }
    assert_eq!(random_operator(&g, &vec![], &mut rng), MoveOperator::Truncate(0));
}

#[test]
fn the_route_along_a_sequence_stops_before_a_missing_node() {
    let g = graph_of(
        &[(1, 0, 0), (2, 0, 1000), (3, 0, 2000)],
        &[(1, 2), (2, 3)],
    );
    let route = route_from_nodes(&g, &ids(&[1, 2, 3]));
    assert_eq!(hops(&route), vec![(1, 2), (2, 3)]);
    assert_eq!(route[0].length, 11_110);
    assert_eq!(hops(&route_from_nodes(&g, &ids(&[1, 2, 77, 3]))), vec![(1, 2)]);
    assert!(route_from_nodes(&g, &ids(&[77, 1])).is_empty());
    assert!(route_from_nodes(&g, &ids(&[1])).is_empty());
    // Edges follow the sequence, also where no connection does.
    assert_eq!(hops(&route_from_nodes(&g, &ids(&[3, 1]))), vec![(3, 1)]);
}
