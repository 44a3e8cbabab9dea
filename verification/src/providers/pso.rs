//! Particle swarm optimisation: a swarm that drifts through the hazard raster towards
//! the destination, and its counterpart on the road graph.

use rand::rngs::StdRng;
use vstd::arithmetic::div_mod::lemma_fundamental_div_mod;
use vstd::arithmetic::div_mod::lemma_fundamental_div_mod_converse;
use vstd::prelude::*;
use crate::deadline::Deadline;
use crate::geometry::{ceil_sqrt, ceil_sqrt_u128, lemma_ceil_sqrt_le, lemma_flat_distance_bound,
    sq_norm, DISTANCE_LIMIT};
use crate::graph::{created_edge, node_distance, Edge, Graph, GraphView, NodeId};
use crate::random::sample_uniform_inclusive;
use crate::route::{is_walk, lemma_walk_push, walk_end, GenerationMode, GridPosition, PixRoute,
    Route, RouteDetails, RouteGeneratorStrategy, WxRouteDetails, CELL_UNITS};
use crate::status::{RouteError, RouteStatus};
use crate::weather::{cell_free, cell_is_free, PixelColor, GRID_SIZE};
use crate::RouteGenerator;

verus! {

pub struct RouteGeneratorPSO;

/// The most iterations that a simulation runs.
pub const MAX_ITERATIONS: u32 = 500;

/// The number of particles in the swarm.
pub const PARTICLES_COUNT: u32 = 100;

/// The bounds of a velocity component, in units of a `GridPosition` per iteration.
pub const MIN_VELOCITY: i64 = -15_000;

pub const MAX_VELOCITY: i64 = 15_000;

/// The pull of a particle's own best position, in thousandths.
pub const C1_COEFF: i64 = 900;

/// The pull of the swarm's best position, in thousandths.
pub const C2_COEFF: i64 = 1250;

/// The share of its velocity that a particle keeps, in thousandths.
pub const STATIC_WEIGHT_COEFF: i64 = 990;

/// The largest random factor: a draw of `RANDOM_UNITS` stands for one.
pub const RANDOM_UNITS: i64 = 1000;

/// The fitness at which a solution is good enough for the simulation to stop.
pub const FITNESS_THRESHOLD_STOP: u64 = 1150;

/// The number of points checked on the way of a particle to its new position.
pub const LINE_CHECK_POINTS: usize = 15;

/// The velocity of a particle along both axes.
#[derive(Debug, Clone, Copy, PartialEq, Eq, Structural)]
pub struct Velocity2D {
    pub vx: i64,
    pub vy: i64,
}

/// The distance between two positions, in units of a `GridPosition`, rounded up.
pub open spec fn grid_distance(a: GridPosition, b: GridPosition) -> nat {
    ceil_sqrt(sq_norm(a.x - b.x, a.y - b.y))
}

/// No distance between two positions reaches this bound.
pub const GRID_DISTANCE_LIMIT: u64 = 0x2_0000_0000;

/// Computes the distance between two positions.
pub fn grid_distance_of(a: &GridPosition, b: &GridPosition) -> (d: u64)
    ensures
        d == grid_distance(*a, *b),
        d < GRID_DISTANCE_LIMIT,
{
    let dx: i128 = a.x as i128 - b.x as i128;
    let dy: i128 = a.y as i128 - b.y as i128;
    assert(0 <= dx * dx <= 0x1_0000_0000 * 0x1_0000_0000) by (nonlinear_arith)
        requires
            -0x1_0000_0000 <= dx <= 0x1_0000_0000,
    ;
    assert(0 <= dy * dy <= 0x1_0000_0000 * 0x1_0000_0000) by (nonlinear_arith)
        requires
            -0x1_0000_0000 <= dy <= 0x1_0000_0000,
    ;
    let square: u128 = (dx * dx + dy * dy) as u128;
    let root: u128 = ceil_sqrt_u128(square);
    proof {
        let bound: nat = 0x1_8000_0000;
        assert(bound * bound >= square) by (nonlinear_arith)
            requires
                bound == 0x1_8000_0000,
                square <= 2 * (0x1_0000_0000 * 0x1_0000_0000),
        ;
        lemma_ceil_sqrt_le(square as nat, bound);
    }
    root as u64
}

/// Divides and rounds towards minus infinity.
fn floor_div(a: i128, b: i128) -> (q: i128)
    requires
        b > 0,
        -0x1000_0000_0000_0000_0000_0000_0000_0000 <= a <= 0x1000_0000_0000_0000_0000_0000_0000_0000,
        b <= 0x1000_0000_0000_0000_0000_0000_0000_0000,
    ensures
        q == a / b,
{
    if a >= 0 {
        let q: u128 = (a as u128) / (b as u128);
        q as i128
    } else {
        let n: u128 = (-a) as u128;
        let d: u128 = b as u128;
        let q: u128 = (n + d - 1) / d;
        proof {
            let r = q * d - n;
            assert(0 <= r < d) by (nonlinear_arith)
                requires
                    q == (n + d - 1) / (d as int),
                    d > 0,
                    r == q * d - n,
            ;
            assert(a == (-(q as int)) * b + r) by (nonlinear_arith)
                requires
                    r == q * d - n,
                    a == -(n as int),
                    b == d,
            ;
            lemma_fundamental_div_mod_converse(a as int, b as int, -(q as int), r);
            assert(q <= n) by (nonlinear_arith)
                requires
                    q == (n + d - 1) / (d as int),
                    d >= 1,
                    n >= 1,
            ;
        }
        -(q as i128)
    }
}

/// The cell, along one axis, of check point `k` out of `n` on the way from the
/// coordinate `from` to the coordinate `to`: the point lies at `(k + 1/2) / n` of the way.
pub open spec fn line_cell(from: int, to: int, n: int, k: int) -> int {
    (2 * n * from + (2 * k + 1) * (to - from)) / (2 * n * CELL_UNITS)
}

/// Check point `k` out of `n` on the way from `start` to `end`, moved to the corner of
/// its cell.
pub open spec fn line_point(start: GridPosition, end: GridPosition, n: int, k: int)
    -> GridPosition {
    GridPosition {
        x: (line_cell(start.x as int, end.x as int, n, k) * CELL_UNITS) as i32,
        y: (line_cell(start.y as int, end.y as int, n, k) * CELL_UNITS) as i32,
    }
}

/// The first `count` of the `n` check points on the way from `start` to `end`.
pub open spec fn line_points(start: GridPosition, end: GridPosition, n: int, count: int) -> Seq<
    GridPosition,
> {
    Seq::new(count as nat, |k: int| line_point(start, end, n, k))
}

/// The distinct values of a sequence, in the order in which they first occur.
pub open spec fn distinct_in_order(s: Seq<GridPosition>) -> Seq<GridPosition>
    decreases s.len(),
{
    if s.len() == 0 {
        Seq::empty()
    } else {
        let rest = distinct_in_order(s.drop_last());
        if rest.contains(s.last()) {
            rest
        } else {
            rest.push(s.last())
        }
    }
}

/// The distinct values of a sequence are the values of the sequence.
pub proof fn lemma_distinct_same_values(s: Seq<GridPosition>, p: GridPosition)
    ensures
        distinct_in_order(s).contains(p) <==> s.contains(p),
        distinct_in_order(s).no_duplicates(),
        distinct_in_order(s).len() <= s.len(),
    decreases s.len(),
{
    if s.len() > 0 {
        let rest = distinct_in_order(s.drop_last());
        lemma_distinct_same_values(s.drop_last(), p);
        lemma_distinct_same_values(s.drop_last(), s.last());
        let d = distinct_in_order(s);
        if s.contains(p) {
            let i = choose|i: int| 0 <= i < s.len() && s[i] == p;
            if i < s.len() - 1 {
                assert(s.drop_last()[i] == p);
                assert(rest.contains(p));
                let j = choose|j: int| 0 <= j < rest.len() && rest[j] == p;
                assert(d[j] == p);
            } else {
                if rest.contains(s.last()) {
                } else {
                    assert(d[rest.len() as int] == p);
                }
            }
        }
        if d.contains(p) {
            let j = choose|j: int| 0 <= j < d.len() && d[j] == p;
            if j < rest.len() {
                assert(rest[j] == p);
                assert(rest.contains(p));
                let i = choose|i: int| 0 <= i < s.drop_last().len() && s.drop_last()[i] == p;
                assert(s[i] == p);
            } else {
                assert(s[s.len() - 1] == p);
            }
        }
        if !rest.contains(s.last()) {
            assert forall|a: int, b: int| 0 <= a < d.len() && 0 <= b < d.len() && a != b implies d[a]
                != d[b] by {
                if a < rest.len() && b < rest.len() {
                } else if a < rest.len() {
                    assert(rest[a] == d[a]);
                } else {
                    assert(rest[b] == d[b]);
                }
            }
        }
    }
}

/// A check point lies between the two coordinates, so its cell corner is a coordinate
/// too.
proof fn lemma_line_cell_range(from: int, to: int, n: int, k: int)
    requires
        0 <= k < n,
        i32::MIN + CELL_UNITS <= from <= i32::MAX,
        i32::MIN + CELL_UNITS <= to <= i32::MAX,
    ensures
        i32::MIN <= line_cell(from, to, n, k) * CELL_UNITS <= i32::MAX,
{
    let units = CELL_UNITS as int;
    assert(units == 1000);
    let t = 2 * k + 1;
    let whole = 2 * n;
    let numerator = whole * from + t * (to - from);
    let divisor = whole * units;
    let low = if from <= to {
        from
    } else {
        to
    };
    let high = if from <= to {
        to
    } else {
        from
    };
    assert(whole * low <= numerator <= whole * high) by (nonlinear_arith)
        requires
            0 < t < whole,
            numerator == whole * from + t * (to - from),
            low == (if from <= to {
                from
            } else {
                to
            }),
            high == (if from <= to {
                to
            } else {
                from
            }),
    ;
    assert(divisor > 0) by (nonlinear_arith)
        requires
            divisor == whole * units,
            whole > 0,
            units > 0,
    ;
    let q = numerator / divisor;
    assert(q == line_cell(from, to, n, k));
    lemma_fundamental_div_mod(numerator, divisor);
    let r = numerator % divisor;
    assert(0 <= r < divisor);
    assert(numerator == divisor * q + r);
    assert(q * units <= high) by (nonlinear_arith)
        requires
            numerator == divisor * q + r,
            r >= 0,
            divisor == whole * units,
            numerator <= whole * high,
            whole > 0,
    ;
    assert(q * units > low - units) by (nonlinear_arith)
        requires
            numerator == divisor * q + r,
            r < divisor,
            divisor == whole * units,
            numerator >= whole * low,
            whole > 0,
    ;
}

/// The cell of the first of fifteen check points.
proof fn lemma_first_check_point(from: int, to: int)
    ensures
        line_cell(from, to, LINE_CHECK_POINTS as int, 0) == (29 * from + to) / 30000,
{
    let n = LINE_CHECK_POINTS as int;
    let units = CELL_UNITS as int;
    assert(2 * n * from == 30 * from) by (nonlinear_arith)
        requires
            n == 15,
    ;
    assert((2 * 0 + 1) * (to - from) == to - from) by (nonlinear_arith);
    assert(2 * n * units == 30000) by (nonlinear_arith)
        requires
            n == 15,
            units == 1000,
    ;
}

/// Computes the corner of the cell of check point `k` out of `n` along one axis.
fn line_coordinate_of(from: i32, to: i32, n: usize, k: usize) -> (r: i32)
    requires
        k < n,
        i32::MIN + CELL_UNITS <= from,
        i32::MIN + CELL_UNITS <= to,
    ensures
        r == line_cell(from as int, to as int, n as int, k as int) * CELL_UNITS,
{
    let units: i128 = CELL_UNITS as i128;
    assert(units == 1000);
    let whole: i128 = 2 * (n as i128);
    let t: i128 = 2 * (k as i128) + 1;
    let span: i128 = to as i128 - from as i128;
    assert(-0x2_0000_0000_0000_0000 * 0x1_0000_0000 <= whole * (from as i128)
        <= 0x2_0000_0000_0000_0000 * 0x1_0000_0000) by (nonlinear_arith)
        requires
            0 <= whole <= 0x2_0000_0000_0000_0000,
            -0x1_0000_0000 <= from <= 0x1_0000_0000,
    ;
    assert(-0x2_0000_0000_0000_0000 * 0x1_0000_0000 <= t * span <= 0x2_0000_0000_0000_0000
        * 0x1_0000_0000) by (nonlinear_arith)
        requires
            0 <= t <= 0x2_0000_0000_0000_0000,
            -0x1_0000_0000 <= span <= 0x1_0000_0000,
    ;
    let numerator: i128 = whole * (from as i128) + t * span;
    let divisor: i128 = whole * units;
    let cell: i128 = floor_div(numerator, divisor);
    proof {
        lemma_line_cell_range(from as int, to as int, n as int, k as int);
    }
    (cell * units) as i32
}

/// Tests whether a position is among the points.
pub fn position_in(points: &Vec<GridPosition>, p: GridPosition) -> (r: bool)
    ensures
        r == points@.contains(p),
{
    let mut i: usize = 0;
    while i < points.len()
        invariant
            i <= points.len(),
            forall|j: int| 0 <= j < i ==> points@[j] != p,
        decreases points.len() - i,
    {
        if points[i] == p {
            return true;
        }
        i += 1;
    }
    false
}

/// Designates the points to check on the way from `start_point` to `end_point`: the
/// `number_of_points` points that lie at `(k + 1/2) / number_of_points` of the way, each
/// moved to the corner of its cell, without repetitions.
pub fn designate_points_on_line(
    start_point: GridPosition,
    end_point: GridPosition,
    number_of_points: usize,
) -> (points: Vec<GridPosition>)
    requires
        i32::MIN + CELL_UNITS <= start_point.x,
        i32::MIN + CELL_UNITS <= start_point.y,
        i32::MIN + CELL_UNITS <= end_point.x,
        i32::MIN + CELL_UNITS <= end_point.y,
    ensures
        points@ == distinct_in_order(
            line_points(start_point, end_point, number_of_points as int, number_of_points as int),
        ),
{
    let mut points: Vec<GridPosition> = Vec::new();
    let mut point_number: usize = 0;
    let ghost n = number_of_points as int;
    assert(line_points(start_point, end_point, n, 0) =~= Seq::<GridPosition>::empty());
    while point_number < number_of_points
        invariant
            point_number <= number_of_points,
            n == number_of_points,
            i32::MIN + CELL_UNITS <= start_point.x,
            i32::MIN + CELL_UNITS <= start_point.y,
            i32::MIN + CELL_UNITS <= end_point.x,
            i32::MIN + CELL_UNITS <= end_point.y,
            points@ == distinct_in_order(
                line_points(start_point, end_point, n, point_number as int),
            ),
        decreases number_of_points - point_number,
    {
        let check_point = GridPosition {
            x: line_coordinate_of(start_point.x, end_point.x, number_of_points, point_number),
            y: line_coordinate_of(start_point.y, end_point.y, number_of_points, point_number),
        };
        proof {
            let longer = line_points(start_point, end_point, n, point_number as int + 1);
            assert(longer.drop_last() =~= line_points(
                start_point,
                end_point,
                n,
                point_number as int,
            ));
            assert(longer.last() == check_point);
        }
        if !position_in(&points, check_point) {
            points.push(check_point);
        }
        point_number += 1;
    }
    points
}

/// A member of the swarm.
#[derive(Debug, Clone, Copy, PartialEq, Eq, Structural)]
pub struct Particle {
    pub position: GridPosition,
    pub velocity: Velocity2D,
    /// The lowest fitness that the particle has had.
    pub personal_best: u64,
    /// Where it had that fitness.
    pub personal_best_position: GridPosition,
}

/// The cell that a particle at `coordinate` heads for with the given velocity.
pub open spec fn candidate_cell(coordinate: i32, velocity: i64) -> int {
    (coordinate + velocity) / (CELL_UNITS as int)
}

/// Whether a particle may move: the cell it heads for and the cells of all check points
/// on its way lie in the raster and are open.
pub open spec fn move_allowed(grid: Seq<PixelColor>, position: GridPosition, velocity: Velocity2D)
    -> bool {
    let cx = candidate_cell(position.x, velocity.vx);
    let cy = candidate_cell(position.y, velocity.vy);
    &&& cell_is_free(grid, cx, cy)
    &&& forall|k: int|
        0 <= k < LINE_CHECK_POINTS ==> cell_is_free(
            grid,
            #[trigger] line_cell(position.x as int, cx * CELL_UNITS, LINE_CHECK_POINTS as int, k),
            line_cell(position.y as int, cy * CELL_UNITS, LINE_CHECK_POINTS as int, k),
        )
}

/// Where a particle stands after a position update: at the corner of the cell it headed
/// for where the move is allowed, and where it stood otherwise.
pub open spec fn position_after(grid: Seq<PixelColor>, position: GridPosition, velocity: Velocity2D)
    -> GridPosition {
    if move_allowed(grid, position, velocity) {
        GridPosition {
            x: (candidate_cell(position.x, velocity.vx) * CELL_UNITS) as i32,
            y: (candidate_cell(position.y, velocity.vy) * CELL_UNITS) as i32,
        }
    } else {
        position
    }
}

/// The position is the corner of an open cell of the raster.
pub open spec fn is_free_corner(grid: Seq<PixelColor>, p: GridPosition) -> bool {
    &&& p.x % CELL_UNITS == 0
    &&& p.y % CELL_UNITS == 0
    &&& cell_is_free(grid, p.x as int / CELL_UNITS as int, p.y as int / CELL_UNITS as int)
}

/// A position update never leaves a particle on a blocked cell or outside the raster:
/// where the particle moves at all, it lands on the corner of an open cell.
pub proof fn lemma_position_after_is_free(
    grid: Seq<PixelColor>,
    position: GridPosition,
    velocity: Velocity2D,
)
    ensures
        position_after(grid, position, velocity) == position || is_free_corner(
            grid,
            position_after(grid, position, velocity),
        ),
{
    assert(CELL_UNITS == 1000 && GRID_SIZE == 100);
}

/// The share of its velocity that a particle keeps in the given iteration, in thousandths.
pub open spec fn weight_coeff(iter_number: i32) -> i64 {
    STATIC_WEIGHT_COEFF
}

pub fn calculate_weight_coeff(iter_number: i32) -> (r: i64)
    ensures
        r == weight_coeff(iter_number),
{
    STATIC_WEIGHT_COEFF
}

/// A velocity component kept within its bounds.
pub open spec fn clamped(v: int) -> i64 {
    if v < MIN_VELOCITY {
        MIN_VELOCITY
    } else if v > MAX_VELOCITY {
        MAX_VELOCITY
    } else {
        v as i64
    }
}

/// The new velocity along one axis, for the random factors `r1` and `r2` in thousandths:
/// `w * v + C1 * r1 * (personal_best - position) + C2 * r2 * (global_best - position)`,
/// rounded down and kept within the bounds.
pub open spec fn next_velocity(
    global_best: i32,
    personal_best: i32,
    position: i32,
    velocity: i64,
    iteration_number: i32,
    r1: i64,
    r2: i64,
) -> i64 {
    clamped(
        (weight_coeff(iteration_number) * velocity * RANDOM_UNITS + C1_COEFF * r1 * (personal_best
            - position) + C2_COEFF * r2 * (global_best - position)) / (1000 * RANDOM_UNITS),
    )
}

/// Computes the new velocity along one axis from the random factors that were drawn.
pub fn next_velocity_of(
    global_best: i32,
    personal_best: i32,
    position: i32,
    velocity: i64,
    iteration_number: i32,
    r1: i64,
    r2: i64,
) -> (r: i64)
    ensures
        r == next_velocity(
            global_best,
            personal_best,
            position,
            velocity,
            iteration_number,
            r1,
            r2,
        ),
        MIN_VELOCITY <= r <= MAX_VELOCITY,
{
    let weight: i128 = calculate_weight_coeff(iteration_number) as i128;
    let units: i128 = RANDOM_UNITS as i128;
    let c1: i128 = C1_COEFF as i128;
    let c2: i128 = C2_COEFF as i128;
    assert(weight == 990 && units == 1000 && c1 == 900 && c2 == 1250);
    let own: i128 = personal_best as i128 - position as i128;
    let common: i128 = global_best as i128 - position as i128;
    let kept: i128 = weight * (velocity as i128) * units;
    let f1: i128 = c1 * (r1 as i128);
    let f2: i128 = c2 * (r2 as i128);
    assert(-0x1_0000_0000_0000_0000_0000_0000_0000 <= f1 * own
        <= 0x1_0000_0000_0000_0000_0000_0000_0000) by (nonlinear_arith)
        requires
            -0x1_0000_0000_0000_0000_0000 <= f1 <= 0x1_0000_0000_0000_0000_0000,
            -0x1_0000_0000 <= own <= 0x1_0000_0000,
    ;
    assert(-0x1_0000_0000_0000_0000_0000_0000_0000 <= f2 * common
        <= 0x1_0000_0000_0000_0000_0000_0000_0000) by (nonlinear_arith)
        requires
            -0x1_0000_0000_0000_0000_0000 <= f2 <= 0x1_0000_0000_0000_0000_0000,
            -0x1_0000_0000 <= common <= 0x1_0000_0000,
    ;
    let numerator: i128 = kept + f1 * own + f2 * common;
    let raw: i128 = floor_div(numerator, 1000 * units);
    assert(numerator == weight_coeff(iteration_number) * velocity * RANDOM_UNITS + C1_COEFF * r1
        * (personal_best - position) + C2_COEFF * r2 * (global_best - position))
        by (nonlinear_arith)
        requires
            numerator == kept + f1 * own + f2 * common,
            kept == weight * velocity * units,
            f1 == c1 * r1,
            f2 == c2 * r2,
            own == personal_best - position,
            common == global_best - position,
            weight == weight_coeff(iteration_number),
            units == RANDOM_UNITS,
            c1 == C1_COEFF,
            c2 == C2_COEFF,
    ;
    if raw < MIN_VELOCITY as i128 {
        MIN_VELOCITY
    } else if raw > MAX_VELOCITY as i128 {
        MAX_VELOCITY
    } else {
        raw as i64
    }
}

/// The velocity `after` is an update of `before` for some random factors between nothing
/// and one.
pub open spec fn velocity_updated(
    global_best: i32,
    personal_best: i32,
    position: i32,
    before: i64,
    iteration_number: i32,
    after: i64,
) -> bool {
    exists|r1: i64, r2: i64|
        0 <= r1 <= RANDOM_UNITS && 0 <= r2 <= RANDOM_UNITS && after == #[trigger] next_velocity(
            global_best,
            personal_best,
            position,
            before,
            iteration_number,
            r1,
            r2,
        )
}

impl Particle {
    /// The fitness of the particle: its distance to the target, of which less is better.
    pub fn calculate_fitness(&self, target_point: &GridPosition) -> (r: u64)
        ensures
            r == grid_distance(self.position, *target_point),
            r < GRID_DISTANCE_LIMIT,
    {
        grid_distance_of(&self.position, target_point)
    }

    /// Moves the particle by its velocity to the corner of the cell it heads for, unless
    /// that cell or a cell on the way is blocked or outside the raster.
    pub fn update_position(&mut self, global_best_pos: GridPosition, grid: &Vec<PixelColor>)
        ensures
            final(self).position == position_after(
                grid@,
                old(self).position,
                old(self).velocity,
            ),
            final(self).position == old(self).position || is_free_corner(
                grid@,
                final(self).position,
            ),
            final(self).velocity == old(self).velocity,
            final(self).personal_best == old(self).personal_best,
            final(self).personal_best_position == old(self).personal_best_position,
    {
        let units: i128 = CELL_UNITS as i128;
        let size: i128 = GRID_SIZE as i128;
        let checks: usize = LINE_CHECK_POINTS;
        assert(units == 1000 && size == 100 && checks == 15);
        let position: GridPosition = self.position;
        let ghost velocity = self.velocity;
        let cell_x: i128 = floor_div(position.x as i128 + self.velocity.vx as i128, units);
        let cell_y: i128 = floor_div(position.y as i128 + self.velocity.vy as i128, units);
        assert(cell_x == candidate_cell(position.x, velocity.vx));
        assert(cell_y == candidate_cell(position.y, velocity.vy));
        if cell_x < 0 || cell_x >= size || cell_y < 0 || cell_y >= size {
            return ;
        }
        if !cell_free(grid, cell_x as i64, cell_y as i64) {
            return ;
        }
        let candidate = GridPosition { x: (cell_x * units) as i32, y: (cell_y * units) as i32 };
        if position.x < i32::MIN + CELL_UNITS || position.y < i32::MIN + CELL_UNITS {
            proof {
                let zx = line_cell(position.x as int, cell_x * CELL_UNITS, checks as int, 0);
                let zy = line_cell(position.y as int, cell_y * CELL_UNITS, checks as int, 0);
                lemma_first_check_point(position.x as int, cell_x * CELL_UNITS);
                lemma_first_check_point(position.y as int, cell_y * CELL_UNITS);
                assert(zx < 0 || zy < 0);
                assert(!cell_is_free(grid@, zx, zy));
            }
            return ;
        }
        let points_to_check = designate_points_on_line(position, candidate, checks);
        let ghost raw = line_points(position, candidate, checks as int, checks as int);
        proof {
            assert forall|k: int| 0 <= k < checks implies (#[trigger] raw[k]).x == line_cell(
                position.x as int,
                cell_x * CELL_UNITS,
                checks as int,
                k,
            ) * CELL_UNITS && raw[k].y == line_cell(
                position.y as int,
                cell_y * CELL_UNITS,
                checks as int,
                k,
            ) * CELL_UNITS by {
                lemma_line_cell_range(position.x as int, candidate.x as int, checks as int, k);
                lemma_line_cell_range(position.y as int, candidate.y as int, checks as int, k);
            }
        }
        let mut i: usize = 0;
        while i < points_to_check.len()
            invariant
                i <= points_to_check.len(),
                units == 1000,
                checks == 15,
                CELL_UNITS == 1000,
                points_to_check@ == distinct_in_order(raw),
                raw.len() == checks,
                position == old(self).position,
                velocity == old(self).velocity,
                *self == *old(self),
                cell_x == candidate_cell(position.x, velocity.vx),
                cell_y == candidate_cell(position.y, velocity.vy),
                forall|k: int|
                    0 <= k < checks ==> (#[trigger] raw[k]).x == line_cell(
                        position.x as int,
                        cell_x * CELL_UNITS,
                        checks as int,
                        k,
                    ) * CELL_UNITS && raw[k].y == line_cell(
                        position.y as int,
                        cell_y * CELL_UNITS,
                        checks as int,
                        k,
                    ) * CELL_UNITS,
                forall|j: int|
                    0 <= j < i ==> cell_is_free(
                        grid@,
                        (#[trigger] points_to_check@[j]).x as int / 1000,
                        points_to_check@[j].y as int / 1000,
                    ),
            decreases points_to_check.len() - i,
        {
            let point: GridPosition = points_to_check[i];
            let point_x: i128 = floor_div(point.x as i128, units);
            let point_y: i128 = floor_div(point.y as i128, units);
            if !cell_free(grid, point_x as i64, point_y as i64) {
                proof {
                    assert(points_to_check@.contains(point));
                    lemma_distinct_same_values(raw, point);
                    let k = choose|k: int| 0 <= k < raw.len() && raw[k] == point;
                    let zx = line_cell(position.x as int, cell_x * CELL_UNITS, checks as int, k);
                    let zy = line_cell(position.y as int, cell_y * CELL_UNITS, checks as int, k);
                    assert(raw[k].x == zx * CELL_UNITS);
                    assert(point.x as int / 1000 == zx);
                    assert(point.y as int / 1000 == zy);
                    assert(!cell_is_free(grid@, zx, zy));
                    assert(!move_allowed(grid@, position, velocity));
                }
                return ;
            }
            i += 1;
        }
        proof {
            assert forall|k: int| 0 <= k < LINE_CHECK_POINTS implies cell_is_free(
                grid@,
                #[trigger] line_cell(
                    position.x as int,
                    cell_x * CELL_UNITS,
                    LINE_CHECK_POINTS as int,
                    k,
                ),
                line_cell(position.y as int, cell_y * CELL_UNITS, LINE_CHECK_POINTS as int, k),
            ) by {
                let point = raw[k];
                assert(raw.contains(point));
                lemma_distinct_same_values(raw, point);
                let j = choose|j: int|
                    0 <= j < points_to_check@.len() && points_to_check@[j] == point;
                assert(cell_is_free(
                    grid@,
                    points_to_check@[j].x as int / 1000,
                    points_to_check@[j].y as int / 1000,
                ));
                let zx = line_cell(position.x as int, cell_x * CELL_UNITS, checks as int, k);
                let zy = line_cell(position.y as int, cell_y * CELL_UNITS, checks as int, k);
                assert(point.x == zx * CELL_UNITS);
                assert(point.x as int / 1000 == zx);
                assert(point.y as int / 1000 == zy);
            }
            assert(move_allowed(grid@, position, velocity));
        }
        self.position = candidate;
    }

    /// Updates the velocity along one axis with two random factors drawn from `rng`.
    pub fn update_velocity_partial(
        global_best_pos_partial: i32,
        particle_best_pos_partial: i32,
        particle_curr_position: i32,
        particle_velocity: &mut i64,
        iteration_number: i32,
        rng: &mut StdRng,
    )
        ensures
            velocity_updated(
                global_best_pos_partial,
                particle_best_pos_partial,
                particle_curr_position,
                *old(particle_velocity),
                iteration_number,
                *final(particle_velocity),
            ),
            MIN_VELOCITY <= *final(particle_velocity) <= MAX_VELOCITY,
    {
        let r1: i64 = sample_uniform_inclusive(rng, 0, RANDOM_UNITS);
        let r2: i64 = sample_uniform_inclusive(rng, 0, RANDOM_UNITS);
        *particle_velocity =
        next_velocity_of(
            global_best_pos_partial,
            particle_best_pos_partial,
            particle_curr_position,
            *particle_velocity,
            iteration_number,
            r1,
            r2,
        );
    }

    /// Updates the velocity along both axes.
    pub fn update_velocity(
        &mut self,
        global_best_pos: GridPosition,
        iteration_number: i32,
        rng: &mut StdRng,
    )
        ensures
            velocity_updated(
                global_best_pos.x,
                old(self).personal_best_position.x,
                old(self).position.x,
                old(self).velocity.vx,
                iteration_number,
                final(self).velocity.vx,
            ),
            velocity_updated(
                global_best_pos.y,
                old(self).personal_best_position.y,
                old(self).position.y,
                old(self).velocity.vy,
                iteration_number,
                final(self).velocity.vy,
            ),
            MIN_VELOCITY <= final(self).velocity.vx <= MAX_VELOCITY,
            MIN_VELOCITY <= final(self).velocity.vy <= MAX_VELOCITY,
            final(self).position == old(self).position,
            final(self).personal_best == old(self).personal_best,
            final(self).personal_best_position == old(self).personal_best_position,
    {
        let mut vx: i64 = self.velocity.vx;
        let mut vy: i64 = self.velocity.vy;
        Particle::update_velocity_partial(
            global_best_pos.x,
            self.personal_best_position.x,
            self.position.x,
            &mut vx,
            iteration_number,
            rng,
        );
        Particle::update_velocity_partial(
            global_best_pos.y,
            self.personal_best_position.y,
            self.position.y,
            &mut vy,
            iteration_number,
            rng,
        );
        self.velocity = Velocity2D { vx, vy };
    }
}

/// The state of a simulation on the raster.
pub struct Simulation {
    pub iteration_number: i32,
    pub route_details: WxRouteDetails,
    pub particles: Vec<Particle>,
    /// The lowest fitness that any particle has had.
    pub global_best: u64,
    /// Where a particle had that fitness.
    pub global_best_position: GridPosition,
    /// The fitness of the particle that was evaluated last.
    pub last_fitness_value: u64,
}

/// A particle after its fitness is held against its personal best.
pub open spec fn evaluated(p: Particle, target: GridPosition) -> Particle {
    if grid_distance(p.position, target) < p.personal_best {
        Particle {
            personal_best: grid_distance(p.position, target) as u64,
            personal_best_position: p.position,
            ..p
        }
    } else {
        p
    }
}

/// The best fitness and its position after the particles are evaluated in order against
/// the best so far; of equal fitnesses the earlier one stays.
pub open spec fn evaluated_best(
    particles: Seq<Particle>,
    target: GridPosition,
    best: u64,
    best_position: GridPosition,
) -> (u64, GridPosition)
    decreases particles.len(),
{
    if particles.len() == 0 {
        (best, best_position)
    } else {
        let (b, p) = evaluated_best(particles.drop_last(), target, best, best_position);
        let fitness = grid_distance(particles.last().position, target);
        if fitness < b {
            (fitness as u64, particles.last().position)
        } else {
            (b, p)
        }
    }
}

/// The position is where the swarm started or the corner of an open cell.
pub open spec fn placed(grid: Seq<PixelColor>, start: GridPosition, p: GridPosition) -> bool {
    p == start || is_free_corner(grid, p)
}

/// No distance between two positions reaches `GRID_DISTANCE_LIMIT`.
pub proof fn lemma_grid_distance_bound(a: GridPosition, b: GridPosition)
    ensures
        grid_distance(a, b) < GRID_DISTANCE_LIMIT,
{
    let dx = a.x - b.x;
    let dy = a.y - b.y;
    assert(0 <= dx * dx <= 0x1_0000_0000 * 0x1_0000_0000) by (nonlinear_arith)
        requires
            -0x1_0000_0000 <= dx <= 0x1_0000_0000,
    ;
    assert(0 <= dy * dy <= 0x1_0000_0000 * 0x1_0000_0000) by (nonlinear_arith)
        requires
            -0x1_0000_0000 <= dy <= 0x1_0000_0000,
    ;
    let bound: nat = 0x1_8000_0000;
    assert(bound * bound >= sq_norm(dx, dy)) by (nonlinear_arith)
        requires
            bound == 0x1_8000_0000,
            sq_norm(dx, dy) <= 2 * (0x1_0000_0000 * 0x1_0000_0000),
    ;
    lemma_ceil_sqrt_le(sq_norm(dx, dy), bound);
}

/// Evaluating placed particles leaves a best fitness that no particle undercuts, held at
/// a placed position.
pub proof fn lemma_evaluated_best(
    grid: Seq<PixelColor>,
    start: GridPosition,
    particles: Seq<Particle>,
    target: GridPosition,
    best: u64,
    best_position: GridPosition,
)
    requires
        forall|i: int| 0 <= i < particles.len() ==> placed(grid, start, (#[trigger] particles[i]).position),
        best == u64::MAX || (best == grid_distance(best_position, target) && placed(
            grid,
            start,
            best_position,
        )),
    ensures
        ({
            let (b, p) = evaluated_best(particles, target, best, best_position);
            &&& b <= best
            &&& forall|i: int|
                0 <= i < particles.len() ==> b <= grid_distance(
                    (#[trigger] particles[i]).position,
                    target,
                )
            &&& b == u64::MAX || (b == grid_distance(p, target) && placed(grid, start, p))
            &&& particles.len() > 0 ==> b < u64::MAX
        }),
    decreases particles.len(),
{
    if particles.len() > 0 {
        let front = particles.drop_last();
        lemma_evaluated_best(grid, start, front, target, best, best_position);
        lemma_grid_distance_bound(particles.last().position, target);
        let (b, p) = evaluated_best(particles, target, best, best_position);
        assert forall|i: int| 0 <= i < particles.len() implies b <= grid_distance(
            (#[trigger] particles[i]).position,
            target,
        ) by {
            if i < front.len() {
                assert(front[i] == particles[i]);
            }
        }
    }
}

/// Evaluating particles that all stand at one position, with no best so far, leaves
/// that position as the best.
pub proof fn lemma_first_best_is_start(
    particles: Seq<Particle>,
    target: GridPosition,
    start: GridPosition,
    origin: GridPosition,
)
    requires
        particles.len() > 0,
        forall|i: int| 0 <= i < particles.len() ==> (#[trigger] particles[i]).position == start,
    ensures
        evaluated_best(particles, target, u64::MAX, origin) == (
            grid_distance(start, target) as u64,
            start,
        ),
    decreases particles.len(),
{
    lemma_grid_distance_bound(start, target);
    assert(GRID_DISTANCE_LIMIT == 0x2_0000_0000);
    let front = particles.drop_last();
    let last = particles[particles.len() - 1];
    assert(particles.last() == last);
    assert(last.position == start);
    if front.len() > 0 {
        assert forall|i: int| 0 <= i < front.len() implies (#[trigger] front[i]).position
            == start by {
            assert(front[i] == particles[i]);
        }
        lemma_first_best_is_start(front, target, start, origin);
        assert(evaluated_best(front, target, u64::MAX, origin) == (
            grid_distance(start, target) as u64,
            start,
        ));
    } else {
        assert(evaluated_best(front, target, u64::MAX, origin) == (u64::MAX, origin));
    }
}

impl Simulation {
    pub fn new(route_details: WxRouteDetails) -> (s: Simulation)
        ensures
            s.iteration_number == 0,
            s.route_details == route_details,
            s.particles@.len() == 0,
            s.global_best == u64::MAX,
            s.global_best_position == (GridPosition { x: 0, y: 0 }),
            s.last_fitness_value == u64::MAX,
    {
        Simulation {
            iteration_number: 0,
            route_details,
            particles: Vec::new(),
            global_best: u64::MAX,
            global_best_position: GridPosition { x: 0, y: 0 },
            last_fitness_value: u64::MAX,
        }
    }

    /// Counts one more iteration; the count stops at the largest number it can hold.
    pub fn increase_iteration_count(&mut self)
        ensures
            final(self).iteration_number == (if old(self).iteration_number == i32::MAX {
                i32::MAX
            } else {
                (old(self).iteration_number + 1) as i32
            }),
            final(self).route_details == old(self).route_details,
            final(self).particles == old(self).particles,
            final(self).global_best == old(self).global_best,
            final(self).global_best_position == old(self).global_best_position,
            final(self).last_fitness_value == old(self).last_fitness_value,
    {
        if self.iteration_number < i32::MAX {
            self.iteration_number = self.iteration_number + 1;
        }
    }

    /// Adds `PARTICLES_COUNT` particles at the starting position, or at the origin where
    /// none is given, each with a velocity drawn within the bounds.
    pub fn init_particles(&mut self, starting_position: Option<GridPosition>, rng: &mut StdRng)
        requires
            old(self).particles.len() + PARTICLES_COUNT <= usize::MAX,
        ensures
            final(self).particles.len() == old(self).particles.len() + PARTICLES_COUNT,
            forall|i: int|
                0 <= i < old(self).particles.len() ==> final(self).particles[i] == old(
                    self,
                ).particles[i],
            forall|i: int|
                old(self).particles.len() <= i < final(self).particles.len() ==> {
                    let p = #[trigger] final(self).particles[i];
                    &&& p.position == (match starting_position {
                        Some(position) => position,
                        None => GridPosition { x: 0, y: 0 },
                    })
                    &&& MIN_VELOCITY <= p.velocity.vx <= MAX_VELOCITY
                    &&& MIN_VELOCITY <= p.velocity.vy <= MAX_VELOCITY
                    &&& p.personal_best == u64::MAX
                    &&& p.personal_best_position == (GridPosition { x: 0, y: 0 })
                },
            final(self).iteration_number == old(self).iteration_number,
            final(self).route_details == old(self).route_details,
            final(self).global_best == old(self).global_best,
            final(self).global_best_position == old(self).global_best_position,
            final(self).last_fitness_value == old(self).last_fitness_value,
    {
        let position: GridPosition = match starting_position {
            Some(position) => position,
            None => GridPosition { x: 0, y: 0 },
        };
        let mut added: u32 = 0;
        while added < PARTICLES_COUNT
            invariant
                added <= PARTICLES_COUNT,
                old(self).particles.len() + PARTICLES_COUNT <= usize::MAX,
                self.particles.len() == old(self).particles.len() + added,
                position == (match starting_position {
                    Some(position) => position,
                    None => GridPosition { x: 0, y: 0 },
                }),
                forall|i: int|
                    0 <= i < old(self).particles.len() ==> self.particles[i] == old(
                        self,
                    ).particles[i],
                forall|i: int|
                    old(self).particles.len() <= i < self.particles.len() ==> {
                        let p = #[trigger] self.particles[i];
                        &&& p.position == position
                        &&& MIN_VELOCITY <= p.velocity.vx <= MAX_VELOCITY
                        &&& MIN_VELOCITY <= p.velocity.vy <= MAX_VELOCITY
                        &&& p.personal_best == u64::MAX
                        &&& p.personal_best_position == (GridPosition { x: 0, y: 0 })
                    },
                self.iteration_number == old(self).iteration_number,
                self.route_details == old(self).route_details,
                self.global_best == old(self).global_best,
                self.global_best_position == old(self).global_best_position,
                self.last_fitness_value == old(self).last_fitness_value,
            decreases PARTICLES_COUNT - added,
        {
            let vx: i64 = sample_uniform_inclusive(rng, MIN_VELOCITY, MAX_VELOCITY);
            let vy: i64 = sample_uniform_inclusive(rng, MIN_VELOCITY, MAX_VELOCITY);
            self.particles.push(
                Particle {
                    position,
                    velocity: Velocity2D { vx, vy },
                    personal_best: u64::MAX,
                    personal_best_position: GridPosition { x: 0, y: 0 },
                },
            );
            added += 1;
        }
    }

    /// Runs one iteration: first every particle is evaluated and the best positions are
    /// brought up to date, then every particle moves and changes its velocity towards
    /// its own best position and the swarm's.
    pub fn swarm_update(&mut self, grid: &Vec<PixelColor>, rng: &mut StdRng)
        ensures
            final(self).particles.len() == old(self).particles.len(),
            (final(self).global_best, final(self).global_best_position) == evaluated_best(
                old(self).particles@,
                old(self).route_details.ending_position,
                old(self).global_best,
                old(self).global_best_position,
            ),
            forall|i: int|
                0 <= i < old(self).particles.len() ==> {
                    let before = evaluated(
                        old(self).particles[i],
                        old(self).route_details.ending_position,
                    );
                    let after = #[trigger] final(self).particles[i];
                    &&& after.position == position_after(grid@, before.position, before.velocity)
                    &&& after.personal_best == before.personal_best
                    &&& after.personal_best_position == before.personal_best_position
                    &&& velocity_updated(
                        final(self).global_best_position.x,
                        before.personal_best_position.x,
                        after.position.x,
                        before.velocity.vx,
                        old(self).iteration_number,
                        after.velocity.vx,
                    )
                    &&& velocity_updated(
                        final(self).global_best_position.y,
                        before.personal_best_position.y,
                        after.position.y,
                        before.velocity.vy,
                        old(self).iteration_number,
                        after.velocity.vy,
                    )
                    &&& MIN_VELOCITY <= after.velocity.vx <= MAX_VELOCITY
                    &&& MIN_VELOCITY <= after.velocity.vy <= MAX_VELOCITY
                },
            final(self).last_fitness_value == (if old(self).particles.len() == 0 {
                old(self).last_fitness_value
            } else {
                grid_distance(
                    old(self).particles@.last().position,
                    old(self).route_details.ending_position,
                ) as u64
            }),
            final(self).iteration_number == old(self).iteration_number,
            final(self).route_details == old(self).route_details,
    {
        let target: GridPosition = self.route_details.ending_position;
        let count: usize = self.particles.len();
        let ghost before = self.particles@;
        let mut i: usize = 0;
        assert(before.take(0) =~= Seq::<Particle>::empty());
        while i < count
            invariant
                i <= count,
                count == before.len(),
                before == old(self).particles@,
                target == old(self).route_details.ending_position,
                self.particles.len() == count,
                self.iteration_number == old(self).iteration_number,
                self.route_details == old(self).route_details,
                (self.global_best, self.global_best_position) == evaluated_best(
                    before.take(i as int),
                    target,
                    old(self).global_best,
                    old(self).global_best_position,
                ),
                forall|j: int| 0 <= j < i ==> #[trigger] self.particles[j] == evaluated(before[j], target),
                forall|j: int| i <= j < count ==> #[trigger] self.particles[j] == before[j],
                self.last_fitness_value == (if i == 0 {
                    old(self).last_fitness_value
                } else {
                    grid_distance(before[i - 1].position, target) as u64
                }),
            decreases count - i,
        {
            let mut particle: Particle = self.particles[i];
            let fitness: u64 = particle.calculate_fitness(&target);
            self.last_fitness_value = fitness;
            if fitness < particle.personal_best {
                particle.personal_best = fitness;
                particle.personal_best_position = particle.position;
            }
            if fitness < self.global_best {
                self.global_best = fitness;
                self.global_best_position = particle.position;
            }
            self.particles.set(i, particle);
            proof {
                assert(before.take(i as int + 1).drop_last() =~= before.take(i as int));
                assert(before.take(i as int + 1).last() == before[i as int]);
            }
            i += 1;
        }
        assert(before.take(count as int) =~= before);
        let global_best_position: GridPosition = self.global_best_position;
        let iteration_number: i32 = self.iteration_number;
        let mut k: usize = 0;
        while k < count
            invariant
                k <= count,
                count == before.len(),
                before == old(self).particles@,
                target == old(self).route_details.ending_position,
                self.particles.len() == count,
                self.iteration_number == old(self).iteration_number,
                iteration_number == self.iteration_number,
                self.route_details == old(self).route_details,
                global_best_position == self.global_best_position,
                (self.global_best, self.global_best_position) == evaluated_best(
                    before,
                    target,
                    old(self).global_best,
                    old(self).global_best_position,
                ),
                self.last_fitness_value == (if count == 0 {
                    old(self).last_fitness_value
                } else {
                    grid_distance(before.last().position, target) as u64
                }),
                forall|j: int| k <= j < count ==> #[trigger] self.particles[j] == evaluated(before[j], target),
                forall|j: int|
                    0 <= j < k ==> {
                        let b = evaluated(before[j], target);
                        let after = #[trigger] self.particles[j];
                        &&& after.position == position_after(grid@, b.position, b.velocity)
                        &&& after.personal_best == b.personal_best
                        &&& after.personal_best_position == b.personal_best_position
                        &&& velocity_updated(
                            global_best_position.x,
                            b.personal_best_position.x,
                            after.position.x,
                            b.velocity.vx,
                            iteration_number,
                            after.velocity.vx,
                        )
                        &&& velocity_updated(
                            global_best_position.y,
                            b.personal_best_position.y,
                            after.position.y,
                            b.velocity.vy,
                            iteration_number,
                            after.velocity.vy,
                        )
                        &&& MIN_VELOCITY <= after.velocity.vx <= MAX_VELOCITY
                        &&& MIN_VELOCITY <= after.velocity.vy <= MAX_VELOCITY
                    },
            decreases count - k,
        {
            let mut particle: Particle = self.particles[k];
            particle.update_position(global_best_position, grid);
            particle.update_velocity(global_best_position, iteration_number, rng);
            self.particles.set(k, particle);
            k += 1;
        }
    }
}

/// Both components of the velocity lie within the bounds.
pub open spec fn velocity_in_bounds(v: Velocity2D) -> bool {
    MIN_VELOCITY <= v.vx <= MAX_VELOCITY && MIN_VELOCITY <= v.vy <= MAX_VELOCITY
}

/// A particle that starts at `start` can stand at `p` after `steps` position updates
/// with velocities within the bounds.
pub open spec fn reachable_in(
    grid: Seq<PixelColor>,
    start: GridPosition,
    p: GridPosition,
    steps: nat,
) -> bool
    decreases steps,
{
    if steps == 0 {
        p == start
    } else {
        exists|q: GridPosition, v: Velocity2D|
            reachable_in(grid, start, q, (steps - 1) as nat) && velocity_in_bounds(v) && p
                == #[trigger] position_after(grid, q, v)
    }
}

/// A particle that starts at `start` can come to stand at `p`.
pub open spec fn reachable(grid: Seq<PixelColor>, start: GridPosition, p: GridPosition) -> bool {
    exists|steps: nat| reachable_in(grid, start, p, steps)
}

/// A position update with a velocity within the bounds leads from a position that can
/// be reached to one that can be reached.
pub proof fn lemma_reachable_step(
    grid: Seq<PixelColor>,
    start: GridPosition,
    q: GridPosition,
    v: Velocity2D,
)
    requires
        reachable(grid, start, q),
        velocity_in_bounds(v),
    ensures
        reachable(grid, start, position_after(grid, q, v)),
{
    let steps = choose|steps: nat| reachable_in(grid, start, q, steps);
    let p = position_after(grid, q, v);
    assert(reachable_in(grid, start, q, ((steps + 1) - 1) as nat));
    assert(reachable_in(grid, start, p, steps + 1));
}

/// A region that holds the start and that no position update with a velocity within
/// the bounds leads out of holds every position that can be reached.
pub proof fn lemma_reachable_stays_in_region(
    grid: Seq<PixelColor>,
    start: GridPosition,
    p: GridPosition,
    steps: nat,
    region: spec_fn(GridPosition) -> bool,
)
    requires
        region(start),
        forall|q: GridPosition, v: Velocity2D|
            region(q) && velocity_in_bounds(v) ==> region(#[trigger] position_after(grid, q, v)),
        reachable_in(grid, start, p, steps),
    ensures
        region(p),
    decreases steps,
{
    if steps > 0 {
        let (q, v) = choose|q: GridPosition, v: Velocity2D|
            reachable_in(grid, start, q, (steps - 1) as nat) && velocity_in_bounds(v) && p
                == #[trigger] position_after(grid, q, v);
        lemma_reachable_stays_in_region(grid, start, q, (steps - 1) as nat, region);
    }
}

/// The best position after an evaluation is the best one before it or the position of
/// a particle.
pub proof fn lemma_evaluated_best_position(
    particles: Seq<Particle>,
    target: GridPosition,
    best: u64,
    best_position: GridPosition,
)
    ensures
        ({
            let (b, p) = evaluated_best(particles, target, best, best_position);
            p == best_position || exists|i: int|
                0 <= i < particles.len() && p == (#[trigger] particles[i]).position
        }),
    decreases particles.len(),
{
    if particles.len() > 0 {
        let front = particles.drop_last();
        lemma_evaluated_best_position(front, target, best, best_position);
        let (b, p) = evaluated_best(particles, target, best, best_position);
        let (fb, fp) = evaluated_best(front, target, best, best_position);
        if p == particles.last().position {
            assert(particles[particles.len() - 1].position == p);
        } else if fp != best_position {
            let i = choose|i: int| 0 <= i < front.len() && fp == (#[trigger] front[i]).position;
            assert(particles[i].position == p);
        }
    }
}

/// `trace` with `status` is the record of a simulation from `start` towards `end`,
/// whatever the draws were.
///
/// The trace holds the swarm's best position after each iteration, at most
/// `MAX_ITERATIONS` of them. It begins with the start, where all particles stand when
/// they are first evaluated. Every position of it is the start or the corner of an open
/// cell of the raster, and a particle can reach it from the start by position updates
/// with velocities within the bounds. None is farther from the end than the one before,
/// and only the
/// last may lie within `FITNESS_THRESHOLD_STOP` of the end. The status is `Success` where
/// it does, and `MaxIterationsExceeded` where it does not: after `MAX_ITERATIONS`
/// iterations, or earlier where the simulation is `limited` by a deadline. Only then can
/// the trace be empty.
pub open spec fn is_pso_trace(
    grid: Seq<PixelColor>,
    limited: bool,
    start: GridPosition,
    end: GridPosition,
    trace: Seq<GridPosition>,
    status: RouteStatus,
) -> bool {
    &&& trace.len() <= MAX_ITERATIONS
    &&& !limited ==> trace.len() >= 1
    &&& trace.len() > 0 ==> trace[0] == start
    &&& forall|i: int| 0 <= i < trace.len() ==> placed(grid, start, #[trigger] trace[i])
    &&& forall|i: int| 0 <= i < trace.len() ==> reachable(grid, start, #[trigger] trace[i])
    &&& forall|i: int, j: int|
        0 <= i <= j < trace.len() ==> grid_distance(#[trigger] trace[j], end) <= grid_distance(
            #[trigger] trace[i],
            end,
        )
    &&& forall|i: int|
        0 <= i < trace.len() - 1 ==> grid_distance(#[trigger] trace[i], end)
            > FITNESS_THRESHOLD_STOP
    &&& if trace.len() > 0 && grid_distance(trace.last(), end) <= FITNESS_THRESHOLD_STOP {
        status == RouteStatus::Success
    } else {
        status == RouteStatus::Partial(RouteError::MaxIterationsExceeded) && (limited
            || trace.len() == MAX_ITERATIONS)
    }
}

/// Where the start is out of reach of the end and every open cell is too, the simulation
/// runs out of iterations: the swarm's best fitness never reaches the threshold.
pub proof fn lemma_blocked_goal_never_converges(
    grid: Seq<PixelColor>,
    limited: bool,
    start: GridPosition,
    end: GridPosition,
    trace: Seq<GridPosition>,
    status: RouteStatus,
)
    requires
        is_pso_trace(grid, limited, start, end, trace, status),
        grid_distance(start, end) > FITNESS_THRESHOLD_STOP,
        forall|p: GridPosition| #[trigger]
            is_free_corner(grid, p) ==> grid_distance(p, end) > FITNESS_THRESHOLD_STOP,
    ensures
        status == RouteStatus::Partial(RouteError::MaxIterationsExceeded),
        !limited ==> trace.len() == MAX_ITERATIONS,
        forall|i: int|
            0 <= i < trace.len() ==> grid_distance(#[trigger] trace[i], end)
                > FITNESS_THRESHOLD_STOP,
{
    assert forall|i: int| 0 <= i < trace.len() implies grid_distance(#[trigger] trace[i], end)
        > FITNESS_THRESHOLD_STOP by {
        assert(placed(grid, start, trace[i]));
    }
    if trace.len() > 0 {
        assert(trace.last() == trace[trace.len() - 1]);
    }
}

/// Where the start lies in a region that no position update with a velocity within the
/// bounds leads out of, and every position of the region is out of reach of the end,
/// the swarm's best fitness never reaches the threshold: walls that no move can cross
/// keep the swarm from the end.
pub proof fn lemma_walled_goal_never_converges(
    grid: Seq<PixelColor>,
    limited: bool,
    start: GridPosition,
    end: GridPosition,
    trace: Seq<GridPosition>,
    status: RouteStatus,
    region: spec_fn(GridPosition) -> bool,
)
    requires
        is_pso_trace(grid, limited, start, end, trace, status),
        region(start),
        forall|q: GridPosition, v: Velocity2D|
            region(q) && velocity_in_bounds(v) ==> region(#[trigger] position_after(grid, q, v)),
        forall|p: GridPosition| #[trigger]
            region(p) ==> grid_distance(p, end) > FITNESS_THRESHOLD_STOP,
    ensures
        status == RouteStatus::Partial(RouteError::MaxIterationsExceeded),
        !limited ==> trace.len() == MAX_ITERATIONS,
        forall|i: int|
            0 <= i < trace.len() ==> grid_distance(#[trigger] trace[i], end)
                > FITNESS_THRESHOLD_STOP,
{
    assert forall|i: int| 0 <= i < trace.len() implies grid_distance(#[trigger] trace[i], end)
        > FITNESS_THRESHOLD_STOP by {
        assert(reachable(grid, start, trace[i]));
        let steps = choose|steps: nat| reachable_in(grid, start, trace[i], steps);
        lemma_reachable_stays_in_region(grid, start, trace[i], steps, region);
    }
    if trace.len() > 0 {
        assert(trace.last() == trace[trace.len() - 1]);
    }
}

/// The most nodes that the position of a particle on the graph holds.
pub const D_MAX_NODES: usize = 5000;

/// What a node sequence that stops short of the end is charged on top of its length.
pub const UNREACHED_PENALTY: u64 = 1_000_000_000_000_000;

/// A pull is followed where the coefficient times the random factor, both in
/// thousandths, comes to at least this much: to a half.
pub const PULL_THRESHOLD: i64 = 500_000;

/// An edit of a node sequence; the velocity of a particle on the graph is a list of them.
#[derive(Debug, Clone, Copy, PartialEq, Eq, Structural)]
pub enum MoveOperator {
    /// Keep the given number of nodes and drop the rest.
    Truncate(usize),
    /// Go on to the given node.
    Append(NodeId),
}

/// `nodes` is a way through the graph from `start`: it begins there, the graph knows
/// every node of it, and each node is a connection of the node before.
pub open spec fn is_node_walk(g: GraphView, start: NodeId, nodes: Seq<NodeId>) -> bool {
    &&& 1 <= nodes.len() <= D_MAX_NODES
    &&& nodes[0] == start
    &&& forall|i: int| 0 <= i < nodes.len() ==> g.nodes.contains_key(#[trigger] nodes[i])
    &&& forall|i: int|
        0 <= i < nodes.len() - 1 ==> g.adjacency(#[trigger] nodes[i]).contains(nodes[i + 1])
}

/// Whether an operator can be applied to a node sequence: a cut has to leave a node and
/// drop one, and a step has to follow a connection of the last node to a node that the
/// graph knows, from a sequence that has room and has not reached the end.
pub open spec fn admissible(g: GraphView, nodes: Seq<NodeId>, end: NodeId, op: MoveOperator)
    -> bool {
    match op {
        MoveOperator::Truncate(k) => 1 <= k < nodes.len(),
        MoveOperator::Append(n) => {
            &&& 1 <= nodes.len() < D_MAX_NODES
            &&& nodes.last() != end
            &&& g.nodes.contains_key(n)
            &&& g.adjacency(nodes.last()).contains(n)
        },
    }
}

/// A node sequence after an operator: unchanged where the operator cannot be applied.
pub open spec fn applied_one(g: GraphView, nodes: Seq<NodeId>, end: NodeId, op: MoveOperator)
    -> Seq<NodeId> {
    if admissible(g, nodes, end, op) {
        match op {
            MoveOperator::Truncate(k) => nodes.take(k as int),
            MoveOperator::Append(n) => nodes.push(n),
        }
    } else {
        nodes
    }
}

/// A node sequence after a list of operators, applied in order.
pub open spec fn applied(g: GraphView, nodes: Seq<NodeId>, end: NodeId, ops: Seq<MoveOperator>)
    -> Seq<NodeId>
    decreases ops.len(),
{
    if ops.len() == 0 {
        nodes
    } else {
        applied_one(g, applied(g, nodes, end, ops.drop_last()), end, ops.last())
    }
}

/// An operator leaves a way through the graph a way through the graph.
pub proof fn lemma_applied_one_walk(
    g: GraphView,
    start: NodeId,
    nodes: Seq<NodeId>,
    end: NodeId,
    op: MoveOperator,
)
    requires
        is_node_walk(g, start, nodes),
    ensures
        is_node_walk(g, start, applied_one(g, nodes, end, op)),
{
    let after = applied_one(g, nodes, end, op);
    if admissible(g, nodes, end, op) {
        match op {
            MoveOperator::Truncate(k) => {
                assert forall|i: int| 0 <= i < after.len() - 1 implies g.adjacency(
                    #[trigger] after[i],
                ).contains(after[i + 1]) by {
                    assert(after[i] == nodes[i] && after[i + 1] == nodes[i + 1]);
                }
            },
            MoveOperator::Append(n) => {
                assert forall|i: int| 0 <= i < after.len() - 1 implies g.adjacency(
                    #[trigger] after[i],
                ).contains(after[i + 1]) by {
                    if i < nodes.len() - 1 {
                        assert(after[i] == nodes[i] && after[i + 1] == nodes[i + 1]);
                    } else {
                        assert(after[i] == nodes.last());
                    }
                }
            },
        }
    }
}

/// A list of operators leaves a way through the graph a way through the graph.
pub proof fn lemma_applied_walk(
    g: GraphView,
    start: NodeId,
    nodes: Seq<NodeId>,
    end: NodeId,
    ops: Seq<MoveOperator>,
)
    requires
        is_node_walk(g, start, nodes),
    ensures
        is_node_walk(g, start, applied(g, nodes, end, ops)),
    decreases ops.len(),
{
    if ops.len() > 0 {
        lemma_applied_walk(g, start, nodes, end, ops.drop_last());
        lemma_applied_one_walk(g, start, applied(g, nodes, end, ops.drop_last()), end, ops.last());
    }
}

/// The length in millimetres of the way along a node sequence.
pub open spec fn walk_length(g: GraphView, nodes: Seq<NodeId>) -> nat
    decreases nodes.len(),
{
    if nodes.len() <= 1 {
        0
    } else {
        walk_length(g, nodes.drop_last()) + node_distance(
            g.nodes[nodes[nodes.len() - 2]],
            g.nodes[nodes.last()],
        )
    }
}

/// Whether the graph knows every node of the sequence.
pub open spec fn nodes_known(g: GraphView, nodes: Seq<NodeId>) -> bool {
    forall|i: int| 0 <= i < nodes.len() ==> g.nodes.contains_key(#[trigger] nodes[i])
}

/// The fitness of a node sequence, of which less is better: the length of its way, plus
/// `UNREACHED_PENALTY` and the distance that is left where it stops short of the end.
/// A sequence that is empty, too long or not on the graph has the worst fitness there is.
pub open spec fn sequence_fitness(g: GraphView, nodes: Seq<NodeId>, end: NodeId) -> nat {
    if nodes.len() == 0 || nodes.len() > D_MAX_NODES || !nodes_known(g, nodes)
        || !g.nodes.contains_key(end) {
        u64::MAX as nat
    } else if nodes.last() == end {
        walk_length(g, nodes)
    } else {
        walk_length(g, nodes) + UNREACHED_PENALTY as nat + node_distance(
            g.nodes[nodes.last()],
            g.nodes[end],
        )
    }
}

/// How many nodes two sequences have in common at their beginning.
pub open spec fn common_prefix(a: Seq<NodeId>, b: Seq<NodeId>) -> nat
    decreases a.len(),
{
    if a.len() == 0 || b.len() == 0 || a[0] != b[0] {
        0
    } else {
        1 + common_prefix(a.drop_first(), b.drop_first())
    }
}

/// The operators that take the sequence `x` one node closer to `target`: where the two
/// begin alike, a cut behind what they share and a step to the node of `target` that
/// follows, or the cut alone where `target` stops there.
pub open spec fn toward(x: Seq<NodeId>, target: Seq<NodeId>) -> Seq<MoveOperator> {
    let c = common_prefix(x, target);
    if c == 0 {
        Seq::empty()
    } else if target.len() > c {
        seq![MoveOperator::Truncate(c as usize), MoveOperator::Append(target[c as int])]
    } else if x.len() > c {
        seq![MoveOperator::Truncate(c as usize)]
    } else {
        Seq::empty()
    }
}

/// Whether a pull with the given coefficient is followed for the random factor `r`.
pub open spec fn pull_followed(coefficient: i64, r: i64) -> bool {
    coefficient * r >= PULL_THRESHOLD
}

/// The velocity of a particle on the graph for the random factors `r1` and `r2`: the
/// operators towards the swarm's best sequence where that pull is followed, then those
/// towards the particle's own best sequence where that pull is followed.
pub open spec fn next_operators(
    position: Seq<NodeId>,
    personal_best: Seq<NodeId>,
    global_best: Seq<NodeId>,
    r1: i64,
    r2: i64,
) -> Seq<MoveOperator> {
    (if pull_followed(C2_COEFF, r2) {
        toward(position, global_best)
    } else {
        Seq::empty()
    }) + (if pull_followed(C1_COEFF, r1) {
        toward(position, personal_best)
    } else {
        Seq::empty()
    })
}

/// Copies a list of nodes.
pub fn clone_nodes(nodes: &Vec<NodeId>) -> (r: Vec<NodeId>)
    ensures
        r@ == nodes@,
{
    nodes.clone()
}

/// Tests whether `to` is a connection of `from`.
pub fn is_neighbour(graph: &Graph, from: NodeId, to: NodeId) -> (r: bool)
    ensures
        r == graph@.adjacency(from).contains(to),
{
    match graph.neighbours(from) {
        None => false,
        Some(connections) => {
            let mut i: usize = 0;
            while i < connections.len()
                invariant
                    i <= connections.len(),
                    connections@ == graph@.adjacency(from),
                    forall|j: int| 0 <= j < i ==> connections@[j] != to,
                decreases connections.len() - i,
            {
                if connections[i] == to {
                    return true;
                }
                i += 1;
            }
            false
        },
    }
}

/// Applies one operator to a node sequence, if it can be applied.
pub fn apply_operator(graph: &Graph, position: &mut Vec<NodeId>, end: NodeId, op: MoveOperator)
    ensures
        final(position)@ == applied_one(graph@, old(position)@, end, op),
{
    match op {
        MoveOperator::Truncate(k) => {
            if 1 <= k && k < position.len() {
                position.truncate(k);
                assert(position@ =~= old(position)@.take(k as int));
            }
        },
        MoveOperator::Append(n) => {
            let count: usize = position.len();
            if count >= 1 && count < D_MAX_NODES {
                let last: NodeId = position[count - 1];
                if last != end && graph.find_node(n).is_some() && is_neighbour(graph, last, n) {
                    position.push(n);
                }
            }
        },
    }
}

/// Applies a list of operators to a node sequence, in order.
pub fn apply_operators(
    graph: &Graph,
    position: &mut Vec<NodeId>,
    end: NodeId,
    ops: &Vec<MoveOperator>,
)
    ensures
        final(position)@ == applied(graph@, old(position)@, end, ops@),
{
    let mut i: usize = 0;
    assert(ops@.take(0) =~= Seq::<MoveOperator>::empty());
    while i < ops.len()
        invariant
            i <= ops.len(),
            position@ == applied(graph@, old(position)@, end, ops@.take(i as int)),
        decreases ops.len() - i,
    {
        apply_operator(graph, position, end, ops[i]);
        proof {
            assert(ops@.take(i as int + 1).drop_last() =~= ops@.take(i as int));
            assert(ops@.take(i as int + 1).last() == ops@[i as int]);
        }
        i += 1;
    }
    assert(ops@.take(ops.len() as int) =~= ops@);
}

/// Counts the nodes that two sequences have in common at their beginning.
pub fn common_prefix_of(a: &Vec<NodeId>, b: &Vec<NodeId>) -> (c: usize)
    ensures
        c == common_prefix(a@, b@),
        c <= a.len(),
        c <= b.len(),
{
    let mut i: usize = 0;
    assert(a@.skip(0) =~= a@ && b@.skip(0) =~= b@);
    while i < a.len() && i < b.len() && a[i] == b[i]
        invariant
            i <= a.len(),
            i <= b.len(),
            common_prefix(a@, b@) == i + common_prefix(a@.skip(i as int), b@.skip(i as int)),
        decreases a.len() - i,
    {
        proof {
            assert(a@.skip(i as int).drop_first() =~= a@.skip(i as int + 1));
            assert(b@.skip(i as int).drop_first() =~= b@.skip(i as int + 1));
        }
        i += 1;
    }
    i
}

/// Computes the operators that take `x` one node closer to `target`.
pub fn toward_of(x: &Vec<NodeId>, target: &Vec<NodeId>) -> (ops: Vec<MoveOperator>)
    ensures
        ops@ == toward(x@, target@),
{
    let c: usize = common_prefix_of(x, target);
    let mut ops: Vec<MoveOperator> = Vec::new();
    if c == 0 {
    } else if target.len() > c {
        ops.push(MoveOperator::Truncate(c));
        ops.push(MoveOperator::Append(target[c]));
    } else if x.len() > c {
        ops.push(MoveOperator::Truncate(c));
    }
    assert(ops@ =~= toward(x@, target@));
    ops
}

/// Computes the velocity of a particle on the graph from the random factors that were
/// drawn.
pub fn next_operators_of(
    position: &Vec<NodeId>,
    personal_best: &Vec<NodeId>,
    global_best: &Vec<NodeId>,
    r1: i64,
    r2: i64,
) -> (ops: Vec<MoveOperator>)
    ensures
        ops@ == next_operators(position@, personal_best@, global_best@, r1, r2),
{
    let own_pull: i128 = C1_COEFF as i128;
    let common_pull: i128 = C2_COEFF as i128;
    assert(own_pull == 900 && common_pull == 1250);
    let mut ops: Vec<MoveOperator> = Vec::new();
    if common_pull * (r2 as i128) >= PULL_THRESHOLD as i128 {
        let mut social = toward_of(position, global_best);
        ops.append(&mut social);
    }
    if own_pull * (r1 as i128) >= PULL_THRESHOLD as i128 {
        let mut own = toward_of(position, personal_best);
        ops.append(&mut own);
    }
    assert(ops@ =~= next_operators(position@, personal_best@, global_best@, r1, r2));
    ops
}

/// Computes the fitness of a node sequence.
pub fn sequence_fitness_of(graph: &Graph, nodes: &Vec<NodeId>, end: NodeId) -> (r: u64)
    ensures
        r == sequence_fitness(graph@, nodes@, end),
{
    let ghost g = graph@;
    assert(D_MAX_NODES == 5000 && UNREACHED_PENALTY == 1_000_000_000_000_000 && DISTANCE_LIMIT
        == 0x20_0000_0000);
    if nodes.len() == 0 || nodes.len() > D_MAX_NODES {
        return u64::MAX;
    }
    let end_node = match graph.find_node(end) {
        None => {
            return u64::MAX;
        },
        Some(n) => n,
    };
    let mut previous = match graph.find_node(nodes[0]) {
        None => {
            return u64::MAX;
        },
        Some(n) => n,
    };
    let mut length: u64 = 0;
    let mut i: usize = 1;
    assert(nodes@.take(1).len() == 1);
    while i < nodes.len()
        invariant
            g == graph@,
            1 <= i <= nodes.len(),
            nodes.len() <= 5000,
            DISTANCE_LIMIT == 0x20_0000_0000,
            nodes_known(g, nodes@.take(i as int)),
            previous == g.nodes[nodes@[i - 1]],
            length == walk_length(g, nodes@.take(i as int)),
            length <= (i - 1) * DISTANCE_LIMIT,
        decreases nodes.len() - i,
    {
        let node = match graph.find_node(nodes[i]) {
            None => {
                return u64::MAX;
            },
            Some(n) => n,
        };
        let hop: u64 = Edge::length(&previous, &node);
        proof {
            let longer = nodes@.take(i as int + 1);
            assert(longer.drop_last() =~= nodes@.take(i as int));
            assert(longer[longer.len() - 2] == nodes@[i - 1]);
            assert(longer.last() == nodes@[i as int]);
            assert forall|j: int| 0 <= j < longer.len() implies g.nodes.contains_key(
                #[trigger] longer[j],
            ) by {
                if j < i {
                    assert(nodes@.take(i as int)[j] == longer[j]);
                }
            }
            assert(length + hop <= i * DISTANCE_LIMIT) by (nonlinear_arith)
                requires
                    length <= (i - 1) * DISTANCE_LIMIT,
                    hop < DISTANCE_LIMIT,
            ;
            assert(i * DISTANCE_LIMIT <= 5000 * 0x20_0000_0000) by (nonlinear_arith)
                requires
                    i <= 5000,
                    DISTANCE_LIMIT == 0x20_0000_0000,
            ;
        }
        length = length + hop;
        previous = node;
        i += 1;
    }
    assert(nodes@.take(nodes.len() as int) =~= nodes@);
    assert(length <= 5000 * 0x20_0000_0000) by (nonlinear_arith)
        requires
            length <= (i - 1) * DISTANCE_LIMIT,
            i <= 5000,
            DISTANCE_LIMIT == 0x20_0000_0000,
    ;
    if nodes[nodes.len() - 1] == end {
        length
    } else {
        let rest: u64 = Edge::length(&previous, &end_node);
        length + UNREACHED_PENALTY + rest
    }
}

/// A member of the swarm on the graph.
pub struct DParticle {
    /// The node sequence that the particle stands for.
    pub position: Vec<NodeId>,
    /// The operators that the next position update applies.
    pub velocity: Vec<MoveOperator>,
    /// The lowest fitness that the particle has had.
    pub personal_best: u64,
    /// The sequence with which it had that fitness.
    pub personal_best_position: Vec<NodeId>,
}

/// The state of a simulation on the graph.
pub struct DSimulation {
    pub iteration_number: i32,
    pub route_details: RouteDetails,
    pub particles: Vec<DParticle>,
    /// The lowest fitness that any particle has had.
    pub global_best: u64,
    /// The sequence with which a particle had that fitness.
    pub global_best_position: Vec<NodeId>,
    /// The fitness of the particle that was evaluated last.
    pub last_fitness_value: u64,
}

/// The way along a node sequence on the graph is shorter than `UNREACHED_PENALTY`, so
/// the fitness of the sequence is below the worst there is.
pub proof fn lemma_walk_fitness_bound(g: GraphView, start: NodeId, nodes: Seq<NodeId>, end: NodeId)
    requires
        is_node_walk(g, start, nodes),
        g.nodes.contains_key(end),
    ensures
        walk_length(g, nodes) <= (nodes.len() - 1) * DISTANCE_LIMIT,
        walk_length(g, nodes) < UNREACHED_PENALTY,
        sequence_fitness(g, nodes, end) < u64::MAX,
        nodes.last() == end <==> sequence_fitness(g, nodes, end) < UNREACHED_PENALTY,
    decreases nodes.len(),
{
    assert(D_MAX_NODES == 5000 && UNREACHED_PENALTY == 1_000_000_000_000_000 && DISTANCE_LIMIT
        == 0x20_0000_0000);
    if nodes.len() > 1 {
        let front = nodes.drop_last();
        assert(is_node_walk(g, start, front)) by {
            assert forall|i: int| 0 <= i < front.len() - 1 implies g.adjacency(
                #[trigger] front[i],
            ).contains(front[i + 1]) by {
                assert(front[i] == nodes[i] && front[i + 1] == nodes[i + 1]);
            }
            assert forall|i: int| 0 <= i < front.len() implies g.nodes.contains_key(
                #[trigger] front[i],
            ) by {
                assert(front[i] == nodes[i]);
            }
        }
        lemma_walk_fitness_bound(g, start, front, end);
        let a = g.nodes[nodes[nodes.len() - 2]];
        let b = g.nodes[nodes.last()];
        lemma_flat_distance_bound(a.lat, a.lon, b.lat, b.lon);
        assert(walk_length(g, nodes) <= (nodes.len() - 1) * DISTANCE_LIMIT) by (nonlinear_arith)
            requires
                walk_length(g, nodes) == walk_length(g, front) + node_distance(a, b),
                walk_length(g, front) <= (front.len() - 1) * DISTANCE_LIMIT,
                node_distance(a, b) < DISTANCE_LIMIT,
                front.len() == nodes.len() - 1,
        ;
    }
    assert((nodes.len() - 1) * DISTANCE_LIMIT <= 5000 * 0x20_0000_0000) by (nonlinear_arith)
        requires
            1 <= nodes.len() <= 5000,
            DISTANCE_LIMIT == 0x20_0000_0000,
    ;
    let last = g.nodes[nodes.last()];
    let goal = g.nodes[end];
    lemma_flat_distance_bound(last.lat, last.lon, goal.lat, goal.lon);
}

/// The best fitness and its sequence after the positions are evaluated in order against
/// the best so far; of equal fitnesses the earlier one stays.
pub open spec fn sequence_best(
    g: GraphView,
    positions: Seq<Seq<NodeId>>,
    end: NodeId,
    best: u64,
    best_position: Seq<NodeId>,
) -> (u64, Seq<NodeId>)
    decreases positions.len(),
{
    if positions.len() == 0 {
        (best, best_position)
    } else {
        let (b, p) = sequence_best(g, positions.drop_last(), end, best, best_position);
        let fitness = sequence_fitness(g, positions.last(), end);
        if fitness < b {
            (fitness as u64, positions.last())
        } else {
            (b, p)
        }
    }
}

/// The node sequences of the particles.
pub open spec fn positions_of(particles: Seq<DParticle>) -> Seq<Seq<NodeId>> {
    Seq::new(particles.len(), |i: int| particles[i].position@)
}

/// Evaluating ways through the graph leaves a best fitness that is held by a way through
/// the graph.
pub proof fn lemma_sequence_best(
    g: GraphView,
    start: NodeId,
    positions: Seq<Seq<NodeId>>,
    end: NodeId,
    best: u64,
    best_position: Seq<NodeId>,
)
    requires
        g.nodes.contains_key(end),
        forall|i: int| 0 <= i < positions.len() ==> is_node_walk(g, start, #[trigger] positions[i]),
        best == u64::MAX || (is_node_walk(g, start, best_position) && best == sequence_fitness(
            g,
            best_position,
            end,
        )),
    ensures
        ({
            let (b, p) = sequence_best(g, positions, end, best, best_position);
            &&& b <= best
            &&& b == u64::MAX || (is_node_walk(g, start, p) && b == sequence_fitness(g, p, end))
            &&& positions.len() > 0 ==> b < u64::MAX
        }),
    decreases positions.len(),
{
    if positions.len() > 0 {
        let front = positions.drop_last();
        assert forall|i: int| 0 <= i < front.len() implies is_node_walk(
            g,
            start,
            #[trigger] front[i],
        ) by {
            assert(front[i] == positions[i]);
        }
        lemma_sequence_best(g, start, front, end, best, best_position);
        assert(is_node_walk(g, start, positions[positions.len() - 1]));
        lemma_walk_fitness_bound(g, start, positions.last(), end);
    }
}

/// The random factors `r1` and `r2` give the velocity `after`.
pub open spec fn operators_updated(
    position: Seq<NodeId>,
    personal_best: Seq<NodeId>,
    global_best: Seq<NodeId>,
    after: Seq<MoveOperator>,
) -> bool {
    exists|r1: i64, r2: i64|
        0 <= r1 <= RANDOM_UNITS && 0 <= r2 <= RANDOM_UNITS && after == #[trigger] next_operators(
            position,
            personal_best,
            global_best,
            r1,
            r2,
        )
}

/// The operator that a draw among the connections of the last node decides on: a step
/// along connection `drawn` where there is such a connection, and otherwise the cut that
/// takes the last of the `count` nodes back.
pub open spec fn drawn_operator(connections: Seq<NodeId>, count: nat, drawn: int) -> MoveOperator {
    if 0 <= drawn < connections.len() {
        MoveOperator::Append(connections[drawn])
    } else if count == 0 {
        MoveOperator::Truncate(0)
    } else {
        MoveOperator::Truncate((count - 1) as usize)
    }
}

/// The sequence `after` comes from `before` by the operators of `velocity` and then one
/// random move: a step along a connection of the last node or the cut of the last node.
pub open spec fn sequence_moved(
    g: GraphView,
    end: NodeId,
    before: Seq<NodeId>,
    velocity: Seq<MoveOperator>,
    after: Seq<NodeId>,
) -> bool {
    let halfway = applied(g, before, end, velocity);
    let connections = g.adjacency(halfway.last());
    exists|drawn: int|
        0 <= drawn <= connections.len() && after == applied_one(
            g,
            halfway,
            end,
            #[trigger] drawn_operator(connections, halfway.len(), drawn),
        )
}

/// Computes the operator that a draw decides on for a sequence of `count` nodes whose
/// last node has the given connections.
pub fn operator_for(connections: &Vec<NodeId>, count: usize, drawn: i64) -> (op: MoveOperator)
    ensures
        op == drawn_operator(connections@, count as nat, drawn as int),
{
    if drawn >= 0 && (drawn as u64) < (connections.len() as u64) {
        MoveOperator::Append(connections[drawn as usize])
    } else if count == 0 {
        MoveOperator::Truncate(0)
    } else {
        MoveOperator::Truncate(count - 1)
    }
}

/// Draws an operator for a random move from the end of a node sequence: a number from
/// nothing to the number of connections of the last node is drawn, and `operator_for`
/// turns it into a step along one of the connections or into the cut that takes the
/// last node back.
pub fn random_operator(graph: &Graph, position: &Vec<NodeId>, rng: &mut StdRng) -> (op:
    MoveOperator)
    ensures
        exists|drawn: int|
            0 <= drawn <= graph@.adjacency(position@.last()).len() && op
                == #[trigger] drawn_operator(
                graph@.adjacency(position@.last()),
                position@.len(),
                drawn,
            ),
{
    let count: usize = position.len();
    let ghost connections_of_last = graph@.adjacency(position@.last());
    if count == 0 {
        assert(MoveOperator::Truncate(0) == drawn_operator(
            connections_of_last,
            0,
            connections_of_last.len() as int,
        ));
        return MoveOperator::Truncate(0);
    }
    match graph.neighbours(position[count - 1]) {
        None => {
            assert(MoveOperator::Truncate((count - 1) as usize) == drawn_operator(
                connections_of_last,
                count as nat,
                0,
            ));
            MoveOperator::Truncate(count - 1)
        },
        Some(connections) => {
            let top: i64 = if connections.len() > 0x7fff_ffff {
                0x7fff_ffff
            } else {
                connections.len() as i64
            };
            let drawn: i64 = sample_uniform_inclusive(rng, 0, top);
            let op = operator_for(connections, count, drawn);
            assert(op == drawn_operator(connections_of_last, count as nat, drawn as int));
            op
        },
    }
}

impl DParticle {
    /// A particle that stands at `start` and has not moved or been evaluated yet.
    pub fn new(start: NodeId) -> (p: DParticle)
        ensures
            p.position@ == seq![start],
            p.velocity@.len() == 0,
            p.personal_best == u64::MAX,
            p.personal_best_position@.len() == 0,
    {
        let mut position: Vec<NodeId> = Vec::new();
        position.push(start);
        DParticle {
            position,
            velocity: Vec::new(),
            personal_best: u64::MAX,
            personal_best_position: Vec::new(),
        }
    }

    /// Holds the fitness of the particle's sequence against its personal best and
    /// returns it.
    pub fn evaluate(&mut self, graph: &Graph, end: NodeId) -> (fitness: u64)
        ensures
            fitness == sequence_fitness(graph@, old(self).position@, end),
            final(self).position == old(self).position,
            final(self).velocity == old(self).velocity,
            final(self).personal_best == (if fitness < old(self).personal_best {
                fitness
            } else {
                old(self).personal_best
            }),
            final(self).personal_best_position@ == (if fitness < old(self).personal_best {
                old(self).position@
            } else {
                old(self).personal_best_position@
            }),
    {
        let fitness: u64 = sequence_fitness_of(graph, &self.position, end);
        if fitness < self.personal_best {
            self.personal_best = fitness;
            self.personal_best_position = clone_nodes(&self.position);
        }
        fitness
    }

    /// Moves the particle: the operators of its velocity are applied in order, and then
    /// one random move is made, a step along a connection of the last node or the cut of
    /// the last node. An operator that cannot be applied changes nothing, so every move
    /// goes along a connection of the graph.
    pub fn update_position(&mut self, graph: &Graph, end: NodeId, rng: &mut StdRng)
        ensures
            sequence_moved(
                graph@,
                end,
                old(self).position@,
                old(self).velocity@,
                final(self).position@,
            ),
            final(self).velocity == old(self).velocity,
            final(self).personal_best == old(self).personal_best,
            final(self).personal_best_position == old(self).personal_best_position,
    {
        apply_operators(graph, &mut self.position, end, &self.velocity);
        let op = random_operator(graph, &self.position, rng);
        let ghost halfway = self.position@;
        apply_operator(graph, &mut self.position, end, op);
        proof {
            let connections = graph@.adjacency(halfway.last());
            let drawn = choose|drawn: int|
                0 <= drawn <= connections.len() && op == #[trigger] drawn_operator(
                    connections,
                    halfway.len(),
                    drawn,
                );
            assert(self.position@ == applied_one(
                graph@,
                halfway,
                end,
                drawn_operator(connections, halfway.len(), drawn),
            ));
        }
    }

    /// Sets the velocity for the next move: the operators towards the swarm's best
    /// sequence and towards the particle's own, each followed or not as two random
    /// factors decide.
    pub fn update_velocity(&mut self, global_best: &Vec<NodeId>, rng: &mut StdRng)
        ensures
            operators_updated(
                old(self).position@,
                old(self).personal_best_position@,
                global_best@,
                final(self).velocity@,
            ),
            final(self).position == old(self).position,
            final(self).personal_best == old(self).personal_best,
            final(self).personal_best_position == old(self).personal_best_position,
    {
        let r1: i64 = sample_uniform_inclusive(rng, 0, RANDOM_UNITS);
        let r2: i64 = sample_uniform_inclusive(rng, 0, RANDOM_UNITS);
        self.velocity =
        next_operators_of(&self.position, &self.personal_best_position, global_best, r1, r2);
    }
}

impl DSimulation {
    pub fn new(route_details: RouteDetails) -> (s: DSimulation)
        ensures
            s.iteration_number == 0,
            s.route_details == route_details,
            s.particles@.len() == 0,
            s.global_best == u64::MAX,
            s.global_best_position@.len() == 0,
            s.last_fitness_value == u64::MAX,
    {
        DSimulation {
            iteration_number: 0,
            route_details,
            particles: Vec::new(),
            global_best: u64::MAX,
            global_best_position: Vec::new(),
            last_fitness_value: u64::MAX,
        }
    }

    /// Counts one more iteration; the count stops at the largest number it can hold.
    pub fn increase_iteration_count(&mut self)
        ensures
            final(self).iteration_number == (if old(self).iteration_number == i32::MAX {
                i32::MAX
            } else {
                (old(self).iteration_number + 1) as i32
            }),
            final(self).route_details == old(self).route_details,
            final(self).particles == old(self).particles,
            final(self).global_best == old(self).global_best,
            final(self).global_best_position == old(self).global_best_position,
            final(self).last_fitness_value == old(self).last_fitness_value,
    {
        if self.iteration_number < i32::MAX {
            self.iteration_number = self.iteration_number + 1;
        }
    }

    /// Replaces the swarm by `PARTICLES_COUNT` particles that stand at the start.
    pub fn init_particles(&mut self)
        ensures
            final(self).particles.len() == PARTICLES_COUNT,
            forall|i: int|
                0 <= i < final(self).particles.len() ==> {
                    let p = #[trigger] final(self).particles[i];
                    &&& p.position@ == seq![old(self).route_details.starting_node]
                    &&& p.velocity@.len() == 0
                    &&& p.personal_best == u64::MAX
                    &&& p.personal_best_position@.len() == 0
                },
            final(self).iteration_number == old(self).iteration_number,
            final(self).route_details == old(self).route_details,
            final(self).global_best == old(self).global_best,
            final(self).global_best_position == old(self).global_best_position,
            final(self).last_fitness_value == old(self).last_fitness_value,
    {
        let start: NodeId = self.route_details.starting_node;
        let mut particles: Vec<DParticle> = Vec::new();
        let mut added: u32 = 0;
        while added < PARTICLES_COUNT
            invariant
                added <= PARTICLES_COUNT,
                particles.len() == added,
                forall|i: int|
                    0 <= i < particles.len() ==> {
                        let p = #[trigger] particles[i];
                        &&& p.position@ == seq![start]
                        &&& p.velocity@.len() == 0
                        &&& p.personal_best == u64::MAX
                        &&& p.personal_best_position@.len() == 0
                    },
            decreases PARTICLES_COUNT - added,
        {
            particles.push(DParticle::new(start));
            added += 1;
        }
        self.particles = particles;
    }

    /// Runs one iteration: first every particle is evaluated and the best sequences are
    /// brought up to date, then every particle moves and sets its velocity towards its
    /// own best sequence and the swarm's.
    pub fn swarm_update(&mut self, graph: &Graph, rng: &mut StdRng)
        ensures
            final(self).particles.len() == old(self).particles.len(),
            (final(self).global_best, final(self).global_best_position@) == sequence_best(
                graph@,
                positions_of(old(self).particles@),
                old(self).route_details.ending_node,
                old(self).global_best,
                old(self).global_best_position@,
            ),
            forall|i: int|
                0 <= i < old(self).particles.len() ==> {
                    let before = old(self).particles[i];
                    let after = #[trigger] final(self).particles[i];
                    let fitness = sequence_fitness(
                        graph@,
                        before.position@,
                        old(self).route_details.ending_node,
                    );
                    &&& after.personal_best == (if fitness < before.personal_best {
                        fitness as u64
                    } else {
                        before.personal_best
                    })
                    &&& after.personal_best_position@ == (if fitness < before.personal_best {
                        before.position@
                    } else {
                        before.personal_best_position@
                    })
                    &&& sequence_moved(
                        graph@,
                        old(self).route_details.ending_node,
                        before.position@,
                        before.velocity@,
                        after.position@,
                    )
                    &&& operators_updated(
                        after.position@,
                        after.personal_best_position@,
                        final(self).global_best_position@,
                        after.velocity@,
                    )
                },
            final(self).last_fitness_value == (if old(self).particles.len() == 0 {
                old(self).last_fitness_value
            } else {
                sequence_fitness(
                    graph@,
                    old(self).particles@.last().position@,
                    old(self).route_details.ending_node,
                ) as u64
            }),
            final(self).iteration_number == old(self).iteration_number,
            final(self).route_details == old(self).route_details,
    {
        let ghost g = graph@;
        let end: NodeId = self.route_details.ending_node;
        let count: usize = self.particles.len();
        let ghost before = self.particles@;
        let ghost positions = positions_of(before);
        let mut i: usize = 0;
        assert(positions.take(0) =~= Seq::<Seq<NodeId>>::empty());
        while i < count
            invariant
                g == graph@,
                i <= count,
                count == before.len(),
                before == old(self).particles@,
                positions == positions_of(before),
                end == old(self).route_details.ending_node,
                self.particles.len() == count,
                self.iteration_number == old(self).iteration_number,
                self.route_details == old(self).route_details,
                (self.global_best, self.global_best_position@) == sequence_best(
                    g,
                    positions.take(i as int),
                    end,
                    old(self).global_best,
                    old(self).global_best_position@,
                ),
                forall|j: int|
                    0 <= j < i ==> {
                        let b = before[j];
                        let a = #[trigger] self.particles[j];
                        let fitness = sequence_fitness(g, b.position@, end);
                        &&& a.position == b.position
                        &&& a.velocity == b.velocity
                        &&& a.personal_best == (if fitness < b.personal_best {
                            fitness as u64
                        } else {
                            b.personal_best
                        })
                        &&& a.personal_best_position@ == (if fitness < b.personal_best {
                            b.position@
                        } else {
                            b.personal_best_position@
                        })
                    },
                forall|j: int| i <= j < count ==> #[trigger] self.particles[j] == before[j],
                self.last_fitness_value == (if i == 0 {
                    old(self).last_fitness_value
                } else {
                    sequence_fitness(g, before[i - 1].position@, end) as u64
                }),
            decreases count - i,
        {
            let ghost particles_before = self.particles@;
            let fitness: u64 = self.particles[i].evaluate(graph, end);
            proof {
                assert forall|j: int| 0 <= j < count && j != i implies #[trigger] self.particles[j]
                    == particles_before[j] by {}
            }
            self.last_fitness_value = fitness;
            if fitness < self.global_best {
                self.global_best = fitness;
                self.global_best_position = clone_nodes(&self.particles[i].position);
            }
            proof {
                assert(positions.take(i as int + 1).drop_last() =~= positions.take(i as int));
                assert(positions.take(i as int + 1).last() == before[i as int].position@);
            }
            i += 1;
        }
        assert(positions.take(count as int) =~= positions);
        let global_best_position: Vec<NodeId> = clone_nodes(&self.global_best_position);
        let mut k: usize = 0;
        while k < count
            invariant
                g == graph@,
                k <= count,
                count == before.len(),
                before == old(self).particles@,
                positions == positions_of(before),
                end == old(self).route_details.ending_node,
                self.particles.len() == count,
                self.iteration_number == old(self).iteration_number,
                self.route_details == old(self).route_details,
                global_best_position@ == self.global_best_position@,
                (self.global_best, self.global_best_position@) == sequence_best(
                    g,
                    positions,
                    end,
                    old(self).global_best,
                    old(self).global_best_position@,
                ),
                self.last_fitness_value == (if count == 0 {
                    old(self).last_fitness_value
                } else {
                    sequence_fitness(g, before.last().position@, end) as u64
                }),
                forall|j: int|
                    k <= j < count ==> {
                        let b = before[j];
                        let a = #[trigger] self.particles[j];
                        let fitness = sequence_fitness(g, b.position@, end);
                        &&& a.position == b.position
                        &&& a.velocity == b.velocity
                        &&& a.personal_best == (if fitness < b.personal_best {
                            fitness as u64
                        } else {
                            b.personal_best
                        })
                        &&& a.personal_best_position@ == (if fitness < b.personal_best {
                            b.position@
                        } else {
                            b.personal_best_position@
                        })
                    },
                forall|j: int|
                    0 <= j < k ==> {
                        let b = before[j];
                        let a = #[trigger] self.particles[j];
                        let fitness = sequence_fitness(g, b.position@, end);
                        &&& a.personal_best == (if fitness < b.personal_best {
                            fitness as u64
                        } else {
                            b.personal_best
                        })
                        &&& a.personal_best_position@ == (if fitness < b.personal_best {
                            b.position@
                        } else {
                            b.personal_best_position@
                        })
                        &&& sequence_moved(g, end, b.position@, b.velocity@, a.position@)
                        &&& operators_updated(
                            a.position@,
                            a.personal_best_position@,
                            global_best_position@,
                            a.velocity@,
                        )
                    },
            decreases count - k,
        {
            let ghost particles_before = self.particles@;
            self.particles[k].update_position(graph, end, rng);
            self.particles[k].update_velocity(&global_best_position, rng);
            proof {
                assert forall|j: int| 0 <= j < count && j != k implies #[trigger] self.particles[j]
                    == particles_before[j] by {}
            }
            k += 1;
        }
    }
}

/// Lays the edges along a node sequence: edge `i` runs from node `i` to the node after
/// it. The route stops before the first edge that cannot be created.
pub fn route_from_nodes(graph: &Graph, nodes: &Vec<NodeId>) -> (route: Vec<Edge>)
    ensures
        route.len() + 1 <= nodes.len() || route.len() == 0,
        forall|i: int|
            0 <= i < route.len() ==> created_edge(graph@, nodes[i], nodes[i + 1]) == Ok::<
                Edge,
                RouteError,
            >(#[trigger] route[i]),
        route.len() + 1 < nodes.len() ==> created_edge(
            graph@,
            nodes[route.len() as int],
            nodes[route.len() + 1],
        ) is Err,
        forall|start: NodeId| #[trigger]
            is_node_walk(graph@, start, nodes@) ==> {
                &&& is_walk(graph@, start, route@)
                &&& route.len() + 1 == nodes.len()
                &&& walk_end(start, route@) == nodes@.last()
            },
{
    let ghost g = graph@;
    let mut route: Vec<Edge> = Vec::new();
    if nodes.len() == 0 {
        return route;
    }
    let mut i: usize = 0;
    while i + 1 < nodes.len()
        invariant
            g == graph@,
            i < nodes.len(),
            route.len() == i,
            forall|k: int|
                0 <= k < route.len() ==> created_edge(g, nodes[k], nodes[k + 1]) == Ok::<
                    Edge,
                    RouteError,
                >(#[trigger] route[k]),
            forall|start: NodeId| #[trigger]
                is_node_walk(g, start, nodes@) ==> {
                    &&& is_walk(g, start, route@)
                    &&& walk_end(start, route@) == nodes@[i as int]
                },
        ensures
            route.len() + 1 <= nodes.len(),
            forall|k: int|
                0 <= k < route.len() ==> created_edge(g, nodes[k], nodes[k + 1]) == Ok::<
                    Edge,
                    RouteError,
                >(#[trigger] route[k]),
            route.len() + 1 < nodes.len() ==> created_edge(
                g,
                nodes[route.len() as int],
                nodes[route.len() + 1],
            ) is Err,
            forall|start: NodeId| #[trigger]
                is_node_walk(g, start, nodes@) ==> {
                    &&& is_walk(g, start, route@)
                    &&& route.len() + 1 == nodes.len()
                    &&& walk_end(start, route@) == nodes@.last()
                },
        decreases nodes.len() - i,
    {
        let edge = match Edge::create(graph, nodes[i], nodes[i + 1]) {
            Ok(e) => e,
            Err(_) => {
                proof {
                    assert forall|start: NodeId| #[trigger]
                        is_node_walk(g, start, nodes@) implies false by {
                        assert(g.nodes.contains_key(nodes@[i as int]));
                        assert(g.nodes.contains_key(nodes@[i as int + 1]));
                    }
                }
                break ;
            },
        };
        proof {
            assert forall|start: NodeId| #[trigger] is_node_walk(g, start, nodes@) implies {
                &&& is_walk(g, start, route@.push(edge))
                &&& walk_end(start, route@.push(edge)) == nodes@[i as int + 1]
            } by {
                assert(g.adjacency(nodes@[i as int]).contains(nodes@[i as int + 1]));
                lemma_walk_push(g, start, route@, edge);
            }
        }
        route.push(edge);
        i += 1;
    }
    route
}

/// `route` with `status` is a result of the swarm's search on the graph from `start`
/// towards `end`, whatever the draws were.
///
/// Where the graph lacks `start` or `end` the search fails on the first of them that is
/// missing. Where `start` is `end` it succeeds with no edge. Otherwise the route is a
/// walk through the graph of fewer than `D_MAX_NODES` edges, and the status is
/// `Success` where the route stops at the end and `NoPathFound`
/// where it does not, or `MaxIterationsExceeded` where a search that is `limited` by a
/// deadline was cut off.
pub open spec fn is_pso_route(
    g: GraphView,
    limited: bool,
    start: NodeId,
    end: NodeId,
    route: Seq<Edge>,
    status: RouteStatus,
) -> bool {
    if !g.nodes.contains_key(start) {
        route.len() == 0 && status == RouteStatus::Failed(RouteError::UnknownNode(start))
    } else if !g.nodes.contains_key(end) {
        route.len() == 0 && status == RouteStatus::Failed(RouteError::UnknownNode(end))
    } else {
        &&& is_walk(g, start, route)
        &&& route.len() < D_MAX_NODES
        &&& start == end ==> route.len() == 0
        &&& if walk_end(start, route) == end {
            status == RouteStatus::Success
        } else {
            status == RouteStatus::Partial(RouteError::NoPathFound) || (limited && status
                == RouteStatus::Partial(RouteError::MaxIterationsExceeded))
        }
    }
}

impl RouteGenerator for RouteGeneratorPSO {
    open spec fn raster_mode() -> bool {
        true
    }

    fn real_mode_supported() -> (r: bool) {
        true
    }

    /// Lets a swarm of `PARTICLES_COUNT` particles drift from the starting position
    /// towards the ending position and records the swarm's best position after each
    /// iteration. Before each iteration the deadline is looked at.
    fn generate_route_real_num(
        route_details: &WxRouteDetails,
        grid: &Vec<PixelColor>,
        rng: &mut StdRng,
        deadline: &Deadline,
    ) -> (result: PixRoute)
        ensures
            is_pso_trace(
                grid@,
                deadline.limited(),
                route_details.starting_position,
                route_details.ending_position,
                result.0@,
                result.1,
            ),
    {
        let start: GridPosition = route_details.starting_position;
        let end: GridPosition = route_details.ending_position;
        let mut trace: Vec<GridPosition> = Vec::new();
        let mut simulation = Simulation::new(*route_details);
        assert(PARTICLES_COUNT == 100 && MAX_ITERATIONS == 500 && FITNESS_THRESHOLD_STOP == 1150);
        simulation.init_particles(Some(start), rng);
        assert(reachable_in(grid@, start, start, 0));
        let mut iter_id: u32 = 0;
        while iter_id < MAX_ITERATIONS
            invariant
                iter_id <= MAX_ITERATIONS,
                reachable(grid@, start, start),
                forall|i: int|
                    0 <= i < simulation.particles.len() ==> reachable(
                        grid@,
                        start,
                        (#[trigger] simulation.particles[i]).position,
                    ) && velocity_in_bounds(simulation.particles[i].velocity),
                forall|i: int|
                    0 <= i < trace.len() ==> reachable(grid@, start, #[trigger] trace@[i]),
                MAX_ITERATIONS == 500,
                FITNESS_THRESHOLD_STOP == 1150,
                start == route_details.starting_position,
                end == route_details.ending_position,
                simulation.route_details.ending_position == end,
                simulation.particles.len() == PARTICLES_COUNT,
                PARTICLES_COUNT == 100,
                trace.len() == iter_id,
                forall|i: int|
                    0 <= i < simulation.particles.len() ==> placed(
                        grid@,
                        start,
                        (#[trigger] simulation.particles[i]).position,
                    ),
                iter_id == 0 ==> simulation.global_best == u64::MAX && forall|i: int|
                    0 <= i < simulation.particles.len() ==> (
                    #[trigger] simulation.particles[i]).position == start,
                iter_id > 0 ==> simulation.global_best == grid_distance(trace@.last(), end)
                    && simulation.global_best_position == trace@.last(),
                trace.len() > 0 ==> trace@[0] == start,
                forall|i: int| 0 <= i < trace.len() ==> placed(grid@, start, #[trigger] trace@[i]),
                forall|i: int, j: int|
                    0 <= i <= j < trace.len() ==> grid_distance(#[trigger] trace@[j], end)
                        <= grid_distance(#[trigger] trace@[i], end),
                forall|i: int|
                    0 <= i < trace.len() - 1 ==> grid_distance(#[trigger] trace@[i], end)
                        > FITNESS_THRESHOLD_STOP,
            ensures
                trace.len() <= MAX_ITERATIONS,
                !deadline.limited() ==> trace.len() >= 1,
                trace.len() == 0 ==> simulation.global_best == u64::MAX,
                trace.len() > 0 ==> simulation.global_best == grid_distance(trace@.last(), end),
                simulation.global_best > FITNESS_THRESHOLD_STOP ==> deadline.limited()
                    || trace.len() == MAX_ITERATIONS,
                trace.len() > 0 ==> trace@[0] == start,
                forall|i: int| 0 <= i < trace.len() ==> placed(grid@, start, #[trigger] trace@[i]),
                forall|i: int|
                    0 <= i < trace.len() ==> reachable(grid@, start, #[trigger] trace@[i]),
                forall|i: int, j: int|
                    0 <= i <= j < trace.len() ==> grid_distance(#[trigger] trace@[j], end)
                        <= grid_distance(#[trigger] trace@[i], end),
                forall|i: int|
                    0 <= i < trace.len() - 1 ==> grid_distance(#[trigger] trace@[i], end)
                        > FITNESS_THRESHOLD_STOP,
            decreases MAX_ITERATIONS - iter_id,
        {
            if FITNESS_THRESHOLD_STOP >= simulation.global_best || deadline.passed() {
                break ;
            }
            let ghost particles_before = simulation.particles@;
            let ghost best_before = simulation.global_best;
            let ghost position_before = simulation.global_best_position;
            let ghost trace_before = trace@;
            proof {
                lemma_evaluated_best(
                    grid@,
                    start,
                    particles_before,
                    end,
                    best_before,
                    position_before,
                );
                if iter_id == 0 {
                    lemma_first_best_is_start(particles_before, end, start, position_before);
                } else {
                    assert(trace_before.last() == trace_before[trace_before.len() - 1]);
                }
                lemma_evaluated_best_position(particles_before, end, best_before, position_before);
            }
            simulation.swarm_update(grid, rng);
            proof {
                assert(reachable(grid@, start, simulation.global_best_position));
                assert forall|i: int| 0 <= i < simulation.particles.len() implies reachable(
                    grid@,
                    start,
                    (#[trigger] simulation.particles[i]).position,
                ) && velocity_in_bounds(simulation.particles[i].velocity) by {
                    let b = evaluated(particles_before[i], end);
                    assert(b.position == particles_before[i].position);
                    assert(b.velocity == particles_before[i].velocity);
                    lemma_reachable_step(grid@, start, b.position, b.velocity);
                }
            }
            proof {
                assert forall|i: int| 0 <= i < simulation.particles.len() implies placed(
                    grid@,
                    start,
                    (#[trigger] simulation.particles[i]).position,
                ) by {
                    let b = evaluated(particles_before[i], end);
                    assert(b.position == particles_before[i].position);
                    lemma_position_after_is_free(grid@, b.position, b.velocity);
                }
            }
            trace.push(simulation.global_best_position);
            proof {
                let longer = trace@;
                assert(longer.drop_last() =~= trace_before);
                assert forall|i: int| 0 <= i < longer.len() implies reachable(
                    grid@,
                    start,
                    #[trigger] longer[i],
                ) by {
                    if i < trace_before.len() {
                        assert(longer[i] == trace_before[i]);
                    }
                }
                assert forall|i: int, j: int| 0 <= i <= j < longer.len() implies grid_distance(
                    #[trigger] longer[j],
                    end,
                ) <= grid_distance(#[trigger] longer[i], end) by {
                    if j < trace_before.len() {
                        assert(longer[i] == trace_before[i] && longer[j] == trace_before[j]);
                    } else if i < trace_before.len() {
                        assert(longer[i] == trace_before[i]);
                        assert(trace_before.last() == trace_before[trace_before.len() - 1]);
                        assert(grid_distance(trace_before.last(), end) <= grid_distance(
                            trace_before[i],
                            end,
                        ));
                    }
                }
                assert forall|i: int| 0 <= i < longer.len() - 1 implies grid_distance(
                    #[trigger] longer[i],
                    end,
                ) > FITNESS_THRESHOLD_STOP by {
                    assert(longer[i] == trace_before[i]);
                    if i == trace_before.len() - 1 {
                        assert(trace_before.last() == trace_before[i]);
                    }
                }
            }
            simulation.increase_iteration_count();
            iter_id += 1;
        }
        let status: RouteStatus = if FITNESS_THRESHOLD_STOP >= simulation.global_best {
            RouteStatus::Success
        } else {
            RouteStatus::Partial(RouteError::MaxIterationsExceeded)
        };
        PixRoute(trace, status)
    }

    /// Lets a swarm of `PARTICLES_COUNT` particles grow node sequences from the start
    /// towards the end and returns the way along the best sequence found. The search
    /// stops early once the best way is no longer than the straight line from start to
    /// end times `FITNESS_THRESHOLD_STOP` thousandths. Before each iteration the
    /// deadline is looked at.
    fn generate_route(
        graph: &Graph,
        _generation_strategy: RouteGeneratorStrategy,
        route_details: &RouteDetails,
        _mode: GenerationMode,
        rng: &mut StdRng,
        deadline: &Deadline,
    ) -> (result: Route)
        ensures
            is_pso_route(
                graph@,
                deadline.limited(),
                route_details.starting_node,
                route_details.ending_node,
                result.0@,
                result.1,
            ),
    {
        let ghost g = graph@;
        let start: NodeId = route_details.starting_node;
        let end: NodeId = route_details.ending_node;
        let start_node = match graph.find_node(start) {
            None => {
                return Route(Vec::new(), RouteStatus::Failed(RouteError::UnknownNode(start)));
            },
            Some(n) => n,
        };
        let end_node = match graph.find_node(end) {
            None => {
                return Route(Vec::new(), RouteStatus::Failed(RouteError::UnknownNode(end)));
            },
            Some(n) => n,
        };
        assert(PARTICLES_COUNT == 100 && MAX_ITERATIONS == 500 && FITNESS_THRESHOLD_STOP == 1150
            && D_MAX_NODES == 5000 && DISTANCE_LIMIT == 0x20_0000_0000);
        if start == end {
            return Route(Vec::new(), RouteStatus::Success);
        }
        let straight: u64 = Edge::length(&start_node, &end_node);
        let good_enough: u64 = straight / 1000 * FITNESS_THRESHOLD_STOP;
        let mut simulation = DSimulation::new(*route_details);
        simulation.init_particles();
        let mut cut_off: bool = false;
        let mut iter_id: u32 = 0;
        while iter_id < MAX_ITERATIONS
            invariant
                cut_off ==> deadline.limited(),
                g == graph@,
                iter_id <= MAX_ITERATIONS,
                MAX_ITERATIONS == 500,
                D_MAX_NODES == 5000,
                start == route_details.starting_node,
                end == route_details.ending_node,
                simulation.route_details == *route_details,
                g.nodes.contains_key(start),
                g.nodes.contains_key(end),
                simulation.particles.len() == PARTICLES_COUNT,
                PARTICLES_COUNT == 100,
                good_enough < u64::MAX,
                forall|i: int|
                    0 <= i < simulation.particles.len() ==> is_node_walk(
                        g,
                        start,
                        (#[trigger] simulation.particles[i]).position@,
                    ),
                iter_id == 0 ==> simulation.global_best == u64::MAX
                    && simulation.global_best_position@.len() == 0,
                iter_id > 0 ==> simulation.global_best < u64::MAX,
                simulation.global_best == u64::MAX || (is_node_walk(
                    g,
                    start,
                    simulation.global_best_position@,
                ) && simulation.global_best == sequence_fitness(
                    g,
                    simulation.global_best_position@,
                    end,
                )),
            ensures
                cut_off ==> deadline.limited(),
                simulation.global_best_position@.len() == 0 || is_node_walk(
                    g,
                    start,
                    simulation.global_best_position@,
                ),
            decreases MAX_ITERATIONS - iter_id,
        {
            if simulation.global_best <= good_enough {
                break ;
            }
            if deadline.passed() {
                cut_off = true;
                break ;
            }
            let ghost particles_before = simulation.particles@;
            proof {
                let positions = positions_of(particles_before);
                assert forall|i: int| 0 <= i < positions.len() implies is_node_walk(
                    g,
                    start,
                    #[trigger] positions[i],
                ) by {
                    assert(positions[i] == particles_before[i].position@);
                }
                lemma_sequence_best(
                    g,
                    start,
                    positions,
                    end,
                    simulation.global_best,
                    simulation.global_best_position@,
                );
            }
            simulation.swarm_update(graph, rng);
            proof {
                assert forall|i: int| 0 <= i < simulation.particles.len() implies is_node_walk(
                    g,
                    start,
                    (#[trigger] simulation.particles[i]).position@,
                ) by {
                    let b = particles_before[i];
                    let a = simulation.particles[i];
                    let halfway = applied(g, b.position@, end, b.velocity@);
                    let connections = g.adjacency(halfway.last());
                    let drawn = choose|drawn: int|
                        0 <= drawn <= connections.len() && a.position@ == applied_one(
                            g,
                            halfway,
                            end,
                            #[trigger] drawn_operator(connections, halfway.len(), drawn),
                        );
                    lemma_applied_walk(g, start, b.position@, end, b.velocity@);
                    lemma_applied_one_walk(
                        g,
                        start,
                        halfway,
                        end,
                        drawn_operator(connections, halfway.len(), drawn),
                    );
                }
            }
            simulation.increase_iteration_count();
            iter_id += 1;
        }
        let route: Vec<Edge> = route_from_nodes(graph, &simulation.global_best_position);
        let reached: bool = if route.len() == 0 {
            start == end
        } else {
            route[route.len() - 1].to == end
        };
        let status: RouteStatus = if reached {
            RouteStatus::Success
        } else if cut_off {
            RouteStatus::Partial(RouteError::MaxIterationsExceeded)
        } else {
            RouteStatus::Partial(RouteError::NoPathFound)
        };
        Route(route, status)
    }
}

} // verus!
