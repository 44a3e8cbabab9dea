//! Ant colony optimisation: rounds of ants that walk at random, drawn by pheromone and
//! by progress towards the goal.

use std::collections::{HashMap, HashSet};
use rand::rngs::StdRng;
use vstd::prelude::*;
use crate::deadline::Deadline;
use crate::geometry::{ceil_sqrt, ceil_sqrt_u128, lemma_ceil_sqrt_le, lemma_flat_distance_bound,
    DISTANCE_LIMIT};
use crate::graph::{created_edge, edge_key, edge_key_of, lemma_edge_key_injective, node_distance,
    Edge, Graph, GraphView, Node, NodeId};
use crate::providers::greedy::connections_known;
use crate::random::{lemma_weights_sum_bound, sample_weighted_index};
use crate::route::{is_walk, lemma_walk_push, walk_end, GenerationMode, PixRoute, Route,
    RouteDetails, RouteGeneratorStrategy, WxRouteDetails};
use crate::status::{RouteError, RouteStatus};
use crate::weather::PixelColor;
use crate::RouteGenerator;

verus! {

pub struct RouteGeneratorACO;

/// The number of rounds.
pub const SIMULATION_COUNT: usize = 15;

/// The number of ants that walk in each round.
pub const ANT_COUNT: usize = 300;

/// The most edges that one ant lays down.
pub const ANT_MAX_MOVES_COUNT: usize = 5500;

/// The share of each pheromone level that evaporates in a round, in thousandths.
pub const PH_EVAPORATION_RATE: u64 = 400;

/// One thousand: the whole of which `PH_EVAPORATION_RATE` is a share, and the number of
/// millimetres in the metre by which progress is counted.
pub const THOUSAND: u64 = 1000;

/// How much pheromone an ant leaves on an edge one metre long, in millionths.
pub const PH_TRACE_DELTA: u64 = 10_000_000;

/// By how much the trace of an ordinary ant is thinner than that of the best route.
pub const PH_TRACE_DIVISOR: u64 = 50;

/// The level of an edge that no ant has used yet, in millionths. It is above zero, or
/// no ant would ever choose such an edge.
pub const PH_INITIAL_LEVEL: u64 = 100_000_000;

/// No level sinks below this floor.
pub const PH_MIN_LEVEL: u64 = 1;

/// No level rises above this cap.
pub const PH_MAX_LEVEL: u64 = 1_000_000_000_000_000;

/// The weight that the most desirable candidate gets; the others get their share of it.
pub const WEIGHT_SCALE: u128 = 1_048_576;

/// Pheromone levels by ordered pair of endpoints.
pub open spec fn levels_by_pair(m: Map<i128, u64>) -> Map<(NodeId, NodeId), u64> {
    Map::new(
        |p: (NodeId, NodeId)| m.contains_key(edge_key(p.0, p.1) as i128),
        |p: (NodeId, NodeId)| m[edge_key(p.0, p.1) as i128],
    )
}

/// The level of the edge from `from` to `to`: the initial level where none is recorded.
pub open spec fn level_of(m: Map<(NodeId, NodeId), u64>, from: NodeId, to: NodeId) -> u64 {
    if m.contains_key((from, to)) {
        m[(from, to)]
    } else {
        PH_INITIAL_LEVEL
    }
}

/// Every recorded level lies between the floor and the cap, so none is zero.
pub open spec fn levels_in_range(m: Map<(NodeId, NodeId), u64>) -> bool {
    forall|p: (NodeId, NodeId)| #[trigger]
        m.contains_key(p) ==> PH_MIN_LEVEL <= m[p] <= PH_MAX_LEVEL
}

/// A level after one round of evaporation: what is left of it, but no less than the floor.
pub open spec fn decayed(level: u64) -> u64 {
    let rest = level as nat * (THOUSAND - PH_EVAPORATION_RATE) as nat / THOUSAND as nat;
    if rest < PH_MIN_LEVEL {
        PH_MIN_LEVEL
    } else {
        rest as u64
    }
}

/// A level after a deposit: the sum, but no more than the cap.
pub open spec fn raised(level: u64, amount: u64) -> u64 {
    if level + amount > PH_MAX_LEVEL {
        PH_MAX_LEVEL
    } else {
        (level + amount) as u64
    }
}

/// All levels after one round of evaporation.
pub open spec fn evaporated(m: Map<(NodeId, NodeId), u64>) -> Map<(NodeId, NodeId), u64> {
    Map::new(|p: (NodeId, NodeId)| m.contains_key(p), |p: (NodeId, NodeId)| decayed(m[p]))
}

/// All levels after a deposit of `amount` on the edge from `from` to `to`.
pub open spec fn deposited(m: Map<(NodeId, NodeId), u64>, from: NodeId, to: NodeId, amount: u64)
    -> Map<(NodeId, NodeId), u64> {
    m.insert((from, to), raised(level_of(m, from, to), amount))
}

/// What an ant leaves on an edge of the given length in millimetres:
/// `PH_TRACE_DELTA / (metres * PH_TRACE_DIVISOR)`, or `PH_TRACE_DELTA / metres` on the best
/// route. An edge of no length counts as one millimetre.
pub open spec fn trace_amount(length: u64, best: bool) -> u64 {
    let millimetres: nat = if length == 0 {
        1
    } else {
        length as nat
    };
    let divisor: nat = if best {
        millimetres
    } else {
        millimetres * PH_TRACE_DIVISOR as nat
    };
    (PH_TRACE_DELTA as nat * THOUSAND as nat / divisor) as u64
}

/// Computes what an ant leaves on an edge of the given length.
pub fn trace_amount_of(length: u64, best: bool) -> (r: u64)
    ensures
        r == trace_amount(length, best),
        r <= PH_TRACE_DELTA * THOUSAND,
{
    let thinning: u128 = PH_TRACE_DIVISOR as u128;
    let delta: u128 = PH_TRACE_DELTA as u128;
    let thousand: u128 = THOUSAND as u128;
    assert(thinning == 50 && delta == 10_000_000 && thousand == 1000);
    let millimetres: u128 = if length == 0 {
        1
    } else {
        length as u128
    };
    let divisor: u128 = if best {
        millimetres
    } else {
        millimetres * thinning
    };
    let total: u128 = delta * thousand;
    let amount: u128 = total / divisor;
    assert(amount <= total) by (nonlinear_arith)
        requires
            amount == total / divisor,
            divisor >= 1,
            total >= 0,
    ;
    amount as u64
}

/// The pheromone that the ants have left, by directed edge.
pub struct PheromoneTable {
    levels: HashMap<i128, u64>,
    keys: Vec<i128>,
}

impl View for PheromoneTable {
    type V = Map<(NodeId, NodeId), u64>;

    closed spec fn view(&self) -> Map<(NodeId, NodeId), u64> {
        levels_by_pair(self.levels@)
    }
}

/// The levels of `m` after one round of evaporation, by storage key.
spec fn raw_evaporated(m: Map<i128, u64>) -> Map<i128, u64> {
    Map::new(|k: i128| m.contains_key(k), |k: i128| decayed(m[k]))
}

proof fn lemma_decayed_in_range(level: u64)
    requires
        level <= PH_MAX_LEVEL,
    ensures
        PH_MIN_LEVEL <= decayed(level) <= PH_MAX_LEVEL,
{
    let kept = (THOUSAND - PH_EVAPORATION_RATE) as nat;
    let whole = THOUSAND as nat;
    assert(level as nat * kept / whole <= level) by (nonlinear_arith)
        requires
            kept == 600,
            whole == 1000,
    ;
}

impl PheromoneTable {
    #[verifier::type_invariant]
    closed spec fn wf(&self) -> bool {
        &&& self.keys@.no_duplicates()
        &&& forall|k: i128| self.levels@.contains_key(k) <==> self.keys@.contains(k)
        &&& forall|k: i128| #[trigger]
            self.levels@.contains_key(k) ==> PH_MIN_LEVEL <= self.levels@[k] <= PH_MAX_LEVEL
    }

    /// A table in which no level is recorded.
    pub fn new() -> (t: Self)
        ensures
            t@ == Map::<(NodeId, NodeId), u64>::empty(),
    {
        let t = PheromoneTable { levels: HashMap::new(), keys: Vec::new() };
        assert(t@ =~= Map::<(NodeId, NodeId), u64>::empty());
        t
    }

    /// The level of the edge from `from` to `to`.
    pub fn level(&self, from: NodeId, to: NodeId) -> (r: u64)
        ensures
            r == level_of(self@, from, to),
            PH_MIN_LEVEL <= r <= PH_MAX_LEVEL,
            levels_in_range(self@),
    {
        proof {
            use_type_invariant(self);
        }
        let key: i128 = edge_key_of(from, to);
        match self.levels.get(&key) {
            Some(v) => *v,
            None => PH_INITIAL_LEVEL,
        }
    }

    /// Adds `amount` to the level of the edge from `from` to `to`, up to the cap.
    pub fn deposit(&mut self, from: NodeId, to: NodeId, amount: u64)
        ensures
            final(self)@ == deposited(old(self)@, from, to, amount),
            levels_in_range(final(self)@),
    {
        proof {
            use_type_invariant(&*self);
        }
        let key: i128 = edge_key_of(from, to);
        let mut taken = PheromoneTable::new();
        std::mem::swap(self, &mut taken);
        let PheromoneTable { mut levels, mut keys } = taken;
        let (known, level): (bool, u64) = match levels.get(&key) {
            Some(v) => (true, *v),
            None => (false, PH_INITIAL_LEVEL),
        };
        let sum: u128 = level as u128 + amount as u128;
        let new_level: u64 = if sum > PH_MAX_LEVEL as u128 {
            PH_MAX_LEVEL
        } else {
            sum as u64
        };
        assert(new_level == raised(level_of(old(self)@, from, to), amount));
        if !known {
            keys.push(key);
            assert(!old(self).keys@.contains(key));
            assert(keys@.no_duplicates()) by {
                assert forall|a: int, b: int|
                    0 <= a < keys@.len() && 0 <= b < keys@.len() && a != b implies keys@[a]
                    != keys@[b] by {
                    if a < old(self).keys@.len() {
                        assert(old(self).keys@.contains(keys@[a]));
                    }
                    if b < old(self).keys@.len() {
                        assert(old(self).keys@.contains(keys@[b]));
                    }
                }
            }
        }
        levels.insert(key, new_level);
        assert forall|k: i128| levels@.contains_key(k) <==> keys@.contains(k) by {
            if known {
                assert(keys@ == old(self).keys@);
            } else {
                assert(keys@ =~= old(self).keys@.push(key));
                if old(self).keys@.contains(k) {
                    let j = choose|j: int| 0 <= j < old(self).keys@.len() && old(self).keys@[j] == k;
                    assert(keys@[j] == k);
                }
                if k == key {
                    assert(keys@[keys@.len() - 1] == key);
                }
            }
        }
        *self = PheromoneTable { levels, keys };
        assert(self@ =~= deposited(old(self)@, from, to, amount)) by {
            assert forall|p: (NodeId, NodeId)| p != (from, to) implies edge_key(p.0, p.1)
                != key by {
                if edge_key(p.0, p.1) == key {
                    lemma_edge_key_injective(p.0, p.1, from, to);
                }
            }
        }
    }

    /// Lets every recorded level evaporate for one round.
    pub fn evaporate(&mut self)
        ensures
            final(self)@ == evaporated(old(self)@),
            levels_in_range(final(self)@),
    {
        proof {
            use_type_invariant(&*self);
        }
        let mut taken = PheromoneTable::new();
        std::mem::swap(self, &mut taken);
        let PheromoneTable { mut levels, keys } = taken;
        let ghost before = levels@;
        assert forall|j: int| 0 <= j < keys.len() implies before.contains_key(
            #[trigger] keys@[j],
        ) by {
            assert(keys@.contains(keys@[j]));
        }
        let mut i: usize = 0;
        while i < keys.len()
            invariant
                i <= keys.len(),
                keys@.no_duplicates(),
                forall|k: i128| before.contains_key(k) <==> keys@.contains(k),
                forall|k: i128| #[trigger]
                    before.contains_key(k) ==> PH_MIN_LEVEL <= before[k] <= PH_MAX_LEVEL,
                forall|k: i128| levels@.contains_key(k) <==> before.contains_key(k),
                forall|j: int| 0 <= j < keys.len() ==> before.contains_key(#[trigger] keys@[j]),
                forall|j: int| 0 <= j < i ==> levels@[#[trigger] keys@[j]] == decayed(before[keys@[j]]),
                forall|j: int| i <= j < keys.len() ==> levels@[#[trigger] keys@[j]] == before[keys@[j]],
            decreases keys.len() - i,
        {
            let key: i128 = keys[i];
            assert(THOUSAND == 1000 && PH_EVAPORATION_RATE == 400);
            assert(before.contains_key(key));
            let level: u64 = match levels.get(&key) {
                Some(v) => *v,
                None => PH_INITIAL_LEVEL,
            };
            let kept: u128 = (THOUSAND - PH_EVAPORATION_RATE) as u128;
            let whole: u128 = THOUSAND as u128;
            assert(kept == 600 && whole == 1000);
            let rest: u128 = (level as u128) * kept / whole;
            let new_level: u64 = if rest < PH_MIN_LEVEL as u128 {
                PH_MIN_LEVEL
            } else {
                rest as u64
            };
            assert(new_level == decayed(level));
            levels.insert(key, new_level);
            assert forall|j: int| i < j < keys.len() implies levels@[#[trigger] keys@[j]]
                == before[keys@[j]] by {
                assert(keys@[j] != keys@[i as int]);
            }
            assert forall|j: int| 0 <= j < i implies levels@[#[trigger] keys@[j]] == decayed(
                before[keys@[j]],
            ) by {
                assert(keys@[j] != keys@[i as int]);
            }
            i += 1;
        }
        assert(levels@ =~= raw_evaporated(before)) by {
            assert forall|k: i128| levels@.contains_key(k) implies levels@[k] == decayed(
                before[k],
            ) by {
                assert(before.contains_key(k));
                assert(keys@.contains(k));
                let j = choose|j: int| 0 <= j < keys@.len() && keys@[j] == k;
                assert(levels@[keys@[j]] == decayed(before[keys@[j]]));
            }
        }
        assert forall|k: i128| #[trigger] levels@.contains_key(k) implies PH_MIN_LEVEL
            <= levels@[k] <= PH_MAX_LEVEL by {
            lemma_decayed_in_range(before[k]);
        }
        *self = PheromoneTable { levels, keys };
        assert(self@ =~= evaporated(old(self)@));
    }
}

/// The progress, in whole metres, that a step makes towards the goal when it takes the
/// distance from `before` to `after` millimetres; a step that gains less than two metres
/// counts as one metre.
pub open spec fn progress_of(before: nat, after: nat) -> nat {
    if before >= after + THOUSAND {
        ((before - after) / THOUSAND as int) as nat
    } else {
        1
    }
}

/// The eighth root of `y`, rounded up.
pub open spec fn ceil_root8(y: nat) -> nat {
    ceil_sqrt(ceil_sqrt(ceil_sqrt(y)))
}

/// The weight of a progress of `x` metres: `x` raised to the power of 11/8, taken as `x`
/// times the rounded-up eighth root of its cube.
pub open spec fn progress_weight(x: nat) -> nat {
    x * ceil_root8(x * x * x)
}

proof fn lemma_ceil_sqrt_positive(n: nat)
    requires
        n >= 1,
    ensures
        ceil_sqrt(n) >= 1,
{
    crate::geometry::lemma_ceil_sqrt_exists(n);
    let r = ceil_sqrt(n);
    if r == 0 {
        assert(r * r == 0) by (nonlinear_arith)
            requires
                r == 0,
        ;
    }
}

/// No progress weight exceeds this bound.
pub const PROGRESS_WEIGHT_LIMIT: u128 = 0x20_0000_0000_0000;

/// Computes the weight of a progress of `x` metres.
pub fn progress_weight_of(x: u64) -> (r: u128)
    requires
        x <= DISTANCE_LIMIT,
    ensures
        r == progress_weight(x as nat),
        r <= PROGRESS_WEIGHT_LIMIT,
        x >= 1 ==> r >= 1,
{
    let wide: u128 = x as u128;
    assert(wide * wide <= 0x20_0000_0000 * 0x20_0000_0000) by (nonlinear_arith)
        requires
            0 <= wide <= 0x20_0000_0000,
    ;
    let square: u128 = wide * wide;
    assert(square * wide <= 0x400_0000_0000_0000_0000 * 0x20_0000_0000) by (nonlinear_arith)
        requires
            0 <= wide <= 0x20_0000_0000,
            0 <= square <= 0x400_0000_0000_0000_0000,
    ;
    let cube: u128 = square * wide;
    let first: u128 = ceil_sqrt_u128(cube);
    let second: u128 = ceil_sqrt_u128(first);
    let third: u128 = ceil_sqrt_u128(second);
    proof {
        lemma_ceil_sqrt_le(cube as nat, 0x1_0000_0000_0000_0000);
        lemma_ceil_sqrt_le(first as nat, 0x1_0000_0000);
        lemma_ceil_sqrt_le(second as nat, 0x1_0000);
        if x >= 1 {
            assert(cube >= 1) by (nonlinear_arith)
                requires
                    cube == wide * wide * wide,
                    wide >= 1,
            ;
            lemma_ceil_sqrt_positive(cube as nat);
            lemma_ceil_sqrt_positive(first as nat);
            lemma_ceil_sqrt_positive(second as nat);
        }
    }
    assert(wide * third <= 0x20_0000_0000_0000) by (nonlinear_arith)
        requires
            0 <= wide <= 0x20_0000_0000,
            0 <= third <= 0x1_0000,
    ;
    assert(x >= 1 ==> wide * third >= 1) by (nonlinear_arith)
        requires
            x >= 1 ==> third >= 1,
            wide == x,
    ;
    wide * third
}

/// How much an ant is drawn to the edge `e` on its way to `goal`: the pheromone level of
/// the edge times the weight of the progress that the edge makes.
pub open spec fn desirability(
    g: GraphView,
    ph: Map<(NodeId, NodeId), u64>,
    e: Edge,
    goal: Node,
) -> nat {
    level_of(ph, e.from, e.to) as nat * progress_weight(
        progress_of(node_distance(g.nodes[e.from], goal), node_distance(g.nodes[e.to], goal)),
    )
}

/// The highest desirability among the candidates; zero where there is none.
pub open spec fn max_desirability(
    g: GraphView,
    ph: Map<(NodeId, NodeId), u64>,
    candidates: Seq<Edge>,
    goal: Node,
) -> nat
    decreases candidates.len(),
{
    if candidates.len() == 0 {
        0
    } else {
        let rest = max_desirability(g, ph, candidates.drop_last(), goal);
        let last = desirability(g, ph, candidates.last(), goal);
        if last > rest {
            last
        } else {
            rest
        }
    }
}

/// A desirability as a share of the highest one, out of `WEIGHT_SCALE` and never below one.
pub open spec fn normalised(d: nat, highest: nat) -> nat {
    if highest == 0 || d * WEIGHT_SCALE as nat / highest < 1 {
        1
    } else {
        d * WEIGHT_SCALE as nat / highest
    }
}

/// Both ends of every candidate are nodes of the graph.
pub open spec fn candidates_known(g: GraphView, candidates: Seq<Edge>, n: int) -> bool {
    forall|i: int|
        0 <= i < n ==> g.nodes.contains_key((#[trigger] candidates[i]).from)
            && g.nodes.contains_key(candidates[i].to)
}

/// Computes the weights by which the next edge is drawn from the candidates: for each
/// its desirability as a share of the highest. Fails with `UnknownNode` on the first end
/// of a candidate that the graph lacks.
pub fn candidate_weights(
    graph: &Graph,
    candidates: &Vec<Edge>,
    end_node: &Node,
    ph_levels: &PheromoneTable,
) -> (r: Result<Vec<u128>, RouteError>)
    ensures
        match r {
            Ok(weights) => {
                &&& candidates_known(graph@, candidates@, candidates.len() as int)
                &&& weights.len() == candidates.len()
                &&& forall|i: int|
                    0 <= i < weights.len() ==> #[trigger] weights[i] == normalised(
                        desirability(graph@, ph_levels@, candidates[i], *end_node),
                        max_desirability(graph@, ph_levels@, candidates@, *end_node),
                    )
                &&& forall|i: int| 0 <= i < weights.len() ==> 1 <= #[trigger] weights[i] <= WEIGHT_SCALE
            },
            Err(e) => exists|i: int|
                0 <= i < candidates.len() && candidates_known(graph@, candidates@, i) && e == (
                if graph@.nodes.contains_key((#[trigger] candidates[i]).from) {
                    RouteError::UnknownNode(candidates[i].to)
                } else {
                    RouteError::UnknownNode(candidates[i].from)
                }) && !(graph@.nodes.contains_key(candidates[i].from)
                    && graph@.nodes.contains_key(candidates[i].to)),
        },
{
    let ghost g = graph@;
    let ghost ph = ph_levels@;
    assert(THOUSAND == 1000 && PH_MAX_LEVEL == 1_000_000_000_000_000 && PROGRESS_WEIGHT_LIMIT
        == 0x20_0000_0000_0000 && WEIGHT_SCALE == 1_048_576);
    let mut wishes: Vec<u128> = Vec::new();
    let mut highest: u128 = 0;
    let mut i: usize = 0;
    while i < candidates.len()
        invariant
            g == graph@,
            ph == ph_levels@,
            i <= candidates.len(),
            wishes.len() == i,
            candidates_known(g, candidates@, i as int),
            highest == max_desirability(g, ph, candidates@.take(i as int), *end_node),
            forall|j: int|
                0 <= j < i ==> #[trigger] wishes[j] == desirability(
                    g,
                    ph,
                    candidates[j],
                    *end_node,
                ),
            forall|j: int| 0 <= j < i ==> #[trigger] wishes[j] <= highest,
            highest <= PH_MAX_LEVEL * PROGRESS_WEIGHT_LIMIT,
        decreases candidates.len() - i,
    {
        let edge: Edge = candidates[i];
        let from_node = match graph.find_node(edge.from) {
            Some(n) => n,
            None => {
                return Err(RouteError::UnknownNode(edge.from));
            },
        };
        let to_node = match graph.find_node(edge.to) {
            Some(n) => n,
            None => {
                return Err(RouteError::UnknownNode(edge.to));
            },
        };
        let before: u64 = Edge::length(&from_node, end_node);
        let after: u64 = Edge::length(&to_node, end_node);
        let progress: u64 = if before >= after + THOUSAND {
            (before - after) / THOUSAND
        } else {
            1
        };
        assert(progress == progress_of(before as nat, after as nat));
        let weight: u128 = progress_weight_of(progress);
        let level: u64 = ph_levels.level(edge.from, edge.to);
        assert(level * weight <= PH_MAX_LEVEL * PROGRESS_WEIGHT_LIMIT) by (nonlinear_arith)
            requires
                0 <= level <= PH_MAX_LEVEL,
                0 <= weight <= PROGRESS_WEIGHT_LIMIT,
        ;
        let wish: u128 = (level as u128) * weight;
        assert(wish == desirability(g, ph, edge, *end_node));
        proof {
            assert(candidates@.take(i as int + 1).drop_last() =~= candidates@.take(i as int));
            assert(candidates@.take(i as int + 1).last() == edge);
        }
        if wish > highest {
            highest = wish;
        }
        wishes.push(wish);
        i += 1;
    }
    assert(candidates@.take(candidates.len() as int) =~= candidates@);
    let mut weights: Vec<u128> = Vec::new();
    let mut k: usize = 0;
    while k < wishes.len()
        invariant
            k <= wishes.len(),
            wishes.len() == candidates.len(),
            weights.len() == k,
            highest <= PH_MAX_LEVEL * PROGRESS_WEIGHT_LIMIT,
            forall|j: int| 0 <= j < wishes.len() ==> #[trigger] wishes[j] <= highest,
            forall|j: int|
                0 <= j < k ==> #[trigger] weights[j] == normalised(
                    wishes[j] as nat,
                    highest as nat,
                ),
            forall|j: int| 0 <= j < k ==> 1 <= #[trigger] weights[j] <= WEIGHT_SCALE,
        decreases wishes.len() - k,
    {
        let wish: u128 = wishes[k];
        let weight: u128 = if highest == 0 {
            1
        } else {
            assert(wish * WEIGHT_SCALE <= PH_MAX_LEVEL * PROGRESS_WEIGHT_LIMIT * WEIGHT_SCALE)
                by (nonlinear_arith)
                requires
                    0 <= wish <= PH_MAX_LEVEL * PROGRESS_WEIGHT_LIMIT,
            ;
            let share: u128 = wish * WEIGHT_SCALE / highest;
            assert(share <= WEIGHT_SCALE) by (nonlinear_arith)
                requires
                    share == (wish * WEIGHT_SCALE) / (highest as int),
                    0 <= wish <= highest,
                    highest > 0,
            ;
            if share < 1 {
                1
            } else {
                share
            }
        };
        weights.push(weight);
        k += 1;
    }
    Ok(weights)
}

/// The node ids that a set of their numbers stands for.
pub open spec fn ids_of(s: Set<i64>) -> Set<NodeId> {
    Set::new(|id: NodeId| s.contains(id.0))
}

/// What one step of an ant decides at `cur`, whatever the draw.
///
/// It fails with `NoAdjacency` where `cur` has no adjacency entry, and with the error of
/// the first connection whose edge cannot be created. Otherwise it names the target of a
/// connection to a node that the ant has not visited, or nothing where every connection
/// leads to a visited node.
pub open spec fn ant_step(
    g: GraphView,
    visited: Set<NodeId>,
    cur: NodeId,
    r: Result<Option<NodeId>, RouteError>,
) -> bool {
    let adj = g.adjacency(cur);
    if !g.edge_connections.contains_key(cur) {
        r == Err::<Option<NodeId>, RouteError>(RouteError::NoAdjacency(cur))
    } else {
        match r {
            Err(e) => exists|i: int|
                0 <= i < adj.len() && connections_known(g, cur, i) && #[trigger] created_edge(
                    g,
                    cur,
                    adj[i],
                ) == Err::<Edge, RouteError>(e),
            Ok(None) => connections_known(g, cur, adj.len() as int) && forall|i: int|
                0 <= i < adj.len() ==> visited.contains(#[trigger] adj[i]),
            Ok(Some(n)) => connections_known(g, cur, adj.len() as int) && adj.contains(n)
                && !visited.contains(n),
        }
    }
}

/// The target of the candidate that was drawn, if the draw names a candidate.
pub fn chosen_target(candidates: &Vec<Edge>, drawn: usize) -> (r: Option<NodeId>)
    ensures
        r == (if drawn < candidates.len() {
            Some(candidates[drawn as int].to)
        } else {
            None
        }),
{
    if drawn < candidates.len() {
        Some(candidates[drawn].to)
    } else {
        None
    }
}

/// The sum of the lengths of the edges of a route.
pub open spec fn route_length(route: Seq<Edge>) -> nat
    decreases route.len(),
{
    if route.len() == 0 {
        0
    } else {
        route_length(route.drop_last()) + route.last().length as nat
    }
}

/// How the walk of an ant ends once no further edge is laid at the end of `route`.
pub open spec fn ant_end(
    g: GraphView,
    visited: Set<NodeId>,
    start: NodeId,
    end: NodeId,
    route: Seq<Edge>,
    status: RouteStatus,
) -> bool {
    let cur = walk_end(start, route);
    if cur == end {
        status == RouteStatus::Success
    } else if !g.nodes.contains_key(end) {
        route.len() == 0 && status == RouteStatus::Failed(RouteError::UnknownNode(end))
    } else if route.len() == ANT_MAX_MOVES_COUNT {
        status == RouteStatus::Partial(RouteError::MaxStepsExceeded)
    } else {
        match status {
            RouteStatus::Success => false,
            RouteStatus::Partial(e) => e == RouteError::NoPathFound && (ant_step(
                g,
                visited,
                cur,
                Ok(None),
            ) || (route.len() == 0 && ant_step(
                g,
                visited,
                cur,
                Err(RouteError::NoAdjacency(cur)),
            ))),
            RouteStatus::Failed(e) => ant_step(g, visited, cur, Err(e)) && !(route.len() == 0 && e
                == RouteError::NoAdjacency(cur)),
        }
    }
}

/// No edge of the route leads to the start, to a node of `before`, or to the target of
/// an earlier edge, and none leaves the end.
pub open spec fn visits_fresh_nodes(
    before: Set<NodeId>,
    start: NodeId,
    end: NodeId,
    route: Seq<Edge>,
) -> bool {
    forall|i: int|
        0 <= i < route.len() ==> {
            &&& !before.contains((#[trigger] route[i]).to)
            &&& route[i].to != start
            &&& walk_end(start, route.take(i)) != end
            &&& forall|j: int| 0 <= j < i ==> route[j].to != route[i].to
        }
}

/// The nodes visited once the route is walked: those of `before`, the start, and the
/// target of every edge.
pub open spec fn visited_after(
    before: Set<NodeId>,
    start: NodeId,
    route: Seq<Edge>,
    after: Set<NodeId>,
) -> bool {
    forall|n: NodeId|
        after.contains(n) <==> (before.contains(n) || n == start || exists|i: int|
            0 <= i < route.len() && (#[trigger] route[i]).to == n)
}

/// `route` with `status` and `total` is the walk of one ant from `start` towards `end`,
/// whatever the draws were.
///
/// Where the graph lacks `start` the ant fails at once. Otherwise the route is a walk
/// through the graph of at most `ANT_MAX_MOVES_COUNT` edges that visits no node twice,
/// `total` is its length, and the status says why it stopped: at the end (`Success`), out
/// of steps (`MaxStepsExceeded`), where every connection leads to a visited node or at a
/// start without adjacency entry (`NoPathFound`), or on an error (`Failed`).
pub open spec fn is_ant_route(
    g: GraphView,
    before: Set<NodeId>,
    after: Set<NodeId>,
    start: NodeId,
    end: NodeId,
    route: Seq<Edge>,
    status: RouteStatus,
    total: nat,
) -> bool {
    if !g.nodes.contains_key(start) {
        &&& route.len() == 0
        &&& status == RouteStatus::Failed(RouteError::UnknownNode(start))
        &&& after == before
        &&& total == 0
    } else {
        &&& is_walk(g, start, route)
        &&& route.len() <= ANT_MAX_MOVES_COUNT
        &&& total == route_length(route)
        &&& visits_fresh_nodes(before, start, end, route)
        &&& visited_after(before, start, route, after)
        &&& ant_end(g, after, start, end, route, status)
    }
}

/// The two aims of the search, of which the second is never left again.
#[derive(PartialEq, Eq, Structural, Debug, Clone, Copy)]
pub enum OptimizerMode {
    /// No ant has reached the end yet: shorter routes are better.
    Target,
    /// An ant has reached the end: routes that stop closer to the end are better.
    Distance,
}

/// What the search knows between rounds.
pub struct ACOState<'a> {
    /// The pheromone that the ants of earlier rounds have left.
    pub ph_levels: PheromoneTable,
    /// The best route found so far.
    pub best_route: Option<Route>,
    pub best_route_length: u64,
    pub best_distance_to_target: u64,
    pub graph: &'a Graph,
    pub route_details: &'a RouteDetails,
    pub iteration_number: u32,
    pub optimizer_mode: OptimizerMode,
}

/// Copies a list of edges.
pub fn clone_edges(edges: &Vec<Edge>) -> (r: Vec<Edge>)
    ensures
        r@ == edges@,
{
    edges.clone()
}

impl<'a> ACOState<'a> {
    pub fn new(graph: &'a Graph, route_details: &'a RouteDetails) -> (s: Self)
        ensures
            s.ph_levels@ == Map::<(NodeId, NodeId), u64>::empty(),
            s.best_route is None,
            s.best_route_length == u64::MAX,
            s.best_distance_to_target == u64::MAX,
            s.graph == graph,
            s.route_details == route_details,
            s.iteration_number == 0,
            s.optimizer_mode == OptimizerMode::Target,
    {
        ACOState {
            ph_levels: PheromoneTable::new(),
            best_route: None,
            best_route_length: u64::MAX,
            best_distance_to_target: u64::MAX,
            graph,
            route_details,
            iteration_number: 0,
            optimizer_mode: OptimizerMode::Target,
        }
    }

    pub fn get_best_route(&self) -> (r: &Option<Route>)
        ensures
            *r == self.best_route,
    {
        &self.best_route
    }

    /// Counts one more round; the count stops at the largest number it can hold.
    pub fn increase_iteration_number(&mut self)
        ensures
            final(self).iteration_number == (if old(self).iteration_number == u32::MAX {
                u32::MAX
            } else {
                (old(self).iteration_number + 1) as u32
            }),
            final(self).ph_levels == old(self).ph_levels,
            final(self).best_route == old(self).best_route,
            final(self).best_route_length == old(self).best_route_length,
            final(self).best_distance_to_target == old(self).best_distance_to_target,
            final(self).graph == old(self).graph,
            final(self).route_details == old(self).route_details,
            final(self).optimizer_mode == old(self).optimizer_mode,
    {
        if self.iteration_number < u32::MAX {
            self.iteration_number = self.iteration_number + 1;
        }
    }
}

/// One agent of the colony and the nodes it has been to in this round.
pub struct Ant {
    nodes_visited: HashSet<i64>,
}

impl Ant {
    /// The nodes that the ant has been to.
    pub closed spec fn visited(&self) -> Set<NodeId> {
        ids_of(self.nodes_visited@)
    }

    pub fn new() -> (a: Self)
        ensures
            a.visited() == Set::<NodeId>::empty(),
    {
        let a = Ant { nodes_visited: HashSet::new() };
        assert(a.visited() =~= Set::<NodeId>::empty());
        a
    }

    /// Forgets where the ant has been.
    pub fn reset(&mut self)
        ensures
            final(self).visited() == Set::<NodeId>::empty(),
    {
        self.nodes_visited.clear();
        assert(self.visited() =~= Set::<NodeId>::empty());
    }

    /// Selects the node to go to next: a draw among the connections of the current node
    /// that lead to nodes not yet visited, each weighted by its pheromone level and by
    /// the progress it makes towards the end.
    pub fn select_next_node(
        &self,
        graph: &Graph,
        current_node: &Node,
        end_node: &Node,
        ph_levels: &PheromoneTable,
        rng: &mut StdRng,
    ) -> (r: Result<Option<NodeId>, RouteError>)
        ensures
            ant_step(graph@, self.visited(), current_node.id, r),
    {
        let ghost g = graph@;
        let cur: NodeId = current_node.id;
        let ghost adj = g.adjacency(cur);
        let ghost visited = self.visited();
        let connections = match graph.neighbours(cur) {
            None => {
                return Err(RouteError::NoAdjacency(cur));
            },
            Some(v) => v,
        };
        let mut edge_candidates: Vec<Edge> = Vec::new();
        let mut i: usize = 0;
        while i < connections.len()
            invariant
                g == graph@,
                cur == current_node.id,
                adj == g.adjacency(cur),
                visited == self.visited(),
                g.edge_connections.contains_key(cur),
                connections@ == adj,
                i <= connections.len(),
                connections_known(g, cur, i as int),
                edge_candidates.len() == 0 ==> forall|j: int|
                    0 <= j < i ==> visited.contains(#[trigger] adj[j]),
                forall|k: int|
                    0 <= k < edge_candidates.len() ==> {
                        &&& adj.contains((#[trigger] edge_candidates[k]).to)
                        &&& !visited.contains(edge_candidates[k].to)
                        &&& g.nodes.contains_key(edge_candidates[k].from)
                        &&& g.nodes.contains_key(edge_candidates[k].to)
                    },
            decreases connections.len() - i,
        {
            let target: NodeId = connections[i];
            let new_edge = match Edge::create(graph, cur, target) {
                Err(e) => {
                    assert(created_edge(g, cur, adj[i as int]) == Err::<Edge, RouteError>(e));
                    return Err(e);
                },
                Ok(e) => e,
            };
            assert(created_edge(g, cur, adj[i as int]) is Ok);
            if !self.nodes_visited.contains(&target.0) {
                assert(!visited.contains(target));
                edge_candidates.push(new_edge);
            } else {
                assert(visited.contains(target));
            }
            i += 1;
        }
        if edge_candidates.len() == 0 {
            return Ok(None);
        }
        let weights = match candidate_weights(graph, &edge_candidates, end_node, ph_levels) {
            Ok(w) => w,
            Err(e) => {
                proof {
                    let k = choose|k: int|
                        0 <= k < edge_candidates.len() && !(g.nodes.contains_key(
                            (#[trigger] edge_candidates[k]).from,
                        ) && g.nodes.contains_key(edge_candidates[k].to));
                    assert(false);
                }
                return Err(e);
            },
        };
        proof {
            assert(WEIGHT_SCALE == 1_048_576);
            lemma_weights_sum_bound(weights@, WEIGHT_SCALE as nat);
            assert(weights@.len() * WEIGHT_SCALE <= usize::MAX * 1_048_576) by (nonlinear_arith)
                requires
                    weights@.len() <= usize::MAX,
                    WEIGHT_SCALE == 1_048_576,
            ;
        }
        match sample_weighted_index(rng, &weights) {
            Ok(drawn) => {
                let chosen = chosen_target(&edge_candidates, drawn);
                assert(chosen == Some(edge_candidates[drawn as int].to));
                Ok(chosen)
            },
            Err(_) => {
                assert(weights[0] >= 1);
                Err(RouteError::DegenerateDistribution)
            },
        }
    }
}

/// Every connection of the graph leads to a node that the graph knows and that has an
/// adjacency entry of its own.
pub open spec fn well_linked(g: GraphView) -> bool {
    forall|id: NodeId, i: int|
        g.edge_connections.contains_key(id) && 0 <= i < g.edge_connections[id].len() ==> {
            &&& g.nodes.contains_key(#[trigger] g.edge_connections[id][i])
            &&& g.edge_connections.contains_key(g.edge_connections[id][i])
        }
}

/// On a well-linked graph that knows both ends, the walk of an ant never fails.
pub proof fn lemma_ant_route_never_fails(
    g: GraphView,
    before: Set<NodeId>,
    after: Set<NodeId>,
    start: NodeId,
    end: NodeId,
    route: Seq<Edge>,
    status: RouteStatus,
    total: nat,
)
    requires
        well_linked(g),
        g.nodes.contains_key(start),
        g.nodes.contains_key(end),
        is_ant_route(g, before, after, start, end, route, status, total),
    ensures
        !(status is Failed),
{
    let cur = walk_end(start, route);
    if let RouteStatus::Failed(e) = status {
        assert(ant_step(g, after, cur, Err(e)));
        if route.len() > 0 {
            let last = route[route.len() - 1];
            assert(route.last() == last);
            let from = last.from;
            assert(g.adjacency(from).contains(cur));
            let k = choose|k: int| 0 <= k < g.adjacency(from).len() && g.adjacency(from)[k] == cur;
            assert(g.edge_connections.contains_key(from));
            assert(g.edge_connections.contains_key(g.edge_connections[from][k]));
            assert(g.nodes.contains_key(cur));
        }
        assert(g.edge_connections.contains_key(cur));
        let adj = g.adjacency(cur);
        let i = choose|i: int|
            0 <= i < adj.len() && connections_known(g, cur, i) && #[trigger] created_edge(
                g,
                cur,
                adj[i],
            ) == Err::<Edge, RouteError>(e);
        assert(g.nodes.contains_key(g.edge_connections[cur][i]));
        assert(false);
    }
}

/// The levels after the edges of `route` have each received their trace, in order.
pub open spec fn laid(m: Map<(NodeId, NodeId), u64>, route: Seq<Edge>, best: bool) -> Map<
    (NodeId, NodeId),
    u64,
>
    decreases route.len(),
{
    if route.len() == 0 {
        m
    } else {
        deposited(
            laid(m, route.drop_last(), best),
            route.last().from,
            route.last().to,
            trace_amount(route.last().length, best),
        )
    }
}

/// The levels after the edges of every route have received the trace of an ordinary ant.
pub open spec fn laid_all(m: Map<(NodeId, NodeId), u64>, routes: Seq<Seq<Edge>>) -> Map<
    (NodeId, NodeId),
    u64,
>
    decreases routes.len(),
{
    if routes.len() == 0 {
        m
    } else {
        laid(laid_all(m, routes.drop_last()), routes.last(), false)
    }
}

/// The edges of each of the routes.
pub open spec fn route_edges(routes: Seq<Route>) -> Seq<Seq<Edge>> {
    Seq::new(routes.len(), |i: int| routes[i].0@)
}

/// The edges of the best route; none where there is no best route.
pub open spec fn best_edges(best: Option<Route>) -> Seq<Edge> {
    match best {
        Some(r) => r.0@,
        None => Seq::empty(),
    }
}

/// The levels at the end of a round: every level evaporates, every edge that an ant of
/// the round used receives the trace of an ordinary ant, and every edge of the best
/// route receives the larger trace on top.
pub open spec fn round_levels(
    m: Map<(NodeId, NodeId), u64>,
    routes: Seq<Seq<Edge>>,
    best: Seq<Edge>,
) -> Map<(NodeId, NodeId), u64> {
    laid(laid_all(evaporated(m), routes), best, true)
}

/// Whatever is recorded, the level of every edge is above zero.
pub proof fn lemma_levels_positive(m: Map<(NodeId, NodeId), u64>, from: NodeId, to: NodeId)
    requires
        levels_in_range(m),
    ensures
        level_of(m, from, to) > 0,
{
}

/// Lays the trace of one ant along a route.
pub fn lay_route(table: &mut PheromoneTable, route: &Vec<Edge>, best: bool)
    ensures
        final(table)@ == laid(old(table)@, route@, best),
        levels_in_range(final(table)@),
{
    let ghost before = table@;
    proof {
        use_type_invariant(&*table);
    }
    let mut i: usize = 0;
    assert(route@.take(0) =~= Seq::<Edge>::empty());
    while i < route.len()
        invariant
            i <= route.len(),
            table@ == laid(before, route@.take(i as int), best),
            levels_in_range(table@),
        decreases route.len() - i,
    {
        let edge: Edge = route[i];
        let amount: u64 = trace_amount_of(edge.length, best);
        table.deposit(edge.from, edge.to, amount);
        proof {
            assert(route@.take(i as int + 1).drop_last() =~= route@.take(i as int));
            assert(route@.take(i as int + 1).last() == edge);
        }
        i += 1;
    }
    assert(route@.take(route.len() as int) =~= route@);
}

/// Whether a route can be held against the best one: it has an edge, and the graph
/// knows where it stops and where it should end.
pub open spec fn can_record(g: GraphView, end: NodeId, route: Seq<Edge>) -> bool {
    route.len() > 0 && g.nodes.contains_key(route.last().to) && g.nodes.contains_key(end)
}

/// The aim after a route is recorded: `Distance` from the first route on that stops at
/// the end.
pub open spec fn mode_after(
    g: GraphView,
    end: NodeId,
    mode: OptimizerMode,
    route: Seq<Edge>,
) -> OptimizerMode {
    if can_record(g, end, route) && route.last().to == end {
        OptimizerMode::Distance
    } else {
        mode
    }
}

/// How far from the end a route stops.
pub open spec fn rest_distance(g: GraphView, end: NodeId, route: Seq<Edge>) -> nat {
    node_distance(g.nodes[route.last().to], g.nodes[end])
}

/// Whether a route takes the place of the best one: under `Distance` it has to stop
/// closer to the end than any before, under `Target` it has to be shorter than any before.
pub open spec fn replaces_best(
    g: GraphView,
    end: NodeId,
    mode: OptimizerMode,
    best_length: u64,
    best_distance: u64,
    route: Seq<Edge>,
    length: u64,
) -> bool {
    can_record(g, end, route) && (if mode_after(g, end, mode, route) == OptimizerMode::Distance {
        rest_distance(g, end, route) < best_distance
    } else {
        length < best_length
    })
}

impl<'a> ACOState<'a> {
    /// Holds the route of one ant against the best route so far.
    pub fn record_route(&mut self, ant_route: &Route, ant_route_length: u64)
        ensures
            final(self).optimizer_mode == mode_after(
                old(self).graph@,
                old(self).route_details.ending_node,
                old(self).optimizer_mode,
                ant_route.0@,
            ),
            old(self).optimizer_mode == OptimizerMode::Distance ==> final(self).optimizer_mode
                == OptimizerMode::Distance,
            replaces_best(
                old(self).graph@,
                old(self).route_details.ending_node,
                old(self).optimizer_mode,
                old(self).best_route_length,
                old(self).best_distance_to_target,
                ant_route.0@,
                ant_route_length,
            ) ==> {
                &&& final(self).best_route matches Some(r) && r.0@ == ant_route.0@ && r.1
                    == ant_route.1
                &&& final(self).optimizer_mode == OptimizerMode::Distance ==> {
                    &&& final(self).best_distance_to_target == rest_distance(
                        old(self).graph@,
                        old(self).route_details.ending_node,
                        ant_route.0@,
                    )
                    &&& final(self).best_route_length == old(self).best_route_length
                }
                &&& final(self).optimizer_mode == OptimizerMode::Target ==> {
                    &&& final(self).best_route_length == ant_route_length
                    &&& final(self).best_distance_to_target == old(self).best_distance_to_target
                }
            },
            !replaces_best(
                old(self).graph@,
                old(self).route_details.ending_node,
                old(self).optimizer_mode,
                old(self).best_route_length,
                old(self).best_distance_to_target,
                ant_route.0@,
                ant_route_length,
            ) ==> {
                &&& final(self).best_route == old(self).best_route
                &&& final(self).best_route_length == old(self).best_route_length
                &&& final(self).best_distance_to_target == old(self).best_distance_to_target
            },
            final(self).ph_levels == old(self).ph_levels,
            final(self).graph == old(self).graph,
            final(self).route_details == old(self).route_details,
            final(self).iteration_number == old(self).iteration_number,
    {
        let count: usize = ant_route.0.len();
        if count == 0 {
            return ;
        }
        let end: NodeId = self.route_details.ending_node;
        let last: Edge = ant_route.0[count - 1];
        let stop_node = match self.graph.find_node(last.to) {
            Some(n) => n,
            None => {
                return ;
            },
        };
        let end_node = match self.graph.find_node(end) {
            Some(n) => n,
            None => {
                return ;
            },
        };
        if last.to == end {
            self.optimizer_mode = OptimizerMode::Distance;
        }
        let distance_to_destination: u64 = Edge::length(&stop_node, &end_node);
        match self.optimizer_mode {
            OptimizerMode::Distance => {
                if distance_to_destination < self.best_distance_to_target {
                    self.best_distance_to_target = distance_to_destination;
                    self.best_route = Some(Route(clone_edges(&ant_route.0), ant_route.1));
                }
            },
            OptimizerMode::Target => {
                if ant_route_length < self.best_route_length {
                    self.best_route_length = ant_route_length;
                    self.best_route = Some(Route(clone_edges(&ant_route.0), ant_route.1));
                }
            },
        }
    }
}

impl Ant {
    /// Walks from the start towards the end of the search, one drawn step at a time,
    /// and returns the route with its length in millimetres.
    pub fn generate_route(&mut self, state: &ACOState, rng: &mut StdRng) -> (r: (Route, u64))
        ensures
            r.1 <= ANT_MAX_MOVES_COUNT * DISTANCE_LIMIT,
            is_ant_route(
                state.graph@,
                old(self).visited(),
                final(self).visited(),
                state.route_details.starting_node,
                state.route_details.ending_node,
                r.0.0@,
                r.0.1,
                r.1 as nat,
            ),
    {
        let graph: &Graph = state.graph;
        let ghost g = graph@;
        let ghost before = self.visited();
        let start: NodeId = state.route_details.starting_node;
        let end: NodeId = state.route_details.ending_node;
        let mut route: Vec<Edge> = Vec::new();
        let mut total_length: u64 = 0;
        let mut current_node: Node = match graph.find_node(start) {
            None => {
                return (Route(route, RouteStatus::Failed(RouteError::UnknownNode(start))), 0);
            },
            Some(n) => n,
        };
        self.nodes_visited.insert(start.0);
        assert(self.visited() =~= before.insert(start));
        let mut status: RouteStatus = RouteStatus::Success;
        let mut finished: bool = false;
        let mut actions_counter: usize = 0;
        assert(ANT_MAX_MOVES_COUNT == 5500 && DISTANCE_LIMIT == 0x20_0000_0000);
        while actions_counter < ANT_MAX_MOVES_COUNT
            invariant_except_break
                !finished,
            invariant
                g == graph@,
                graph == state.graph,
                start == state.route_details.starting_node,
                end == state.route_details.ending_node,
                g.consistent(),
                g.nodes.contains_key(start),
                actions_counter == route.len(),
                actions_counter <= ANT_MAX_MOVES_COUNT,
                ANT_MAX_MOVES_COUNT == 5500,
                DISTANCE_LIMIT == 0x20_0000_0000,
                current_node.id == walk_end(start, route@),
                g.nodes.contains_key(current_node.id),
                is_walk(g, start, route@),
                route.len() > 0 ==> g.nodes.contains_key(end),
                total_length == route_length(route@),
                total_length <= route.len() * DISTANCE_LIMIT,
                total_length <= 5500 * 0x20_0000_0000,
                visits_fresh_nodes(before, start, end, route@),
                visited_after(before, start, route@, self.visited()),
            ensures
                total_length <= 5500 * 0x20_0000_0000,
                finished ==> is_ant_route(
                    g,
                    before,
                    self.visited(),
                    start,
                    end,
                    route@,
                    status,
                    total_length as nat,
                ),
                !finished ==> actions_counter == ANT_MAX_MOVES_COUNT,
            decreases ANT_MAX_MOVES_COUNT - actions_counter,
        {
            let cur: NodeId = current_node.id;
            if cur == end {
                status = RouteStatus::Success;
                finished = true;
                break ;
            }
            let end_node = match graph.find_node(end) {
                None => {
                    status = RouteStatus::Failed(RouteError::UnknownNode(end));
                    finished = true;
                    break ;
                },
                Some(n) => n,
            };
            let next_node = self.select_next_node(
                graph,
                &current_node,
                &end_node,
                &state.ph_levels,
                rng,
            );
            match next_node {
                Err(e) => {
                    let at_start: bool = route.len() == 0;
                    status =
                    match e {
                        RouteError::NoAdjacency(_) => if at_start {
                            RouteStatus::Partial(RouteError::NoPathFound)
                        } else {
                            RouteStatus::Failed(e)
                        },
                        _ => RouteStatus::Failed(e),
                    };
                    finished = true;
                    break ;
                },
                Ok(None) => {
                    status = RouteStatus::Partial(RouteError::NoPathFound);
                    finished = true;
                    break ;
                },
                Ok(Some(selected_node)) => {
                    let ghost visited = self.visited();
                    let edge = match Edge::create(graph, cur, selected_node) {
                        Ok(edge) => edge,
                        Err(e) => {
                            proof {
                                let adj = g.adjacency(cur);
                                let k = choose|k: int|
                                    0 <= k < adj.len() && adj[k] == selected_node;
                                assert(created_edge(g, cur, adj[k]) is Ok);
                                assert(false);
                            }
                            status = RouteStatus::Failed(e);
                            finished = true;
                            break ;
                        },
                    };
                    let next = match graph.find_node(selected_node) {
                        Some(n) => n,
                        None => {
                            assert(false);
                            status = RouteStatus::Failed(RouteError::UnknownNode(selected_node));
                            finished = true;
                            break ;
                        },
                    };
                    proof {
                        let a = g.nodes[cur];
                        let b = g.nodes[selected_node];
                        lemma_flat_distance_bound(a.lat, a.lon, b.lat, b.lon);
                        lemma_walk_push(g, start, route@, edge);
                        let longer = route@.push(edge);
                        assert(longer.drop_last() =~= route@);
                        assert(longer.take(route@.len() as int) =~= route@);
                        assert forall|i: int| 0 <= i < longer.len() implies {
                            &&& !before.contains((#[trigger] longer[i]).to)
                            &&& longer[i].to != start
                            &&& walk_end(start, longer.take(i)) != end
                            &&& forall|j: int| 0 <= j < i ==> longer[j].to != longer[i].to
                        } by {
                            if i < route@.len() {
                                assert(longer.take(i) =~= route@.take(i));
                                assert(longer[i] == route@[i]);
                                assert forall|j: int| 0 <= j < i implies longer[j].to
                                    != longer[i].to by {
                                    assert(longer[j] == route@[j]);
                                }
                            } else {
                                assert forall|j: int| 0 <= j < i implies longer[j].to
                                    != longer[i].to by {
                                    assert(longer[j] == route@[j]);
                                    assert(visited.contains(route@[j].to));
                                }
                            }
                        }
                        let grown = visited.insert(selected_node);
                        assert forall|n: NodeId|
                            grown.contains(n) <==> (before.contains(n) || n == start || exists|
                                i: int,
                            |
                                0 <= i < longer.len() && (#[trigger] longer[i]).to == n) by {
                            if grown.contains(n) {
                                if n == selected_node {
                                    assert(longer[route@.len() as int].to == n);
                                } else if !(before.contains(n) || n == start) {
                                    let i = choose|i: int|
                                        0 <= i < route@.len() && (#[trigger] route@[i]).to == n;
                                    assert(longer[i].to == n);
                                }
                            }
                            if exists|i: int|
                                0 <= i < longer.len() && (#[trigger] longer[i]).to == n {
                                let i = choose|i: int|
                                    0 <= i < longer.len() && (#[trigger] longer[i]).to == n;
                                if i < route@.len() {
                                    assert(route@[i].to == n);
                                }
                            }
                        }
                    }
                    self.nodes_visited.insert(selected_node.0);
                    assert(self.visited() =~= visited.insert(selected_node));
                    route.push(edge);
                    assert(total_length + edge.length <= route.len() * DISTANCE_LIMIT)
                        by (nonlinear_arith)
                        requires
                            total_length <= (route.len() - 1) * DISTANCE_LIMIT,
                            edge.length < DISTANCE_LIMIT,
                    ;
                    assert(route.len() * DISTANCE_LIMIT <= 5500 * 0x20_0000_0000)
                        by (nonlinear_arith)
                        requires
                            route.len() <= 5500,
                            DISTANCE_LIMIT == 0x20_0000_0000,
                    ;
                    total_length += edge.length;
                    current_node = next;
                },
            }
            actions_counter += 1;
        }
        if !finished {
            status =
            if current_node.id == end {
                RouteStatus::Success
            } else {
                RouteStatus::Partial(RouteError::MaxStepsExceeded)
            };
        }
        (Route(route, status), total_length)
    }
}

/// The colony: its ants and the routes that they brought back in the current round.
pub struct AntSwarm {
    pub ants: Vec<Ant>,
    pub route_candidates: Vec<Route>,
}

impl AntSwarm {
    /// A colony of `ANT_COUNT` ants that have been nowhere yet.
    pub fn init() -> (s: AntSwarm)
        ensures
            s.ants.len() == ANT_COUNT,
            forall|i: int| 0 <= i < s.ants.len() ==> (#[trigger] s.ants[i]).visited() == Set::<
                NodeId,
            >::empty(),
            s.route_candidates.len() == 0,
    {
        let mut ants: Vec<Ant> = Vec::new();
        let mut i: usize = 0;
        while i < ANT_COUNT
            invariant
                i <= ANT_COUNT,
                ants.len() == i,
                forall|k: int| 0 <= k < ants.len() ==> (#[trigger] ants[k]).visited() == Set::<
                    NodeId,
                >::empty(),
            decreases ANT_COUNT - i,
        {
            ants.push(Ant::new());
            i += 1;
        }
        AntSwarm { ants, route_candidates: Vec::new() }
    }

    /// Prepares the colony for a new round: every ant forgets where it has been, and the
    /// routes of the last round are dropped.
    pub fn reset(&mut self)
        ensures
            final(self).ants.len() == old(self).ants.len(),
            forall|i: int|
                0 <= i < final(self).ants.len() ==> (#[trigger] final(self).ants[i]).visited()
                    == Set::<NodeId>::empty(),
            final(self).route_candidates.len() == 0,
    {
        let count: usize = self.ants.len();
        let mut i: usize = 0;
        while i < count
            invariant
                i <= count,
                self.ants.len() == count,
                forall|k: int| 0 <= k < i ==> (#[trigger] self.ants[k]).visited() == Set::<
                    NodeId,
                >::empty(),
            decreases count - i,
        {
            self.ants[i].reset();
            i += 1;
        }
        self.route_candidates.clear();
    }

    /// Ends a round: every level evaporates, every edge of every route of the round
    /// receives the trace of an ordinary ant, and every edge of the best route so far
    /// receives the larger trace on top.
    pub fn update_pheromone_levels(&self, state: &mut ACOState)
        ensures
            final(state).ph_levels@ == round_levels(
                old(state).ph_levels@,
                route_edges(self.route_candidates@),
                best_edges(old(state).best_route),
            ),
            levels_in_range(final(state).ph_levels@),
            final(state).best_route == old(state).best_route,
            final(state).best_route_length == old(state).best_route_length,
            final(state).best_distance_to_target == old(state).best_distance_to_target,
            final(state).graph == old(state).graph,
            final(state).route_details == old(state).route_details,
            final(state).iteration_number == old(state).iteration_number,
            final(state).optimizer_mode == old(state).optimizer_mode,
    {
        let ghost before = state.ph_levels@;
        let ghost routes = route_edges(self.route_candidates@);
        state.ph_levels.evaporate();
        let mut i: usize = 0;
        assert(routes.take(0) =~= Seq::<Seq<Edge>>::empty());
        while i < self.route_candidates.len()
            invariant
                i <= self.route_candidates.len(),
                routes == route_edges(self.route_candidates@),
                state.ph_levels@ == laid_all(evaporated(before), routes.take(i as int)),
                levels_in_range(state.ph_levels@),
                state.best_route == old(state).best_route,
                state.best_route_length == old(state).best_route_length,
                state.best_distance_to_target == old(state).best_distance_to_target,
                state.graph == old(state).graph,
                state.route_details == old(state).route_details,
                state.iteration_number == old(state).iteration_number,
                state.optimizer_mode == old(state).optimizer_mode,
            decreases self.route_candidates.len() - i,
        {
            lay_route(&mut state.ph_levels, &self.route_candidates[i].0, false);
            proof {
                assert(routes.take(i as int + 1).drop_last() =~= routes.take(i as int));
                assert(routes.take(i as int + 1).last() == self.route_candidates@[i as int].0@);
            }
            i += 1;
        }
        assert(routes.take(routes.len() as int) =~= routes);
        let best: Vec<Edge> = match &state.best_route {
            Some(r) => clone_edges(&r.0),
            None => Vec::new(),
        };
        lay_route(&mut state.ph_levels, &best, true);
    }
}

/// `route` is the walk of an ant of the colony that did not fail: a walk from `start`
/// that the ant ended only where it had to, at the end, out of steps, or where no
/// connection led to a node it had not visited.
pub open spec fn is_walk_of_an_ant(g: GraphView, start: NodeId, end: NodeId, route: Seq<Edge>)
    -> bool {
    exists|after: Set<NodeId>, status: RouteStatus, total: nat|
        #[trigger] is_ant_route(g, Set::empty(), after, start, end, route, status, total) && !(
        status is Failed)
}

/// An ant of the colony can fail with the error `e` on its walk from `start`.
pub open spec fn is_failure_of_an_ant(g: GraphView, start: NodeId, end: NodeId, e: RouteError)
    -> bool {
    exists|walk: Seq<Edge>, after: Set<NodeId>, total: nat| #[trigger]
        is_ant_route(g, Set::empty(), after, start, end, walk, RouteStatus::Failed(e), total)
}

/// `route` with `status` is a result of the colony's search from `start` towards `end`,
/// whatever the draws were.
///
/// Where the graph lacks `start` or `end` the search fails on the first of them that is
/// missing. Where `start` is `end` it succeeds with no edge. Otherwise the route is the
/// walk of an ant, which visits no node twice and stops only where the ant had to; the
/// status is `Success` exactly where the route stops at the end and `NoPathFound` where
/// it does not. The search fails only with the error of an ant's walk: an unknown node
/// or a node without adjacency entry, on a graph that is not well linked. A search that
/// is `limited` by a deadline may be cut off between two rounds, which is
/// `MaxIterationsExceeded`; only then can it return no edge without an ant having
/// walked.
pub open spec fn is_aco_result(
    g: GraphView,
    limited: bool,
    start: NodeId,
    end: NodeId,
    route: Seq<Edge>,
    status: RouteStatus,
) -> bool {
    if !g.nodes.contains_key(start) {
        route.len() == 0 && status == RouteStatus::Failed(RouteError::UnknownNode(start))
    } else if !g.nodes.contains_key(end) {
        route.len() == 0 && status == RouteStatus::Failed(RouteError::UnknownNode(end))
    } else {
        &&& is_walk(g, start, route)
        &&& route.len() <= ANT_MAX_MOVES_COUNT
        &&& visits_fresh_nodes(Set::empty(), start, end, route)
        &&& start == end ==> route.len() == 0 && status == RouteStatus::Success
        &&& (route.len() > 0 || status == RouteStatus::Success || status == RouteStatus::Partial(
            RouteError::NoPathFound,
        )) ==> is_walk_of_an_ant(g, start, end, route)
        &&& match status {
            RouteStatus::Success => walk_end(start, route) == end,
            RouteStatus::Partial(e) => walk_end(start, route) != end && (e
                == RouteError::NoPathFound || (limited && e
                == RouteError::MaxIterationsExceeded)),
            RouteStatus::Failed(e) => !well_linked(g) && (e is UnknownNode || e is NoAdjacency)
                && is_failure_of_an_ant(g, start, end, e),
        }
    }
}

/// From a start that no connection leaves, a search without a deadline returns no edge
/// and ends without a path and without a failure, whatever the rest of the graph is.
pub proof fn lemma_aco_isolated_start(
    g: GraphView,
    start: NodeId,
    end: NodeId,
    route: Seq<Edge>,
    status: RouteStatus,
)
    requires
        g.nodes.contains_key(start),
        g.nodes.contains_key(end),
        start != end,
        g.adjacency(start).len() == 0,
        is_aco_result(g, false, start, end, route, status),
    ensures
        route.len() == 0,
        status == RouteStatus::Partial(RouteError::NoPathFound),
{
    if route.len() > 0 {
        assert(route.take(0) =~= Seq::<Edge>::empty());
        assert(g.adjacency(route[0].from).contains(route[0].to));
        assert(false);
    }
    if let RouteStatus::Failed(e) = status {
        let (walk, after, total) = choose|walk: Seq<Edge>, after: Set<NodeId>, total: nat| #[trigger]
            is_ant_route(g, Set::empty(), after, start, end, walk, RouteStatus::Failed(e), total);
        if walk.len() > 0 {
            assert(walk.take(0) =~= Seq::<Edge>::empty());
            assert(g.adjacency(walk[0].from).contains(walk[0].to));
        }
        assert(walk.len() == 0);
        assert(walk_end(start, walk) == start);
        assert(ANT_MAX_MOVES_COUNT == 5500);
        assert(ant_step(g, after, start, Err(e)));
        assert(false);
    }
}

/// What holds of the best route between the walks of two ants.
pub open spec fn best_consistent(
    g: GraphView,
    start: NodeId,
    end: NodeId,
    mode: OptimizerMode,
    best: Option<Route>,
    best_distance: u64,
) -> bool {
    &&& mode == OptimizerMode::Target ==> best_distance == u64::MAX
    &&& mode == OptimizerMode::Distance ==> best_distance == 0 && best is Some
    &&& match best {
        None => true,
        Some(r) => {
            &&& r.0@.len() > 0
            &&& r.0@.len() <= ANT_MAX_MOVES_COUNT
            &&& is_walk(g, start, r.0@)
            &&& visits_fresh_nodes(Set::empty(), start, end, r.0@)
            &&& (walk_end(start, r.0@) == end <==> mode == OptimizerMode::Distance)
            &&& is_walk_of_an_ant(g, start, end, r.0@)
        },
    }
}

/// Recording the walk of an ant that did not fail keeps what holds of the best route.
proof fn lemma_recorded_route_keeps_best(
    g: GraphView,
    start: NodeId,
    end: NodeId,
    mode: OptimizerMode,
    best: Option<Route>,
    best_length: u64,
    best_distance: u64,
    mode2: OptimizerMode,
    best2: Option<Route>,
    best_length2: u64,
    best_distance2: u64,
    route: Route,
    length: u64,
    after: Set<NodeId>,
)
    requires
        start != end,
        g.nodes.contains_key(start),
        g.nodes.contains_key(end),
        best_consistent(g, start, end, mode, best, best_distance),
        best is None ==> best_length == u64::MAX,
        is_ant_route(g, Set::empty(), after, start, end, route.0@, route.1, length as nat),
        !(route.1 is Failed),
        length < u64::MAX,
        mode2 == mode_after(g, end, mode, route.0@),
        replaces_best(g, end, mode, best_length, best_distance, route.0@, length) ==> {
            &&& best2 matches Some(r) && r.0@ == route.0@ && r.1 == route.1
            &&& mode2 == OptimizerMode::Distance ==> {
                &&& best_distance2 == rest_distance(g, end, route.0@)
                &&& best_length2 == best_length
            }
            &&& mode2 == OptimizerMode::Target ==> {
                &&& best_length2 == length
                &&& best_distance2 == best_distance
            }
        },
        !replaces_best(g, end, mode, best_length, best_distance, route.0@, length) ==> {
            &&& best2 == best
            &&& best_length2 == best_length
            &&& best_distance2 == best_distance
        },
    ensures
        best_consistent(g, start, end, mode2, best2, best_distance2),
        best2 is None ==> best_length2 == u64::MAX,
        best2 is Some || route.0@.len() == 0,
        route.0@.len() == 0 ==> is_walk_of_an_ant(g, start, end, Seq::<Edge>::empty()),
{
    let edges = route.0@;
    assert(ANT_MAX_MOVES_COUNT == 5500);
    if edges.len() > 0 {
        let last = edges[edges.len() - 1];
        assert(edges.last() == last);
        assert(created_edge(g, last.from, last.to) is Ok);
        assert(can_record(g, end, edges));
        assert(walk_end(start, edges) == last.to);
        if last.to == end {
            crate::graph::lemma_length_identity(g.nodes[end]);
            assert(rest_distance(g, end, edges) == 0);
        }
        assert(is_walk_of_an_ant(g, start, end, edges));
    } else {
        assert(edges =~= Seq::<Edge>::empty());
        assert(is_walk_of_an_ant(g, start, end, Seq::<Edge>::empty()));
    }
}

impl RouteGenerator for RouteGeneratorACO {
    open spec fn raster_mode() -> bool {
        false
    }

    fn real_mode_supported() -> (r: bool) {
        false
    }

    fn generate_route_real_num(
        _route_details: &WxRouteDetails,
        _grid: &Vec<PixelColor>,
        _rng: &mut StdRng,
        _deadline: &Deadline,
    ) -> (route: PixRoute) {
        PixRoute(Vec::new(), RouteStatus::Partial(RouteError::NoPathFound))
    }

    /// Searches a route with `SIMULATION_COUNT` rounds of `ANT_COUNT` ants each and
    /// returns the best route that an ant brought back. Before each round the deadline
    /// is looked at.
    fn generate_route(
        graph: &Graph,
        _generation_strategy: RouteGeneratorStrategy,
        route_details: &RouteDetails,
        _mode: GenerationMode,
        rng: &mut StdRng,
        deadline: &Deadline,
    ) -> (result: Route)
        ensures
            is_aco_result(
                graph@,
                deadline.limited(),
                route_details.starting_node,
                route_details.ending_node,
                result.0@,
                result.1,
            ),
    {
        let ghost g = graph@;
        let start: NodeId = route_details.starting_node;
        let end: NodeId = route_details.ending_node;
        if graph.find_node(start).is_none() {
            return Route(Vec::new(), RouteStatus::Failed(RouteError::UnknownNode(start)));
        }
        if graph.find_node(end).is_none() {
            return Route(Vec::new(), RouteStatus::Failed(RouteError::UnknownNode(end)));
        }
        if start == end {
            proof {
                let nothing = Seq::<Edge>::empty();
                let after = Set::<NodeId>::empty().insert(start);
                assert(is_ant_route(
                    g,
                    Set::empty(),
                    after,
                    start,
                    end,
                    nothing,
                    RouteStatus::Success,
                    0,
                ));
            }
            return Route(Vec::new(), RouteStatus::Success);
        }
        let mut state = ACOState::new(graph, route_details);
        let mut ant_swarm = AntSwarm::init();
        let mut failure: Option<RouteError> = None;
        let mut cut_off: bool = false;
        let ghost mut walked: bool = false;
        let mut simulation_number: usize = 0;
        assert(ANT_COUNT == 300 && SIMULATION_COUNT == 15 && ANT_MAX_MOVES_COUNT == 5500
            && DISTANCE_LIMIT == 0x20_0000_0000);
        while simulation_number < SIMULATION_COUNT
            invariant
                cut_off ==> deadline.limited(),
                SIMULATION_COUNT == 15,
                ANT_COUNT == 300,
                ANT_MAX_MOVES_COUNT == 5500,
                DISTANCE_LIMIT == 0x20_0000_0000,
                ant_swarm.ants.len() == ANT_COUNT,
                simulation_number > 0 ==> walked,
                walked ==> state.best_route is Some || is_walk_of_an_ant(
                    g,
                    start,
                    end,
                    Seq::<Edge>::empty(),
                ),
                state.best_route is None ==> state.best_route_length == u64::MAX,
                failure matches Some(e) ==> is_failure_of_an_ant(g, start, end, e),
                g == graph@,
                state.graph == graph,
                state.route_details == route_details,
                start == route_details.starting_node,
                end == route_details.ending_node,
                start != end,
                g.nodes.contains_key(start),
                g.nodes.contains_key(end),
                failure matches Some(e) ==> !well_linked(g) && (e is UnknownNode
                    || e is NoAdjacency),
                best_consistent(
                    g,
                    start,
                    end,
                    state.optimizer_mode,
                    state.best_route,
                    state.best_distance_to_target,
                ),
            ensures
                failure is None && !cut_off ==> walked,
            decreases SIMULATION_COUNT - simulation_number,
        {
            if deadline.passed() {
                cut_off = true;
                break ;
            }
            ant_swarm.reset();
            let mut ant_number: usize = 0;
            while ant_number < ant_swarm.ants.len()
                invariant_except_break
                    forall|i: int|
                        ant_number <= i < ant_swarm.ants.len() ==> (
                        #[trigger] ant_swarm.ants[i]).visited() == Set::<NodeId>::empty(),
                invariant
                    g == graph@,
                    state.graph == graph,
                    state.route_details == route_details,
                    start == route_details.starting_node,
                    end == route_details.ending_node,
                    start != end,
                    g.nodes.contains_key(start),
                    g.nodes.contains_key(end),
                    failure matches Some(e) ==> !well_linked(g) && (e is UnknownNode
                    || e is NoAdjacency),
                    ant_number <= ant_swarm.ants.len(),
                    ANT_COUNT == 300,
                    ANT_MAX_MOVES_COUNT == 5500,
                    DISTANCE_LIMIT == 0x20_0000_0000,
                    ant_swarm.ants.len() == ANT_COUNT,
                    ant_number > 0 ==> walked,
                    simulation_number > 0 ==> walked,
                    walked ==> state.best_route is Some || is_walk_of_an_ant(
                        g,
                        start,
                        end,
                        Seq::<Edge>::empty(),
                    ),
                    state.best_route is None ==> state.best_route_length == u64::MAX,
                    failure matches Some(e) ==> is_failure_of_an_ant(g, start, end, e),
                    best_consistent(
                        g,
                        start,
                        end,
                        state.optimizer_mode,
                        state.best_route,
                        state.best_distance_to_target,
                    ),
                ensures
                    failure is None ==> walked,
                decreases ant_swarm.ants.len() - ant_number,
            {
                let ghost before_ants = ant_swarm.ants@;
                let (ant_route, ant_route_length) = ant_swarm.ants[ant_number].generate_route(
                    &state,
                    rng,
                );
                proof {
                    assert(before_ants[ant_number as int].visited() == Set::<NodeId>::empty());
                    assert forall|i: int|
                        ant_number < i < ant_swarm.ants.len() implies (
                    #[trigger] ant_swarm.ants[i]).visited() == Set::<NodeId>::empty() by {
                        assert(ant_swarm.ants[i] == before_ants[i]);
                    }
                }
                let ghost after = ant_swarm.ants[ant_number as int].visited();
                assert(is_ant_route(
                    g,
                    Set::empty(),
                    after,
                    start,
                    end,
                    ant_route.0@,
                    ant_route.1,
                    ant_route_length as nat,
                ));
                assert(ant_route_length <= 5500 * 0x20_0000_0000) by (nonlinear_arith)
                    requires
                        ant_route_length <= ANT_MAX_MOVES_COUNT * DISTANCE_LIMIT,
                        ANT_MAX_MOVES_COUNT == 5500,
                        DISTANCE_LIMIT == 0x20_0000_0000,
                ;
                if let RouteStatus::Failed(e) = ant_route.1 {
                    proof {
                        if well_linked(g) {
                            lemma_ant_route_never_fails(
                                g,
                                Set::empty(),
                                ant_swarm.ants[ant_number as int].visited(),
                                start,
                                end,
                                ant_route.0@,
                                ant_route.1,
                                ant_route_length as nat,
                            );
                        }
                    }
                    failure = Some(e);
                    break ;
                }
                let ghost old_mode = state.optimizer_mode;
                let ghost old_best = state.best_route;
                let ghost old_length = state.best_route_length;
                let ghost old_distance = state.best_distance_to_target;
                state.record_route(&ant_route, ant_route_length);
                proof {
                    lemma_recorded_route_keeps_best(
                        g,
                        start,
                        end,
                        old_mode,
                        old_best,
                        old_length,
                        old_distance,
                        state.optimizer_mode,
                        state.best_route,
                        state.best_route_length,
                        state.best_distance_to_target,
                        ant_route,
                        ant_route_length,
                        after,
                    );
                    walked = true;
                }
                ant_swarm.route_candidates.push(ant_route);
                ant_number += 1;
            }
            if failure.is_some() {
                break ;
            }
            ant_swarm.update_pheromone_levels(&mut state);
            state.increase_iteration_number();
            simulation_number += 1;
        }
        let route: Vec<Edge> = match &state.best_route {
            Some(r) => clone_edges(&r.0),
            None => Vec::new(),
        };
        let status: RouteStatus = match failure {
            Some(e) => RouteStatus::Failed(e),
            None => match state.optimizer_mode {
                OptimizerMode::Distance => RouteStatus::Success,
                OptimizerMode::Target => if cut_off {
                    RouteStatus::Partial(RouteError::MaxIterationsExceeded)
                } else {
                    RouteStatus::Partial(RouteError::NoPathFound)
                },
            },
        };
        Route(route, status)
    }
}

} // verus!
