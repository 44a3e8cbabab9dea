//! Bookkeeping of which drones are on which edges.

use std::collections::HashMap;
use vstd::prelude::*;
use crate::graph::{edge_key, edge_key_of, lemma_edge_key_injective, Edge, Graph, NodeId};

verus! {

pub type DroneId = u32;

/// How busy an edge is.
#[derive(Debug, Clone, Copy, PartialEq, Eq, Structural)]
pub enum EdgeCongestionLevel {
    NA,
    Low,
    Medium,
    High,
}

/// The drones on each directed edge, in the order in which they were added.
#[derive(Debug, Clone)]
pub struct CongestionStats {
    congestion: HashMap<i128, Vec<DroneId>>,
}

/// The drone lists as they read when keyed by the ordered pair of endpoints.
pub open spec fn drones_by_pair(m: Map<i128, Vec<DroneId>>) -> Map<(NodeId, NodeId), Seq<DroneId>> {
    Map::new(
        |p: (NodeId, NodeId)| m.contains_key(edge_key(p.0, p.1) as i128),
        |p: (NodeId, NodeId)| m[edge_key(p.0, p.1) as i128]@,
    )
}

/// A list of drones without every entry of `drone_id`.
pub open spec fn without(drones: Seq<DroneId>, drone_id: DroneId) -> Seq<DroneId>
    decreases drones.len(),
{
    if drones.len() == 0 {
        Seq::empty()
    } else if drones.last() == drone_id {
        without(drones.drop_last(), drone_id)
    } else {
        without(drones.drop_last(), drone_id).push(drones.last())
    }
}

impl View for CongestionStats {
    type V = Map<(NodeId, NodeId), Seq<DroneId>>;

    closed spec fn view(&self) -> Map<(NodeId, NodeId), Seq<DroneId>> {
        drones_by_pair(self.congestion@)
    }
}

impl Default for CongestionStats {
    fn default() -> (s: Self)
        ensures
            s@ == Map::<(NodeId, NodeId), Seq<DroneId>>::empty(),
    {
        CongestionStats::new()
    }
}

impl CongestionStats {
    /// Statistics with no drone on any edge.
    pub fn new() -> (s: Self)
        ensures
            s@ == Map::<(NodeId, NodeId), Seq<DroneId>>::empty(),
    {
        let s = CongestionStats { congestion: HashMap::new() };
        assert(s@ =~= Map::<(NodeId, NodeId), Seq<DroneId>>::empty());
        s
    }

    /// Statistics to start from; for now these are the empty ones.
    pub fn new_random() -> (s: Self)
        ensures
            s@ == Map::<(NodeId, NodeId), Seq<DroneId>>::empty(),
    {
        CongestionStats::new()
    }

    /// Puts a drone on an edge.
    pub fn add_congestion(&mut self, edge: Edge, drone_id: DroneId)
        ensures
            final(self)@ == old(self)@.insert(
                (edge.from, edge.to),
                (if old(self)@.contains_key((edge.from, edge.to)) {
                    old(self)@[(edge.from, edge.to)]
                } else {
                    Seq::empty()
                }).push(drone_id),
            ),
    {
        let key: i128 = edge_key_of(edge.from, edge.to);
        let mut drones: Vec<DroneId> = match self.congestion.remove(&key) {
            Some(v) => v,
            None => Vec::new(),
        };
        drones.push(drone_id);
        self.congestion.insert(key, drones);
        assert(self@ =~= old(self)@.insert(
            (edge.from, edge.to),
            (if old(self)@.contains_key((edge.from, edge.to)) {
                old(self)@[(edge.from, edge.to)]
            } else {
                Seq::empty()
            }).push(drone_id),
        )) by {
            assert forall|p: (NodeId, NodeId)| p != (edge.from, edge.to) implies edge_key(p.0, p.1)
                != key by {
                if edge_key(p.0, p.1) == key {
                    lemma_edge_key_injective(p.0, p.1, edge.from, edge.to);
                }
            }
        }
    }

    /// The drone lists, keyed by `edge_key`.
    pub fn congestion(&self) -> (r: &HashMap<i128, Vec<DroneId>>)
        ensures
            drones_by_pair(r@) == self@,
    {
        &self.congestion
    }

    /// Takes a drone off an edge, wherever it stands in the list of that edge. An edge
    /// without a list stays without one.
    pub fn remove_congestion(&mut self, drone_id: DroneId, edge: Edge)
        ensures
            final(self)@ == (if old(self)@.contains_key((edge.from, edge.to)) {
                old(self)@.insert(
                    (edge.from, edge.to),
                    without(old(self)@[(edge.from, edge.to)], drone_id),
                )
            } else {
                old(self)@
            }),
    {
        let key: i128 = edge_key_of(edge.from, edge.to);
        let drones: Vec<DroneId> = match self.congestion.remove(&key) {
            Some(v) => v,
            None => {
                assert(self@ =~= old(self)@);
                return ;
            },
        };
        let mut kept: Vec<DroneId> = Vec::new();
        let mut i: usize = 0;
        assert(drones@.take(0) =~= Seq::<DroneId>::empty());
        while i < drones.len()
            invariant
                i <= drones.len(),
                kept@ == without(drones@.take(i as int), drone_id),
            decreases drones.len() - i,
        {
            proof {
                assert(drones@.take(i as int + 1).drop_last() =~= drones@.take(i as int));
                assert(drones@.take(i as int + 1).last() == drones@[i as int]);
            }
            if drones[i] != drone_id {
                kept.push(drones[i]);
            }
            i += 1;
        }
        assert(drones@.take(drones.len() as int) =~= drones@);
        self.congestion.insert(key, kept);
        assert(self@ =~= old(self)@.insert(
            (edge.from, edge.to),
            without(old(self)@[(edge.from, edge.to)], drone_id),
        )) by {
            assert forall|p: (NodeId, NodeId)| p != (edge.from, edge.to) implies edge_key(p.0, p.1)
                != key by {
                if edge_key(p.0, p.1) == key {
                    lemma_edge_key_injective(p.0, p.1, edge.from, edge.to);
                }
            }
        }
    }
}

/// Reads how busy the edges of a graph are.
#[derive(Debug, Clone)]
pub struct TCASAdapter {
    congestion_stats: CongestionStats,
}

impl Default for TCASAdapter {
    fn default() -> (a: Self)
        ensures
            a.stats() == Map::<(NodeId, NodeId), Seq<DroneId>>::empty(),
    {
        TCASAdapter::new()
    }
}

impl TCASAdapter {
    /// The statistics that the adapter reads.
    pub closed spec fn stats(&self) -> Map<(NodeId, NodeId), Seq<DroneId>> {
        self.congestion_stats@
    }

    pub fn new() -> (a: Self)
        ensures
            a.stats() == Map::<(NodeId, NodeId), Seq<DroneId>>::empty(),
    {
        TCASAdapter { congestion_stats: CongestionStats::new_random() }
    }

    /// Reads the usage of an edge: a level for an edge that the graph holds under its
    /// ordered pair of endpoints, and nothing for any other. For now the level is `NA`.
    pub fn read_edge_usage(&self, graph: &Graph, edge: Edge) -> (r: Option<EdgeCongestionLevel>)
        ensures
            r == (if graph@.edge_by_node_id.contains_key((edge.from, edge.to)) {
                Some(EdgeCongestionLevel::NA)
            } else {
                None
            }),
    {
        match graph.find_edge(edge.from, edge.to) {
            Some(_) => Some(EdgeCongestionLevel::NA),
            None => None,
        }
    }
}

} // verus!
