//! The search strategies.

pub mod aco;
pub mod greedy;
pub mod pso;
