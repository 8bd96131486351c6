//! Core logic for a tile-based agent simulation: a grid pathfinder with a
//! bounded search budget, a reservation ledger that arbitrates shared
//! container stock between agents, a task planner that decomposes goals into
//! primitive actions, and the executors that carry those actions out.
#![verifier::loop_isolation(false)]
use vstd::prelude::*;

pub mod items;
pub mod map;
pub mod pathfinding;
pub mod reservations;
pub mod tasks;
pub mod tiles;
pub mod units;

verus! {

/// Simulation ticks per second that the fixed-timestep loop targets.
pub const UPS_TARGET: u32 = 30;

} // verus!
