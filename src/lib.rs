use vstd::prelude::*;

pub mod blocking;
pub mod discovery;
pub mod enums;
pub mod execution;
pub mod game;
pub mod geometry;
pub mod heuristic;
pub mod mcts;
pub mod model;
pub mod movement_discovery;
pub mod pathfinding;
pub mod prob;
pub mod registry;
pub mod rollout;

verus! {

} // verus!
