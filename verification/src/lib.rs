//! Movement-aware pathfinding core for an agent in a voxel world.
//!
//! The crate provides a move generator that enumerates the positions an
//! agent can reach in one locomotion step (walking, falling, swimming,
//! micro-jumps and multi-block parkour), a time-sliced A* engine driven by
//! per-tick deadlines, and the state machine of a bidirectional-search
//! coordinator that detects the first node visited by both sides.

pub mod astar;
pub mod centered_arr;
pub mod context;
pub mod middleman;
pub mod move_frame;
pub mod move_laws;
pub mod move_spec;
pub mod moves;
pub mod navigate;
pub mod path;
pub mod problem;
pub mod timing;
pub mod traits;
pub mod types;
pub mod world;

pub use context::{BlockNode, BlockRecord, Costs, GlobalContext, MoveState, PathConfig};
pub use types::{BlockLocation, CardinalDirection, Change, SimpleType};
pub use astar::AStar;
pub use middleman::{Middleman, Msg};
pub use moves::{Movements, Neighbor, Progression};
pub use navigate::{expensive_transition, tick_transition, BlockGoalCheck, BlockHeuristic, BlockNearGoalCheck, BlockTravelNearTask, BlockTravelTask, ChunkTravelTask, ComputeDecision, FollowResult, TickDecision};
pub use path::PathResult;
pub use problem::{GenericProgressor, Problem, ProblemDefinition, SearchProblem};
pub use timing::Increment;
pub use world::WorldBlocks;
