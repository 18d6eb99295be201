//! The block-discrete navigation problems: a conservative heuristic, a
//! goal predicate on exact or nearby blocks, and the task markers that
//! bind them together.

use vstd::prelude::*;

use crate::context::BlockNode;
use crate::problem::ProblemDefinition;
use crate::traits::{GoalCheck, Heuristic};
use crate::types::BlockLocation;

verus! {

/// A conservative estimate of the remaining cost: no single move
/// covers more than four blocks laterally and every move costs at
/// least one unit, so a quarter of the lateral Chebyshev distance is
/// admissible.
pub struct BlockHeuristic {
    pub goal: BlockLocation,
}

impl Heuristic for BlockHeuristic {
    fn heuristic(&self, input: &BlockNode) -> u64 {
        let dx = (self.goal.x as i64) - (input.location.x as i64);
        let dz = (self.goal.z as i64) - (input.location.z as i64);
        let adx = if dx < 0 {
            -dx
        } else {
            dx
        };
        let adz = if dz < 0 {
            -dz
        } else {
            dz
        };
        let cheb = if adx >= adz {
            adx
        } else {
            adz
        };
        ((cheb as u64) + 3) / 4
    }
}

/// The goal is one exact block.
pub struct BlockGoalCheck {
    pub goal: BlockLocation,
}

impl GoalCheck for BlockGoalCheck {
    open spec fn spec_is_goal(&self, input: BlockNode) -> bool {
        input.location == self.goal
    }

    fn is_goal(&self, input: &BlockNode) -> bool {
        input.location == self.goal
    }
}

/// The goal is any block within a squared distance of the target.
pub struct BlockNearGoalCheck {
    pub goal: BlockLocation,
    pub dist2: u64,
}

impl GoalCheck for BlockNearGoalCheck {
    open spec fn spec_is_goal(&self, input: BlockNode) -> bool {
        let dx = self.goal.x - input.location.x;
        let dy = self.goal.y - input.location.y;
        let dz = self.goal.z - input.location.z;
        dx * dx + dy * dy + dz * dz <= self.dist2
    }

    fn is_goal(&self, input: &BlockNode) -> bool {
        let dx = (self.goal.x as i128) - (input.location.x as i128);
        let dy = (self.goal.y as i128) - (input.location.y as i128);
        let dz = (self.goal.z as i128) - (input.location.z as i128);
        proof {
            assert(0 <= dx * dx <= 0x10000000000000000 && 0 <= dy * dy <= 0x10000000000000000 && 0
                <= dz * dz <= 0x10000000000000000) by (nonlinear_arith)
                requires
                    -0x100000000 <= dx <= 0x100000000,
                    -0x100000000 <= dy <= 0x100000000,
                    -0x100000000 <= dz <= 0x100000000,
            ;
        }
        let d2 = dx * dx + dy * dy + dz * dz;
        d2 <= self.dist2 as i128
    }
}

/// Navigation to the center of a chunk.
pub struct ChunkTravelTask;

impl ProblemDefinition for ChunkTravelTask {
    type Heuristic = BlockHeuristic;
    type GoalCheck = BlockGoalCheck;
}

/// Navigation to one exact block.
pub struct BlockTravelTask;

impl ProblemDefinition for BlockTravelTask {
    type Heuristic = BlockHeuristic;
    type GoalCheck = BlockGoalCheck;
}

/// Navigation to anywhere near a block.
pub struct BlockTravelNearTask;

impl ProblemDefinition for BlockTravelNearTask {
    type Heuristic = BlockHeuristic;
    type GoalCheck = BlockNearGoalCheck;
}

/// What the locomotion follower reported for one tick.
#[derive(Clone, Copy, Debug, PartialEq, Eq, Structural)]
pub enum FollowResult {
    Failed,
    InProgress,
    Finished,
}

/// What the per-tick driver must do after hearing from the follower.
#[derive(Clone, Copy, Debug, PartialEq, Eq, Structural)]
pub struct TickDecision {
    /// Reset the search problem at the agent's current position.
    pub recalc: bool,
    /// Re-enable the expensive computation.
    pub enable_compute: bool,
    /// Discard the follower.
    pub drop_follower: bool,
    /// The navigation task is over.
    pub task_done: bool,
}

/// The per-tick decision rule of the navigation driver: without a
/// follower nothing happens; a follower that asks for recalculation or
/// that failed restarts the search (a failed one is also dropped); a
/// follower that finished ends the task.
pub fn tick_transition(
    has_follower: bool,
    should_recalc: bool,
    follow_result: FollowResult,
) -> (r: TickDecision)
    ensures
        r.recalc == (has_follower && (should_recalc || follow_result is Failed)),
        r.enable_compute == r.recalc,
        r.drop_follower == (has_follower && follow_result is Failed),
        r.task_done == (has_follower && follow_result is Finished),
{
    if !has_follower {
        return TickDecision {
            recalc: false,
            enable_compute: false,
            drop_follower: false,
            task_done: false,
        };
    }
    let failed = matches!(follow_result, FollowResult::Failed);
    TickDecision {
        recalc: should_recalc || failed,
        enable_compute: should_recalc || failed,
        drop_follower: failed,
        task_done: matches!(follow_result, FollowResult::Finished),
    }
}

/// What the expensive slice must do with a search result.
#[derive(Clone, Copy, Debug, PartialEq, Eq, Structural)]
pub struct ComputeDecision {
    /// Whether computation stays enabled.
    pub new_calculate: bool,
    /// Install the finished path as a fresh follower.
    pub install_follower: bool,
    /// Merge the finished path into the running follower.
    pub merge_follower: bool,
}

/// The decision rule of the expensive slice: nothing happens while
/// computation is disabled; a finished search disables it and hands
/// the path to a fresh or the running follower; an in-progress search
/// keeps computing.
pub fn expensive_transition(calculate: bool, finished: bool, has_follower: bool) -> (r:
    ComputeDecision)
    ensures
        r.new_calculate == (calculate && !finished),
        r.install_follower == (calculate && finished && !has_follower),
        r.merge_follower == (calculate && finished && has_follower),
{
    if !calculate {
        return ComputeDecision {
            new_calculate: false,
            install_follower: false,
            merge_follower: false,
        };
    }
    if finished {
        ComputeDecision {
            new_calculate: false,
            install_follower: !has_follower,
            merge_follower: has_follower,
        }
    } else {
        ComputeDecision { new_calculate: true, install_follower: false, merge_follower: false }
    }
}

} // verus!
