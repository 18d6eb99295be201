//! Path configuration shared by every search: typed traversal costs, the
//! parkour toggle, and the read-only context handed to the move generator.
//!
//! Costs are fixed-point integers in half-walk units: the cost of walking
//! one block is `2`, so a cost of `3` is one and a half walked blocks.
//! This keeps every cost finite and exactly representable.

use vstd::prelude::*;

use crate::types::BlockLocation;
use crate::world::WorldBlocks;

verus! {

/// Every cost must stay below this bound so that multiplying a cost by
/// the no-breathe multiplier can never overflow a `u64`.
pub const MAX_COST: u64 = 1000000;

/// The no-breathe multiplier must stay below this bound; see [`MAX_COST`].
pub const MAX_MULT: u64 = 1000;

/// The costs of every kind of movement, in half-walk units.
#[derive(Clone, Copy, Debug, PartialEq, Eq, Structural)]
pub struct Costs {
    /// Cost to walk one block.
    pub block_walk: u64,
    /// Cost to parkour one block.
    pub block_parkour: u64,
    /// Cost to mine an unrelated block to achieve a goal.
    pub mine_unrelated: u64,
    /// Cost to mine a required block.
    pub mine_required: u64,
    /// Cost to place an unrelated block.
    pub place_unrelated: u64,
    /// Cost to place a required block.
    pub place_required: u64,
    /// Cost to ascend a block (for instance in a ladder).
    pub ascend: u64,
    /// The cost multiplier applied while the agent cannot breathe.
    pub no_breathe_mult: u64,
    /// The cost of falling (without taking damage).
    pub fall: u64,
}

impl Costs {
    /// All costs are strictly positive and small enough that no scaled
    /// cost can overflow; the no-breathe multiplier is at least one.
    pub open spec fn wf(self) -> bool {
        &&& 1 <= self.block_walk <= MAX_COST
        &&& 1 <= self.block_parkour <= MAX_COST
        &&& 1 <= self.mine_unrelated <= MAX_COST
        &&& 1 <= self.mine_required <= MAX_COST
        &&& 1 <= self.place_unrelated <= MAX_COST
        &&& 1 <= self.place_required <= MAX_COST
        &&& 1 <= self.ascend <= MAX_COST
        &&& 1 <= self.no_breathe_mult <= MAX_MULT
        &&& 1 <= self.fall <= MAX_COST
    }
}

/// The configuration for finding paths.
#[derive(Clone, Copy, Debug, PartialEq, Eq, Structural)]
pub struct PathConfig {
    /// The [`Costs`] config.
    pub costs: Costs,
    /// Whether the agent may do parkour jumps.
    pub parkour: bool,
}

impl Default for PathConfig {
    /// The stock configuration: walking costs one block unit, parkour one
    /// and a half, mining or placing an unrelated block twenty, and being
    /// under water triples every cost.
    fn default() -> (r: Self)
        ensures
            r.costs == (Costs {
                block_walk: 2,
                block_parkour: 3,
                mine_unrelated: 40,
                mine_required: 2,
                place_unrelated: 40,
                place_required: 2,
                ascend: 2,
                no_breathe_mult: 3,
                fall: 2,
            }),
            r.parkour == true,
            r.costs.wf(),
    {
        PathConfig {
            costs: Costs {
                block_walk: 2,
                block_parkour: 3,
                mine_unrelated: 40,
                mine_required: 2,
                place_unrelated: 40,
                place_required: 2,
                ascend: 2,
                no_breathe_mult: 3,
                fall: 2,
            },
            parkour: true,
        }
    }
}

/// The read-only borrow of the configuration and the world that a search
/// slice hands to the move generator.
#[derive(Clone, Copy)]
pub struct GlobalContext<'a> {
    /// The costs and path configuration values.
    pub path_config: &'a PathConfig,
    /// The state of the world blocks.
    pub world: &'a WorldBlocks,
}

/// A node which represents a movement: the search-state carrier.  Two
/// nodes are equal for closed-set purposes exactly when their locations
/// are equal.
#[derive(Clone, Copy, Debug, PartialEq, Eq, Structural)]
pub struct BlockNode {
    /// The current location of the agent.
    pub location: BlockLocation,
}

impl BlockNode {
    /// A simple movement to `location`.
    pub fn simple(location: BlockLocation) -> (r: Self)
        ensures
            r.location == location,
    {
        BlockNode { location }
    }

    /// A copy of `previous`, used when a step carries state forward.
    pub fn from(previous: &Self) -> (r: Self)
        ensures
            r == *previous,
    {
        *previous
    }

    /// Projects the record the closed map is keyed by.
    pub fn get_record(&self) -> (r: BlockRecord)
        ensures
            r.state.location == self.location,
    {
        BlockRecord { state: MoveState { location: self.location } }
    }
}

/// The part of a node that identifies it in the closed map.
#[derive(Clone, Copy, Debug, PartialEq, Eq, Hash, Structural)]
pub struct MoveState {
    pub location: BlockLocation,
}

/// The record type a finished path is made of.
#[derive(Clone, Copy, Debug, PartialEq, Eq, Hash, Structural)]
pub struct BlockRecord {
    pub state: MoveState,
}

} // verus!
