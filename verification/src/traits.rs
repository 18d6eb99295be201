//! The three pluggable interfaces a search problem is parameterized by.
//! The goal check and the expander each carry a specification method
//! that their executable method is held to, so the engine's contract
//! can tie its results to the pluggables; the heuristic promises
//! nothing (the engine is sound for every heuristic).

use vstd::prelude::*;

use crate::context::BlockNode;
use crate::moves::{neighbor_view, Progression};
use crate::types::BlockLocation;

verus! {

/// An estimate of the remaining cost from a node to the goal.  The
/// engine assumes (but cannot check) that it is admissible; a violation
/// weakens optimality but never soundness or termination.
pub trait Heuristic {
    fn heuristic(&self, input: &BlockNode) -> u64;
}

/// The goal predicate of a search.
pub trait GoalCheck {
    /// The predicate, as a mathematical function of the node.
    spec fn spec_is_goal(&self, input: BlockNode) -> bool;

    /// Decides the predicate.
    fn is_goal(&self, input: &BlockNode) -> (r: bool)
        ensures
            r == self.spec_is_goal(*input),
    ;
}

/// The expander: every neighbor of a node with its cost, or `Edge`.
pub trait Progressor {
    /// What it means for this expander to emit exactly the neighbor
    /// list `ns` (locations with costs) at `location`.
    spec fn emits(&self, location: BlockNode, ns: Seq<(BlockLocation, int)>) -> bool;

    /// What it means for this expander to answer `Edge` at `location`.
    spec fn edge_at(&self, location: BlockNode) -> bool;

    fn progressions(&self, location: &BlockNode) -> (r: Progression<BlockNode>)
        ensures
            match r {
                Progression::Movements(ns) => self.emits(*location, neighbor_view(ns@)),
                Progression::Edge => self.edge_at(*location),
            },
    ;
}

} // verus!
