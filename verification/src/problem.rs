//! The problem abstraction: a search problem bundles the A* engine
//! with a heuristic, a goal check, and the generic expander that wraps
//! the move generator over the world.

use vstd::prelude::*;

use crate::astar::{record_of, AStar, DEFAULT_MAX_MILLIS};
use crate::context::{BlockNode, BlockRecord, GlobalContext};
use crate::move_spec::{all_loaded, in_bounds, spec_movements};
use crate::moves::{Movements, Progression};
use crate::path::PathResult;
use crate::timing::Increment;
use crate::traits::{GoalCheck, Heuristic, Progressor};
use crate::types::BlockLocation;

verus! {

/// A task that can be solved by iterated time-sliced search.  The
/// task maintains an invariant that construction establishes and every
/// operation preserves.
pub trait Problem {
    /// The task's invariant.
    spec fn inv(&self) -> bool;

    /// Try to find a solution until the deadline (milliseconds).
    fn iterate_until(&mut self, deadline_millis: u128, ctx: GlobalContext) -> (r: Increment<
        PathResult<BlockRecord>,
    >)
        requires
            old(self).inv(),
        ensures
            final (self).inv(),
            r matches Increment::Finished(pr) ==> pr.path@.len() >= 1,
    ;

    /// Recalculate, given that our new start is `node`.
    fn recalc(&mut self, node: BlockNode)
        ensures
            final (self).inv(),
    ;
}

/// What parameterizes a concrete navigation problem: its heuristic and
/// its goal predicate.
pub trait ProblemDefinition {
    type Heuristic: Heuristic;
    type GoalCheck: GoalCheck;
}

/// The expander every block-discrete problem uses: one step of the
/// move generator over the shared world view.  Out-of-range
/// coordinates and a malformed cost table are treated as the edge of
/// the world.
#[derive(Clone, Copy)]
pub struct GenericProgressor<'a> {
    pub ctx: GlobalContext<'a>,
}

impl<'a> GenericProgressor<'a> {
    /// The expander runs at all: the cost table is well formed and the
    /// node is inside the addressable range.
    pub open spec fn admissible(self, location: BlockNode) -> bool {
        self.ctx.path_config.costs.wf() && in_bounds(location.location)
    }
}

impl<'a> Progressor for GenericProgressor<'a> {
    open spec fn emits(&self, location: BlockNode, ns: Seq<(BlockLocation, int)>) -> bool {
        &&& self.admissible(location)
        &&& all_loaded(self.ctx.world@, location.location)
        &&& ns == spec_movements(
            self.ctx.world@,
            self.ctx.path_config.costs,
            location.location,
        )
    }

    open spec fn edge_at(&self, location: BlockNode) -> bool {
        !(self.admissible(location) && all_loaded(self.ctx.world@, location.location))
    }

    fn progressions(&self, location: &BlockNode) -> Progression<BlockNode> {
        let c = self.ctx.path_config.costs;
        let costs_ok = 1 <= c.block_walk && c.block_walk <= crate::context::MAX_COST
            && 1 <= c.block_parkour && c.block_parkour <= crate::context::MAX_COST
            && 1 <= c.mine_unrelated && c.mine_unrelated <= crate::context::MAX_COST
            && 1 <= c.mine_required && c.mine_required <= crate::context::MAX_COST
            && 1 <= c.place_unrelated && c.place_unrelated <= crate::context::MAX_COST
            && 1 <= c.place_required && c.place_required <= crate::context::MAX_COST
            && 1 <= c.ascend && c.ascend <= crate::context::MAX_COST
            && 1 <= c.no_breathe_mult && c.no_breathe_mult <= crate::context::MAX_MULT
            && 1 <= c.fall && c.fall <= crate::context::MAX_COST;
        let loc = location.location;
        let loc_ok = -2000000000 <= loc.x && loc.x <= 2000000000 && -2000000000 <= loc.z && loc.z
            <= 2000000000 && -32700 <= loc.y && loc.y <= 32700;
        proof {
            assert(costs_ok == c.wf());
            assert(loc_ok == in_bounds(loc));
        }
        if costs_ok && loc_ok {
            Movements::new(location, self.ctx).obtain_all()
        } else {
            Progression::Edge
        }
    }
}

/// A problem searchable by the A* engine over block nodes.
pub struct SearchProblem<P: ProblemDefinition> {
    pub problem: P,
    a_star: AStar,
    pub heuristic: P::Heuristic,
    pub goal_checker: P::GoalCheck,
}

impl<P: ProblemDefinition> SearchProblem<P> {
    /// The engine this problem drives.
    pub closed spec fn engine(self) -> AStar {
        self.a_star
    }

    /// The bundled problem marker.
    pub closed spec fn problem_s(self) -> P {
        self.problem
    }

    /// The bundled heuristic.
    pub closed spec fn heuristic_s(self) -> P::Heuristic {
        self.heuristic
    }

    /// The bundled goal predicate.
    pub closed spec fn goal_checker_s(self) -> P::GoalCheck {
        self.goal_checker
    }

    /// Bundles a fresh engine seeded with `start` together with the
    /// problem and its pluggables: one open entry, no expansions yet,
    /// the default budget.
    pub fn new(problem: P, start: BlockNode, heuristic: P::Heuristic, goal_checker: P::GoalCheck) -> (r:
        Self)
        ensures
            r.engine().wf(),
            r.engine().start_loc() == start.location,
            r.engine().open_count() == 1,
            r.engine().expansions() == Seq::<(BlockLocation, u64)>::empty(),
            r.engine().emitted_s() == Seq::<(BlockLocation, Seq<(BlockLocation, int)>)>::empty(),
            r.engine().max_millis_s() == DEFAULT_MAX_MILLIS,
            r.problem_s() == problem,
            r.heuristic_s() == heuristic,
            r.goal_checker_s() == goal_checker,
    {
        let a_star = AStar::new(start);
        SearchProblem { problem, a_star, heuristic, goal_checker }
    }

    /// Sets only the engine's per-iteration soft budget; every other
    /// part of the search state stays as it was.
    pub fn set_max_millis(&mut self, value: u128)
        ensures
            final (self).engine().max_millis_s() == value,
            old(self).engine().wf() ==> final (self).engine().wf(),
            final (self).engine().entries_s() == old(self).engine().entries_s(),
            final (self).engine().open_s() == old(self).engine().open_s(),
            final (self).engine().expansions() == old(self).engine().expansions(),
            final (self).engine().emitted_s() == old(self).engine().emitted_s(),
            final (self).engine().best_h_s() == old(self).engine().best_h_s(),
            final (self).problem_s() == old(self).problem_s(),
            final (self).heuristic_s() == old(self).heuristic_s(),
            final (self).goal_checker_s() == old(self).goal_checker_s(),
    {
        self.a_star.set_max_millis(value);
    }

    /// Try to find a solution until the deadline: the engine's full
    /// guarantees, lifted to the problem.
    pub fn iterate_until(&mut self, deadline_millis: u128, ctx: GlobalContext) -> (r: Increment<
        PathResult<BlockRecord>,
    >)
        requires
            old(self).engine().wf(),
        ensures
            final (self).engine().wf(),
            final (self).engine().start_loc() == old(self).engine().start_loc(),
            final (self).engine().max_millis_s() == old(self).engine().max_millis_s(),
            final (self).problem_s() == old(self).problem_s(),
            final (self).heuristic_s() == old(self).heuristic_s(),
            final (self).goal_checker_s() == old(self).goal_checker_s(),
            old(self).engine().emitted_s().len() <= final (self).engine().emitted_s().len(),
            forall|k: int|
                0 <= k < old(self).engine().emitted_s().len()
                    ==> final (self).engine().emitted_s()[k] == old(self).engine().emitted_s()[k],
            forall|k: int|
                old(self).engine().emitted_s().len() <= k
                    < final (self).engine().emitted_s().len() ==> (GenericProgressor { ctx }).emits(
                    (BlockNode { location: (#[trigger] final (self).engine().emitted_s()[k]).0 }),
                    final (self).engine().emitted_s()[k].1,
                ),
            match r {
                Increment::InProgress => final (self).engine().open_count() > 0,
                Increment::Finished(pr) => {
                    &&& pr.path@.len() >= 1
                    &&& pr.path@[0] == record_of(old(self).engine().start_loc())
                    &&& (pr.complete ==> old(self).goal_checker_s().spec_is_goal(
                        (BlockNode { location: pr.path@.last().state.location }),
                    ))
                    &&& (!pr.complete ==> final (self).engine().open_count() == 0
                        && pr.path@.last() == record_of(
                        final (self).engine().entries_s()[final (self).engine().best_h_s()].loc,
                    ))
                    &&& forall|t: int|
                        0 <= t < pr.path@.len() - 1 ==> final (self).engine().edge_logged(
                            (#[trigger] pr.path@[t]).state.location,
                            pr.path@[t + 1].state.location,
                        )
                    &&& exists|i: int|
                        0 <= i < final (self).engine().entries_s().len() && pr.path@
                            == #[trigger] final (self).engine().chain(i) && pr.path@.last()
                            == record_of(final (self).engine().entries_s()[i].loc)
                },
            },
    {
        let progressor = GenericProgressor { ctx };
        self.a_star.iterate_until(deadline_millis, &self.heuristic, &progressor, &self.goal_checker)
    }

    /// Resets the search with a new start; all prior state is
    /// discarded: the engine is as freshly constructed with `node`.
    pub fn recalc(&mut self, node: BlockNode)
        ensures
            final (self).engine().wf(),
            final (self).engine().start_loc() == node.location,
            final (self).engine().open_count() == 1,
            final (self).engine().expansions() == Seq::<(BlockLocation, u64)>::empty(),
            final (self).engine().emitted_s() == Seq::<
                (BlockLocation, Seq<(BlockLocation, int)>),
            >::empty(),
            final (self).engine().max_millis_s() == DEFAULT_MAX_MILLIS,
            final (self).problem_s() == old(self).problem_s(),
            final (self).heuristic_s() == old(self).heuristic_s(),
            final (self).goal_checker_s() == old(self).goal_checker_s(),
    {
        self.a_star.recalc(node);
    }
}

impl<P: ProblemDefinition> Problem for SearchProblem<P> {
    open spec fn inv(&self) -> bool {
        self.engine().wf()
    }

    fn iterate_until(&mut self, deadline_millis: u128, ctx: GlobalContext) -> Increment<
        PathResult<BlockRecord>,
    > {
        SearchProblem::iterate_until(self, deadline_millis, ctx)
    }

    fn recalc(&mut self, node: BlockNode) {
        SearchProblem::recalc(self, node);
    }
}

} // verus!
