//! The move generator: from a node, every physically reachable neighbor
//! position with its traversal cost, honoring the locomotion rules
//! (walking, falling, swimming, micro-jumps and multi-block parkour).
//!
//! Every public function is proved to return exactly the answer of the
//! mathematical model in [`crate::move_spec`].

use vstd::prelude::*;

use crate::centered_arr::CenteredArray;
use crate::context::{BlockNode, Costs, GlobalContext};
use crate::move_spec::{
    above_of, adj_above_of, adj_floor_of, adj_head_of, all_loaded, block_at, can_jump,
    can_micro_jump, can_move_no_place, cell_dx, cell_dz, column_clear, descend_emit, descend_ok,
    descend_tried, descend_upto, drop_scan, feet_of, floor_center_of, head_of, in_bounds, inc_max,
    legs_of, micro_emit, micro_jump_ok, micro_upto, mk_loc, mult_of, occludes, occludes_axial,
    parkour_emit, parkour_emitted, parkour_open, parkour_seq, parkour_upto, passable_opt,
    ray_covers, rel, sign, spec_drop_y, spec_movements, walk_emit, walk_upto, walkable, water_down,
    water_seq, water_up, MAX_FALL,
};
use crate::types::{
    spec_dir_dx, spec_dir_dz, spec_dir_order, BlockLocation, CardinalDirection, Change, SimpleType,
};
use crate::world::{spec_get, WorldBlocks};

verus! {

/// A neighbor produced by one expansion, with its traversal cost.
#[derive(Clone, Copy, Debug)]
pub struct Neighbor<T> {
    pub value: T,
    pub cost: u64,
}

/// The result of expanding a node.  `Edge` means the expansion touched
/// an unloaded region of the world; the node is a dead end but the
/// world is not inconsistent.
#[derive(Clone, Debug)]
pub enum Progression<T> {
    Movements(Vec<Neighbor<T>>),
    Edge,
}

/// A neighbor list as its mathematical content: location and cost pairs.
pub open spec fn neighbor_view(s: Seq<Neighbor<BlockNode>>) -> Seq<(BlockLocation, int)> {
    s.map_values(|n: Neighbor<BlockNode>| (n.value.location, n.cost as int))
}

/// The marker for a lookup that left the loaded region.
pub struct Edge;

/// A cell of the parkour reachability grid.
#[derive(Clone, Copy, PartialEq, Eq, Structural)]
enum State {
    Open,
    Closed,
}

/// Appending one neighbor appends its content pair.
proof fn lemma_neighbor_view_push(s: Seq<Neighbor<BlockNode>>, n: Neighbor<BlockNode>)
    ensures
        neighbor_view(s.push(n)) == neighbor_view(s).push((n.value.location, n.cost as int)),
{
    assert(neighbor_view(s.push(n)) =~= neighbor_view(s).push((n.value.location, n.cost as int)));
}

/// Without the micro-jump stance nothing is emitted in step F.
proof fn lemma_micro_upto_empty(
    w: Map<BlockLocation, SimpleType>,
    c: Costs,
    on: BlockLocation,
    k: int,
)
    requires
        !can_micro_jump(w, on),
    ensures
        micro_upto(w, c, on, k) == Seq::<(BlockLocation, int)>::empty(),
    decreases k,
{
    if k > 0 {
        lemma_micro_upto_empty(w, c, on, k - 1);
        assert(micro_upto(w, c, on, k) =~= Seq::<(BlockLocation, int)>::empty());
    } else {
        assert(micro_upto(w, c, on, k) =~= Seq::<(BlockLocation, int)>::empty());
    }
}

/// The three body rows of scan cell `(cx, cz)` are loaded.
pub open spec fn col_loaded(
    w: Map<BlockLocation, SimpleType>,
    on: BlockLocation,
    cx: int,
    cz: int,
) -> bool {
    &&& block_at(w, on, cx, 2, cz).is_some()
    &&& block_at(w, on, cx, 1, cz).is_some()
    &&& block_at(w, on, cx, 0, cz).is_some()
}

/// Scan cell `(cx, cz)` is fully loaded: its three body rows and its
/// floor.
pub open spec fn parkour_cell_loaded(
    w: Map<BlockLocation, SimpleType>,
    on: BlockLocation,
    cx: int,
    cz: int,
) -> bool {
    col_loaded(w, on, cx, cz) && block_at(w, on, cx, -1, cz).is_some()
}

/// The blocker list holds the cell `(bx, bz)`.
spec fn nj_contains(s: Seq<(i32, i32)>, bx: int, bz: int) -> bool {
    exists|j: int| 0 <= j < s.len() && s[j].0 == bx && s[j].1 == bz
}

/// `(a * 9 + b)` decomposes uniquely for digits below nine.
proof fn lemma_cell_decomp(a: int, b: int)
    by (nonlinear_arith)
    requires
        0 <= a,
        0 <= b < 9,
    ensures
        (a * 9 + b) / 9 == a,
        (a * 9 + b) % 9 == b,
{
}

/// Walks the occluder's ray from blocker `(bx, bz)` with axial signs
/// `(ax, az)`, closing the covered cells.
#[verifier::rlimit(100)]
fn update_ray(open: &mut CenteredArray<State, 4>, bx: i32, bz: i32, ax: i32, az: i32)
    requires
        old(open).wf(),
        -4 <= bx <= 4,
        -4 <= bz <= 4,
        -1 <= ax <= 1,
        -1 <= az <= 1,
    ensures
        final (open).wf(),
        forall|cx: int, cz: int|
            -4 <= cx <= 4 && -4 <= cz <= 4 ==> ((#[trigger] final (open).at(cx, cz))
                == State::Closed <==> old(open).at(cx, cz) == State::Closed || occludes_axial(
                bx as int,
                bz as int,
                ax as int,
                az as int,
                cx,
                cz,
            )),
{
    let abx = if bx < 0 {
        -bx
    } else {
        bx
    };
    let abz = if bz < 0 {
        -bz
    } else {
        bz
    };
    let m = if abx >= abz {
        abx
    } else {
        abz
    };
    let increments = 4 - m + 1;
    assert(increments == inc_max(bx as int, bz as int));
    let mut inc: i32 = 0;
    while inc < increments
        invariant
            open.wf(),
            0 <= inc <= increments,
            increments == inc_max(bx as int, bz as int),
            -4 <= bx <= 4,
            -4 <= bz <= 4,
            -1 <= ax <= 1,
            -1 <= az <= 1,
            increments == 4 - (if abx >= abz {
                abx
            } else {
                abz
            }) + 1,
            abx == (if bx < 0 {
                -(bx as int)
            } else {
                bx as int
            }),
            abz == (if bz < 0 {
                -(bz as int)
            } else {
                bz as int
            }),
            forall|cx: int, cz: int|
                -4 <= cx <= 4 && -4 <= cz <= 4 ==> ((#[trigger] open.at(cx, cz)) == State::Closed
                    <==> old(open).at(cx, cz) == State::Closed || exists|j: int|
                    0 <= j < inc && #[trigger] ray_covers(
                        bx as int,
                        bz as int,
                        ax as int,
                        az as int,
                        j,
                        cx,
                        cz,
                    )),
        decreases increments - inc,
    {
        let ghost pre = *open;
        close_ray_point(open, bx, bz, ax, az, inc);
        proof {
            assert forall|cx: int, cz: int| -4 <= cx <= 4 && -4 <= cz <= 4 implies ((
            #[trigger] open.at(cx, cz)) == State::Closed <==> old(open).at(cx, cz) == State::Closed
                || exists|j: int|
                0 <= j < inc + 1 && #[trigger] ray_covers(
                    bx as int,
                    bz as int,
                    ax as int,
                    az as int,
                    j,
                    cx,
                    cz,
                )) by {
                if open.at(cx, cz) == State::Closed {
                    if pre.at(cx, cz) != State::Closed {
                        assert(ray_covers(
                            bx as int,
                            bz as int,
                            ax as int,
                            az as int,
                            inc as int,
                            cx,
                            cz,
                        ));
                    }
                } else {
                    assert(forall|j: int|
                        0 <= j < inc ==> !#[trigger] ray_covers(
                            bx as int,
                            bz as int,
                            ax as int,
                            az as int,
                            j,
                            cx,
                            cz,
                        ));
                }
            }
        }
        inc = inc + 1;
    }
}

/// Closes the cells one occluder step covers: the ray cell at `inc`
/// and its one-wide corridor widening.
#[verifier::spinoff_prover]
#[verifier::rlimit(100)]
fn close_ray_point(open: &mut CenteredArray<State, 4>, bx: i32, bz: i32, ax: i32, az: i32, inc: i32)
    requires
        old(open).wf(),
        -4 <= bx <= 4,
        -4 <= bz <= 4,
        -1 <= ax <= 1,
        -1 <= az <= 1,
        0 <= inc < inc_max(bx as int, bz as int),
    ensures
        final (open).wf(),
        forall|cx: int, cz: int|
            -4 <= cx <= 4 && -4 <= cz <= 4 ==> ((#[trigger] final (open).at(cx, cz))
                == State::Closed <==> old(open).at(cx, cz) == State::Closed || ray_covers(
                bx as int,
                bz as int,
                ax as int,
                az as int,
                inc as int,
                cx,
                cz,
            )),
{
    proof {
        assert(inc * ax == (if ax == 1 {
            inc as int
        } else if ax == -1 {
            -(inc as int)
        } else {
            0int
        })) by (nonlinear_arith)
            requires
                -1 <= ax <= 1,
        ;
        assert(inc * az == (if az == 1 {
            inc as int
        } else if az == -1 {
            -(inc as int)
        } else {
            0int
        })) by (nonlinear_arith)
            requires
                -1 <= az <= 1,
        ;
    }
    let px = bx + inc * ax;
    let pz = bz + inc * az;
    assert(-4 <= px <= 4 && -4 <= pz <= 4);
    let ghost pre = *open;
    open.set(px, pz, State::Closed);
    if -4 < px && px < 4 {
        open.set(px + ax, pz, State::Closed);
    }
    if -4 < pz && pz < 4 {
        open.set(px, pz + az, State::Closed);
    }
    proof {
        assert forall|cx: int, cz: int| -4 <= cx <= 4 && -4 <= cz <= 4 implies ((
        #[trigger] open.at(cx, cz)) == State::Closed <==> pre.at(cx, cz) == State::Closed
            || ray_covers(bx as int, bz as int, ax as int, az as int, inc as int, cx, cz)) by {
            assert(pre.at(cx, cz) == State::Closed ==> open.at(cx, cz) == State::Closed);
        }
    }
}

/// Applies the occluder of one blocked column: a blocker on an axis
/// spreads over the three rays on its side, a diagonal blocker over its
/// single ray.
fn occlude_from(open: &mut CenteredArray<State, 4>, bx: i32, bz: i32)
    requires
        old(open).wf(),
        -4 <= bx <= 4,
        -4 <= bz <= 4,
    ensures
        final (open).wf(),
        forall|cx: int, cz: int|
            -4 <= cx <= 4 && -4 <= cz <= 4 ==> ((#[trigger] final (open).at(cx, cz))
                == State::Closed <==> old(open).at(cx, cz) == State::Closed || occludes(
                bx as int,
                bz as int,
                cx,
                cz,
            )),
{
    let sign_x: i32 = if bx > 0 {
        1
    } else if bx < 0 {
        -1
    } else {
        0
    };
    let sign_z: i32 = if bz > 0 {
        1
    } else if bz < 0 {
        -1
    } else {
        0
    };
    assert(sign_x == sign(bx as int) && sign_z == sign(bz as int));
    if bx == 0 {
        // special case: we need to update blocks in both directions
        update_ray(open, bx, bz, -1, sign_z);
        update_ray(open, bx, bz, 0, sign_z);
        update_ray(open, bx, bz, 1, sign_z);
    } else if bz == 0 {
        // special case: we need to update blocks in both directions
        update_ray(open, bx, bz, sign_x, -1);
        update_ray(open, bx, bz, sign_x, 0);
        update_ray(open, bx, bz, sign_x, 1);
    } else {
        // we only update blocks in the direction the blocker is in
        update_ray(open, bx, bz, sign_x, sign_z);
    }
}

/// One expansion: borrows the node being expanded and the global
/// context, and accumulates the cost multiplier of this expansion.
pub struct Movements<'a> {
    on: &'a BlockNode,
    ctx: GlobalContext<'a>,
    current_multiplier: u64,
}

impl<'a> Movements<'a> {
    /// The world this expansion reads.
    pub closed spec fn w(self) -> Map<BlockLocation, SimpleType> {
        self.ctx.world@
    }

    /// The cost table this expansion charges by.
    pub closed spec fn c(self) -> Costs {
        self.ctx.path_config.costs
    }

    /// The location being expanded.
    pub closed spec fn loc_s(self) -> BlockLocation {
        self.on.location
    }

    /// The expansion is usable: the source is addressable and the cost
    /// table is well formed.
    pub open spec fn wf(self) -> bool {
        in_bounds(self.loc_s()) && self.c().wf()
    }

    /// The expansion has not started: no cost scaling applied yet.
    pub closed spec fn fresh(self) -> bool {
        self.current_multiplier == 1
    }

    /// Prepares the expansion of `on` under `ctx`.
    pub fn new(on: &'a BlockNode, ctx: GlobalContext<'a>) -> (r: Self)
        ensures
            r.loc_s() == on.location,
            r.w() == ctx.world@,
            r.c() == ctx.path_config.costs,
            r.fresh(),
    {
        Movements { on, ctx, current_multiplier: 1 }
    }

    /// Increase the cost multiplier by the set amount.
    fn multiply_all_costs_by(&mut self, amount: u64)
        requires
            old(self).current_multiplier * amount <= u64::MAX,
        ensures
            final (self).current_multiplier == old(self).current_multiplier * amount,
            final (self).on == old(self).on,
            final (self).ctx == old(self).ctx,
    {
        self.current_multiplier = self.current_multiplier * amount;
    }

    /// A location relative to the start of the movement.
    fn loc(&self, dx: i32, dy: i16, dz: i32) -> (r: BlockLocation)
        requires
            in_bounds(self.loc_s()),
            -4 <= dx <= 4,
            -2 <= dy <= 2,
            -4 <= dz <= 4,
        ensures
            r == rel(self.loc_s(), dx as int, dy as int, dz as int),
    {
        let BlockLocation { x, y, z } = self.on.location;
        BlockLocation::new(x + dx, y + dy, z + dz)
    }

    /// A fresh node at the location `(dx, dy, dz)` away.
    fn wrap(&self, dx: i32, dy: i16, dz: i32) -> (r: BlockNode)
        requires
            in_bounds(self.loc_s()),
            -4 <= dx <= 4,
            -2 <= dy <= 2,
            -4 <= dz <= 4,
        ensures
            r.location == rel(self.loc_s(), dx as int, dy as int, dz as int),
    {
        let loc = self.loc(dx, dy, dz);
        let mut node = BlockNode::from(self.on);
        node.location = loc;
        node
    }

    /// The cost `base` scaled by the current multiplier.
    fn cost_of(&self, base: u64) -> (r: u64)
        requires
            base * self.current_multiplier <= u64::MAX,
        ensures
            r == base * self.current_multiplier,
    {
        base * self.current_multiplier
    }

    /// A block relative to the start of the movement, or `Edge` when it
    /// is outside the loaded region.
    fn get_block(&self, dx: i32, dy: i16, dz: i32) -> (r: Result<SimpleType, Edge>)
        requires
            in_bounds(self.loc_s()),
            -4 <= dx <= 4,
            -2 <= dy <= 2,
            -4 <= dz <= 4,
        ensures
            match r {
                Ok(t) => block_at(self.w(), self.loc_s(), dx as int, dy as int, dz as int) == Some(
                    t,
                ),
                Err(_) => block_at(self.w(), self.loc_s(), dx as int, dy as int, dz as int)
                    is None,
            },
    {
        let loc = self.loc(dx, dy, dz);
        match self.ctx.world.get_simple(loc) {
            Some(t) => Ok(t),
            None => Err(Edge),
        }
    }

    /// The row a drop from `start` would land on, two rows below and
    /// descending: solid ground within [`MAX_FALL`] rows or water at any
    /// depth lands; a hazard, the void, or too deep a fall refuses.
    /// `Edge` when the scan leaves the loaded region.
    pub fn drop_y(start: BlockLocation, world: &WorldBlocks) -> (r: Result<Option<i16>, Edge>)
        requires
            -32700 <= start.y <= 32700,
        ensures
            match r {
                Ok(Some(y)) => spec_drop_y(world@, start) == Some(Some(y as int)) && 0 <= y
                    <= start.y - 2,
                Ok(None) => spec_drop_y(world@, start) == Some(Option::<int>::None),
                Err(_) => spec_drop_y(world@, start) is None,
            },
    {
        let BlockLocation { x, y: init_y, z } = start;

        // only falling we could do would be into the void
        if init_y < 2 {
            return Ok(None);
        }
        let mut y: i16 = init_y - 2;
        loop
            invariant
                0 <= y <= init_y - 2,
                2 <= init_y <= 32700,
                start == (BlockLocation { x, y: init_y, z }),
                spec_drop_y(world@, start) == drop_scan(
                    world@,
                    x as int,
                    z as int,
                    y as int,
                    init_y as int,
                ),
            decreases y,
        {
            let loc = BlockLocation::new(x, y, z);
            assert(loc == mk_loc(x as int, y as int, z as int));
            match world.get_simple(loc) {
                None => {
                    return Err(Edge);
                },
                Some(SimpleType::Solid) => {
                    let travelled = init_y - y - 1;
                    return Ok(
                        if travelled <= MAX_FALL {
                            Some(y)
                        } else {
                            None
                        },
                    );
                },
                Some(SimpleType::Water) => {
                    return Ok(Some(y));
                },
                Some(SimpleType::Avoid) => {
                    return Ok(None);
                },
                Some(SimpleType::WalkThrough) => {},
            }
            proof {
                assert(spec_get(world@, mk_loc(x as int, y as int, z as int))
                    == Some(SimpleType::WalkThrough));
                assert(drop_scan(world@, x as int, z as int, y as int, init_y as int)
                    == drop_scan(world@, x as int, z as int, y as int - 1, init_y as int));
            }
            if y == 0 {
                proof {
                    assert(drop_scan(world@, x as int, z as int, -1, init_y as int)
                        == Some(Option::<int>::None));
                }
                return Ok(None);
            }
            y = y - 1;
        }
    }

    /// Every scaled cost fits.
    proof fn lemma_cost_fits(self, base: u64)
        requires
            self.c().wf(),
            base == self.c().block_walk || base == self.c().block_parkour || base
                == self.c().ascend || base == self.c().fall,
            self.current_multiplier as int == mult_of(self.w(), self.c(), self.loc_s()),
        ensures
            base * self.current_multiplier <= u64::MAX,
    {
        assert(base * self.current_multiplier <= 1000000000) by (nonlinear_arith)
            requires
                base <= 1000000,
                self.current_multiplier <= 1000,
        ;
    }

    /// Step B: reads the legs and head blocks of the four adjacent
    /// columns and decides where the agent's body fits.
    fn step_adjacent(&self) -> (r: Result<(Vec<SimpleType>, Vec<SimpleType>, Vec<bool>), Edge>)
        requires
            in_bounds(self.loc_s()),
        ensures
            match r {
                Ok((legs, heads, cm)) => {
                    &&& legs@.len() == 4 && heads@.len() == 4 && cm@.len() == 4
                    &&& forall|t: int|
                        0 <= t < 4 ==> Some(#[trigger] legs@[t]) == legs_of(
                            self.w(),
                            self.loc_s(),
                            spec_dir_order()[t],
                        )
                    &&& forall|t: int|
                        0 <= t < 4 ==> Some(#[trigger] heads@[t]) == adj_head_of(
                            self.w(),
                            self.loc_s(),
                            spec_dir_order()[t],
                        )
                    &&& forall|t: int|
                        0 <= t < 4 ==> #[trigger] cm@[t] == can_move_no_place(
                            self.w(),
                            self.loc_s(),
                            spec_dir_order()[t],
                        )
                },
                Err(_) => exists|d: CardinalDirection|
                    (#[trigger] legs_of(self.w(), self.loc_s(), d)) is None || adj_head_of(
                        self.w(),
                        self.loc_s(),
                        d,
                    ) is None,
            },
    {
        let dirs = CardinalDirection::iter();
        let mut adj_legs: Vec<SimpleType> = Vec::new();
        let mut adj_head: Vec<SimpleType> = Vec::new();
        let mut can_move_adj_no_place: Vec<bool> = Vec::new();
        let mut k: usize = 0;
        while k < 4
            invariant
                k <= 4,
                dirs@ == spec_dir_order(),
                in_bounds(self.loc_s()),
                adj_legs@.len() == k && adj_head@.len() == k && can_move_adj_no_place@.len() == k,
                forall|t: int|
                    0 <= t < k ==> Some(#[trigger] adj_legs@[t]) == legs_of(
                        self.w(),
                        self.loc_s(),
                        spec_dir_order()[t],
                    ),
                forall|t: int|
                    0 <= t < k ==> Some(#[trigger] adj_head@[t]) == adj_head_of(
                        self.w(),
                        self.loc_s(),
                        spec_dir_order()[t],
                    ),
                forall|t: int|
                    0 <= t < k ==> #[trigger] can_move_adj_no_place@[t] == can_move_no_place(
                        self.w(),
                        self.loc_s(),
                        spec_dir_order()[t],
                    ),
            decreases 4 - k,
        {
            let dir = dirs[k];
            let Change { dx, dz, .. } = dir.unit_change();
            let legs = match self.get_block(dx, 0, dz) {
                Ok(t) => t,
                Err(e) => {
                    proof {
                        assert(legs_of(self.w(), self.loc_s(), dir) is None);
                    }
                    return Err(e);
                },
            };
            let head = match self.get_block(dx, 1, dz) {
                Ok(t) => t,
                Err(e) => {
                    proof {
                        assert(adj_head_of(self.w(), self.loc_s(), dir) is None);
                    }
                    return Err(e);
                },
            };
            adj_legs.push(legs);
            adj_head.push(head);
            can_move_adj_no_place.push(legs.passable() && head.passable());
            k = k + 1;
        }
        Ok((adj_legs, adj_head, can_move_adj_no_place))
    }

    /// Step C: emits the same-level traversals and records which
    /// directions can be walked without falling.
    fn step_walk(
        &self,
        adj_legs: &Vec<SimpleType>,
        adj_head: &Vec<SimpleType>,
        cm: &Vec<bool>,
        res: &mut Vec<Neighbor<BlockNode>>,
    ) -> (r: Result<Vec<bool>, Edge>)
        requires
            self.wf(),
            self.current_multiplier as int == mult_of(self.w(), self.c(), self.loc_s()),
            adj_legs@.len() == 4 && adj_head@.len() == 4 && cm@.len() == 4,
            forall|t: int|
                0 <= t < 4 ==> Some(#[trigger] adj_legs@[t]) == legs_of(
                    self.w(),
                    self.loc_s(),
                    spec_dir_order()[t],
                ),
            forall|t: int|
                0 <= t < 4 ==> Some(#[trigger] adj_head@[t]) == adj_head_of(
                    self.w(),
                    self.loc_s(),
                    spec_dir_order()[t],
                ),
            forall|t: int|
                0 <= t < 4 ==> #[trigger] cm@[t] == can_move_no_place(
                    self.w(),
                    self.loc_s(),
                    spec_dir_order()[t],
                ),
        ensures
            match r {
                Ok(tr) => {
                    &&& tr@.len() == 4
                    &&& forall|t: int|
                        0 <= t < 4 ==> #[trigger] tr@[t] == walkable(
                            self.w(),
                            self.loc_s(),
                            spec_dir_order()[t],
                        )
                    &&& neighbor_view(final (res)@) == neighbor_view(old(res)@) + walk_upto(
                        self.w(),
                        self.c(),
                        self.loc_s(),
                        4,
                    )
                },
                Err(_) => exists|d: CardinalDirection|
                    #[trigger] can_move_no_place(self.w(), self.loc_s(), d) && adj_floor_of(
                        self.w(),
                        self.loc_s(),
                        d,
                    ) is None,
            },
    {
        let dirs = CardinalDirection::iter();
        let mut traverse: Vec<bool> = Vec::new();
        let mut k: usize = 0;
        while k < 4
            invariant
                k <= 4,
                dirs@ == spec_dir_order(),
                self.wf(),
                self.current_multiplier as int == mult_of(self.w(), self.c(), self.loc_s()),
                adj_legs@.len() == 4 && adj_head@.len() == 4 && cm@.len() == 4,
                forall|t: int|
                    0 <= t < 4 ==> Some(#[trigger] adj_legs@[t]) == legs_of(
                        self.w(),
                        self.loc_s(),
                        spec_dir_order()[t],
                    ),
                forall|t: int|
                    0 <= t < 4 ==> Some(#[trigger] adj_head@[t]) == adj_head_of(
                        self.w(),
                        self.loc_s(),
                        spec_dir_order()[t],
                    ),
                forall|t: int|
                    0 <= t < 4 ==> #[trigger] cm@[t] == can_move_no_place(
                        self.w(),
                        self.loc_s(),
                        spec_dir_order()[t],
                    ),
                traverse@.len() == k,
                forall|t: int|
                    0 <= t < k ==> #[trigger] traverse@[t] == walkable(
                        self.w(),
                        self.loc_s(),
                        spec_dir_order()[t],
                    ),
                neighbor_view(res@) == neighbor_view(old(res)@) + walk_upto(
                    self.w(),
                    self.c(),
                    self.loc_s(),
                    k as int,
                ),
            decreases 4 - k,
        {
            let dir = dirs[k];
            let Change { dx, dz, .. } = dir.unit_change();
            let mut walkable_here = false;
            if cm[k] {
                let floor = match self.get_block(dx, -1, dz) {
                    Ok(t) => t,
                    Err(e) => {
                        proof {
                            assert(can_move_no_place(self.w(), self.loc_s(), dir) && adj_floor_of(
                                self.w(),
                                self.loc_s(),
                                dir,
                            ) is None);
                        }
                        return Err(e);
                    },
                };
                walkable_here = floor == SimpleType::Solid || adj_legs[k] == SimpleType::Water
                    || adj_head[k] == SimpleType::Water;
                if walkable_here {
                    proof {
                        self.lemma_cost_fits(self.c().block_walk);
                    }
                    let n = Neighbor {
                        value: self.wrap(dx, 0, dz),
                        cost: self.cost_of(self.ctx.path_config.costs.block_walk),
                    };
                    proof {
                        lemma_neighbor_view_push(res@, n);
                    }
                    res.push(n);
                }
            }
            proof {
                assert(walkable_here == walkable(self.w(), self.loc_s(), dir));
                assert(neighbor_view(res@) =~= neighbor_view(old(res)@) + walk_upto(
                    self.w(),
                    self.c(),
                    self.loc_s(),
                    k + 1,
                ));
            }
            traverse.push(walkable_here);
            k = k + 1;
        }
        Ok(traverse)
    }

    /// Step D: emits the survivable descends.
    fn step_descend(
        &self,
        cm: &Vec<bool>,
        tr: &Vec<bool>,
        res: &mut Vec<Neighbor<BlockNode>>,
    ) -> (r: Result<(), Edge>)
        requires
            self.wf(),
            self.current_multiplier as int == mult_of(self.w(), self.c(), self.loc_s()),
            cm@.len() == 4 && tr@.len() == 4,
            forall|t: int|
                0 <= t < 4 ==> #[trigger] cm@[t] == can_move_no_place(
                    self.w(),
                    self.loc_s(),
                    spec_dir_order()[t],
                ),
            forall|t: int|
                0 <= t < 4 ==> #[trigger] tr@[t] == walkable(
                    self.w(),
                    self.loc_s(),
                    spec_dir_order()[t],
                ),
        ensures
            match r {
                Ok(_) => {
                    &&& forall|d: CardinalDirection| #[trigger] descend_ok(self.w(), self.loc_s(), d)
                    &&& neighbor_view(final (res)@) == neighbor_view(old(res)@) + descend_upto(
                        self.w(),
                        self.c(),
                        self.loc_s(),
                        4,
                    )
                },
                Err(_) => exists|d: CardinalDirection|
                    !#[trigger] descend_ok(self.w(), self.loc_s(), d),
            },
    {
        let dirs = CardinalDirection::iter();
        let mut k: usize = 0;
        while k < 4
            invariant
                k <= 4,
                dirs@ == spec_dir_order(),
                self.wf(),
                self.current_multiplier as int == mult_of(self.w(), self.c(), self.loc_s()),
                cm@.len() == 4 && tr@.len() == 4,
                forall|t: int|
                    0 <= t < 4 ==> #[trigger] cm@[t] == can_move_no_place(
                        self.w(),
                        self.loc_s(),
                        spec_dir_order()[t],
                    ),
                forall|t: int|
                    0 <= t < 4 ==> #[trigger] tr@[t] == walkable(
                        self.w(),
                        self.loc_s(),
                        spec_dir_order()[t],
                    ),
                forall|t: int|
                    0 <= t < k ==> #[trigger] descend_ok(self.w(), self.loc_s(), spec_dir_order()[t]),
                neighbor_view(res@) == neighbor_view(old(res)@) + descend_upto(
                    self.w(),
                    self.c(),
                    self.loc_s(),
                    k as int,
                ),
            decreases 4 - k,
        {
            let dir = dirs[k];
            let Change { dx, dz, .. } = dir.unit_change();
            let floor = match self.get_block(dx, -1, dz) {
                Ok(t) => t,
                Err(e) => {
                    proof {
                        assert(!descend_ok(self.w(), self.loc_s(), dir));
                    }
                    return Err(e);
                },
            };
            if cm[k] && !tr[k] && floor != SimpleType::Avoid {
                let start = self.loc(dx, 0, dz);
                let collided_y = match Self::drop_y(start, self.ctx.world) {
                    Ok(o) => o,
                    Err(e) => {
                        proof {
                            assert(descend_tried(self.w(), self.loc_s(), dir));
                            assert(!descend_ok(self.w(), self.loc_s(), dir));
                        }
                        return Err(e);
                    },
                };
                if let Some(collided_y) = collided_y {
                    let mut new_pos = self.loc(dx, 0, dz);
                    new_pos.y = collided_y + 1;

                    let mut value = BlockNode::from(self.on);
                    value.location = new_pos;

                    proof {
                        self.lemma_cost_fits(self.c().fall);
                    }
                    let n = Neighbor { value, cost: self.cost_of(self.ctx.path_config.costs.fall) };
                    proof {
                        assert(n.value.location == mk_loc(
                            self.loc_s().x + spec_dir_dx(dir),
                            collided_y + 1,
                            self.loc_s().z + spec_dir_dz(dir),
                        ));
                        lemma_neighbor_view_push(res@, n);
                    }
                    res.push(n);
                }
            }
            proof {
                assert(descend_ok(self.w(), self.loc_s(), dir));
                assert(neighbor_view(res@) =~= neighbor_view(old(res)@) + descend_upto(
                    self.w(),
                    self.c(),
                    self.loc_s(),
                    k + 1,
                ));
            }
            k = k + 1;
        }
        proof {
            assert forall|d: CardinalDirection| #[trigger]
                descend_ok(self.w(), self.loc_s(), d) by {
                if d == CardinalDirection::North {
                    assert(spec_dir_order()[0] == d);
                } else if d == CardinalDirection::South {
                    assert(spec_dir_order()[1] == d);
                } else if d == CardinalDirection::West {
                    assert(spec_dir_order()[2] == d);
                } else {
                    assert(spec_dir_order()[3] == d);
                }
            }
        }
        Ok(())
    }

    /// Step F: emits the micro-jumps (one block up and one sideways).
    fn step_micro(
        &self,
        above: SimpleType,
        floorc: SimpleType,
        feet: SimpleType,
        adj_legs: &Vec<SimpleType>,
        adj_head: &Vec<SimpleType>,
        cm: &Vec<bool>,
        res: &mut Vec<Neighbor<BlockNode>>,
    ) -> (r: Result<(), Edge>)
        requires
            self.wf(),
            self.current_multiplier as int == mult_of(self.w(), self.c(), self.loc_s()),
            Some(above) == above_of(self.w(), self.loc_s()),
            Some(floorc) == floor_center_of(self.w(), self.loc_s()),
            Some(feet) == feet_of(self.w(), self.loc_s()),
            adj_legs@.len() == 4 && adj_head@.len() == 4 && cm@.len() == 4,
            forall|t: int|
                0 <= t < 4 ==> Some(#[trigger] adj_legs@[t]) == legs_of(
                    self.w(),
                    self.loc_s(),
                    spec_dir_order()[t],
                ),
            forall|t: int|
                0 <= t < 4 ==> Some(#[trigger] adj_head@[t]) == adj_head_of(
                    self.w(),
                    self.loc_s(),
                    spec_dir_order()[t],
                ),
            forall|t: int|
                0 <= t < 4 ==> #[trigger] cm@[t] == can_move_no_place(
                    self.w(),
                    self.loc_s(),
                    spec_dir_order()[t],
                ),
        ensures
            match r {
                Ok(_) => {
                    &&& can_micro_jump(self.w(), self.loc_s()) ==> forall|d: CardinalDirection|
                        !(#[trigger] can_move_no_place(self.w(), self.loc_s(), d)) ==> adj_above_of(
                            self.w(),
                            self.loc_s(),
                            d,
                        ).is_some()
                    &&& neighbor_view(final (res)@) == neighbor_view(old(res)@) + micro_upto(
                        self.w(),
                        self.c(),
                        self.loc_s(),
                        4,
                    )
                },
                Err(_) => can_micro_jump(self.w(), self.loc_s()) && exists|d: CardinalDirection|
                    !(#[trigger] can_move_no_place(self.w(), self.loc_s(), d)) && adj_above_of(
                        self.w(),
                        self.loc_s(),
                        d,
                    ) is None,
            },
    {
        let can_micro = above == SimpleType::WalkThrough && (floorc == SimpleType::Solid || feet
            == SimpleType::Water);
        proof {
            assert(can_micro == can_micro_jump(self.w(), self.loc_s()));
        }
        if !can_micro {
            proof {
                lemma_micro_upto_empty(self.w(), self.c(), self.loc_s(), 4);
                assert(neighbor_view(res@) =~= neighbor_view(res@) + micro_upto(
                    self.w(),
                    self.c(),
                    self.loc_s(),
                    4,
                ));
            }
            return Ok(());
        }
        let dirs = CardinalDirection::iter();
        let mut k: usize = 0;
        while k < 4
            invariant
                k <= 4,
                dirs@ == spec_dir_order(),
                self.wf(),
                self.current_multiplier as int == mult_of(self.w(), self.c(), self.loc_s()),
                can_micro_jump(self.w(), self.loc_s()),
                adj_legs@.len() == 4 && adj_head@.len() == 4 && cm@.len() == 4,
                forall|t: int|
                    0 <= t < 4 ==> Some(#[trigger] adj_legs@[t]) == legs_of(
                        self.w(),
                        self.loc_s(),
                        spec_dir_order()[t],
                    ),
                forall|t: int|
                    0 <= t < 4 ==> Some(#[trigger] adj_head@[t]) == adj_head_of(
                        self.w(),
                        self.loc_s(),
                        spec_dir_order()[t],
                    ),
                forall|t: int|
                    0 <= t < 4 ==> #[trigger] cm@[t] == can_move_no_place(
                        self.w(),
                        self.loc_s(),
                        spec_dir_order()[t],
                    ),
                forall|t: int|
                    0 <= t < k ==> !can_move_no_place(
                        self.w(),
                        self.loc_s(),
                        #[trigger] spec_dir_order()[t],
                    ) ==> adj_above_of(self.w(), self.loc_s(), spec_dir_order()[t]).is_some(),
                neighbor_view(res@) == neighbor_view(old(res)@) + micro_upto(
                    self.w(),
                    self.c(),
                    self.loc_s(),
                    k as int,
                ),
            decreases 4 - k,
        {
            let dir = dirs[k];
            let Change { dx, dz, .. } = dir.unit_change();
            // we can only move if we couldn't move adjacent without
            // changing elevation
            if !cm[k] {
                let adj_above = match self.get_block(dx, 2, dz) {
                    Ok(t) => t,
                    Err(e) => {
                        proof {
                            assert(!can_move_no_place(self.w(), self.loc_s(), dir) && adj_above_of(
                                self.w(),
                                self.loc_s(),
                                dir,
                            ) is None);
                        }
                        return Err(e);
                    },
                };
                let can_jump_here = adj_above.passable() && adj_legs[k] == SimpleType::Solid
                    && adj_head[k].passable();
                if can_jump_here {
                    proof {
                        self.lemma_cost_fits(self.c().ascend);
                    }
                    let n = Neighbor {
                        value: self.wrap(dx, 1, dz),
                        cost: self.cost_of(self.ctx.path_config.costs.ascend),
                    };
                    proof {
                        lemma_neighbor_view_push(res@, n);
                    }
                    res.push(n);
                }
            }
            proof {
                assert(neighbor_view(res@) =~= neighbor_view(old(res)@) + micro_upto(
                    self.w(),
                    self.c(),
                    self.loc_s(),
                    k + 1,
                ));
            }
            k = k + 1;
        }
        proof {
            assert forall|d: CardinalDirection|
                !(#[trigger] can_move_no_place(self.w(), self.loc_s(), d)) implies adj_above_of(
                self.w(),
                self.loc_s(),
                d,
            ).is_some() by {
                if d == CardinalDirection::North {
                    assert(spec_dir_order()[0] == d);
                } else if d == CardinalDirection::South {
                    assert(spec_dir_order()[1] == d);
                } else if d == CardinalDirection::West {
                    assert(spec_dir_order()[2] == d);
                } else {
                    assert(spec_dir_order()[3] == d);
                }
            }
        }
        Ok(())
    }

    /// Step G part one: scans the parkour square and collects the cells
    /// whose column the agent cannot leap through.
    fn collect_not_jumpable(&self) -> (r: Result<Vec<(i32, i32)>, Edge>)
        requires
            in_bounds(self.loc_s()),
        ensures
            match r {
                Ok(v) => {
                    &&& forall|cx: int, cz: int|
                        -4 <= cx <= 4 && -4 <= cz <= 4 ==> #[trigger] col_loaded(
                            self.w(),
                            self.loc_s(),
                            cx,
                            cz,
                        )
                    &&& forall|j: int|
                        0 <= j < v@.len() ==> -4 <= (#[trigger] v@[j]).0 <= 4 && -4 <= v@[j].1 <= 4
                            && !column_clear(
                            self.w(),
                            self.loc_s(),
                            v@[j].0 as int,
                            v@[j].1 as int,
                        )
                    &&& forall|cx: int, cz: int|
                        -4 <= cx <= 4 && -4 <= cz <= 4 && !column_clear(
                            self.w(),
                            self.loc_s(),
                            cx,
                            cz,
                        ) ==> #[trigger] nj_contains(v@, cx, cz)
                },
                Err(_) => exists|cx: int, cz: int|
                    -4 <= cx <= 4 && -4 <= cz <= 4 && !(#[trigger] col_loaded(
                        self.w(),
                        self.loc_s(),
                        cx,
                        cz,
                    )),
            },
    {
        let mut not_jumpable: Vec<(i32, i32)> = Vec::new();
        let mut i: usize = 0;
        while i < 81
            invariant
                i <= 81,
                in_bounds(self.loc_s()),
                forall|cx: int, cz: int|
                    -4 <= cx <= 4 && -4 <= cz <= 4 && (cx + 4) * 9 + (cz + 4) < i
                        ==> #[trigger] col_loaded(self.w(), self.loc_s(), cx, cz),
                forall|j: int|
                    0 <= j < not_jumpable@.len() ==> -4 <= (#[trigger] not_jumpable@[j]).0 <= 4 && -4
                        <= not_jumpable@[j].1 <= 4 && !column_clear(
                        self.w(),
                        self.loc_s(),
                        not_jumpable@[j].0 as int,
                        not_jumpable@[j].1 as int,
                    ),
                forall|cx: int, cz: int|
                    -4 <= cx <= 4 && -4 <= cz <= 4 && (cx + 4) * 9 + (cz + 4) < i && !column_clear(
                        self.w(),
                        self.loc_s(),
                        cx,
                        cz,
                    ) ==> #[trigger] nj_contains(not_jumpable@, cx, cz),
            decreases 81 - i,
        {
            let (dx, dz) = Self::cell_offsets(i);
            let ghost pre_nj = not_jumpable@;
            let adj_above = match self.get_block(dx, 2, dz) {
                Ok(t) => t,
                Err(e) => {
                    proof {
                        assert(!col_loaded(self.w(), self.loc_s(), dx as int, dz as int));
                    }
                    return Err(e);
                },
            };
            let adj_head = match self.get_block(dx, 1, dz) {
                Ok(t) => t,
                Err(e) => {
                    proof {
                        assert(!col_loaded(self.w(), self.loc_s(), dx as int, dz as int));
                    }
                    return Err(e);
                },
            };
            let adj_feet = match self.get_block(dx, 0, dz) {
                Ok(t) => t,
                Err(e) => {
                    proof {
                        assert(!col_loaded(self.w(), self.loc_s(), dx as int, dz as int));
                    }
                    return Err(e);
                },
            };
            let clear = adj_above == SimpleType::WalkThrough && adj_head == SimpleType::WalkThrough
                && adj_feet == SimpleType::WalkThrough;
            proof {
                assert(clear == column_clear(self.w(), self.loc_s(), dx as int, dz as int));
            }
            if !clear {
                not_jumpable.push((dx, dz));
            }
            proof {
                assert(forall|j: int|
                    0 <= j < pre_nj.len() ==> not_jumpable@[j] == #[trigger] pre_nj[j]);
                assert forall|cx: int, cz: int|
                    -4 <= cx <= 4 && -4 <= cz <= 4 && (cx + 4) * 9 + (cz + 4) < i
                        + 1 implies #[trigger] col_loaded(self.w(), self.loc_s(), cx, cz) by {
                    if (cx + 4) * 9 + (cz + 4) == i {
                        lemma_cell_decomp(cx + 4, cz + 4);
                        assert(cx == dx as int && cz == dz as int);
                    }
                }
                assert forall|cx: int, cz: int|
                    -4 <= cx <= 4 && -4 <= cz <= 4 && (cx + 4) * 9 + (cz + 4) < i + 1
                        && !column_clear(
                        self.w(),
                        self.loc_s(),
                        cx,
                        cz,
                    ) implies #[trigger] nj_contains(not_jumpable@, cx, cz) by {
                    if (cx + 4) * 9 + (cz + 4) == i {
                        lemma_cell_decomp(cx + 4, cz + 4);
                        assert(cx == dx as int && cz == dz as int);
                        assert(not_jumpable@[not_jumpable@.len() - 1] == (dx, dz));
                        assert(nj_contains(not_jumpable@, cx, cz));
                    } else {
                        assert(nj_contains(pre_nj, cx, cz));
                        let j = choose|j: int|
                            0 <= j < pre_nj.len() && pre_nj[j].0 == cx && pre_nj[j].1 == cz;
                        assert(not_jumpable@[j].0 == cx && not_jumpable@[j].1 == cz);
                        assert(nj_contains(not_jumpable@, cx, cz));
                    }
                }
            }
            i = i + 1;
        }
        Ok(not_jumpable)
    }

    /// The lateral offsets of scan cell `i` in lexicographic order.
    fn cell_offsets(i: usize) -> (r: (i32, i32))
        requires
            i < 81,
        ensures
            r.0 as int == cell_dx(i as int),
            r.1 as int == cell_dz(i as int),
            -4 <= r.0 <= 4,
            -4 <= r.1 <= 4,
            (r.0 as int + 4) * 9 + (r.1 as int + 4) == i as int,
    {
        proof {
            assert(0 <= (i as int) / 9 <= 8 && 0 <= (i as int) % 9 <= 8 && ((i as int) / 9) * 9 + (
            i as int) % 9 == i as int) by (nonlinear_arith)
                requires
                    0 <= i < 81,
            ;
        }
        ((i / 9) as i32 - 4, (i % 9) as i32 - 4)
    }

    /// Step G: emits the multi-block parkour leaps.  The square of
    /// radius four around the agent is scanned; columns the agent
    /// cannot leap through occlude the cells behind them; every still
    /// reachable cell with a solid floor inside the jumpable ring
    /// becomes a landing.
    fn step_parkour(
        &self,
        above: SimpleType,
        floorc: SimpleType,
        res: &mut Vec<Neighbor<BlockNode>>,
    ) -> (r: Result<(), Edge>)
        requires
            self.wf(),
            self.current_multiplier as int == mult_of(self.w(), self.c(), self.loc_s()),
            Some(above) == above_of(self.w(), self.loc_s()),
            Some(floorc) == floor_center_of(self.w(), self.loc_s()),
        ensures
            match r {
                Ok(_) => {
                    &&& can_jump(self.w(), self.loc_s()) ==> forall|cx: int, cz: int|
                        -4 <= cx <= 4 && -4 <= cz <= 4 ==> #[trigger] parkour_cell_loaded(
                            self.w(),
                            self.loc_s(),
                            cx,
                            cz,
                        )
                    &&& neighbor_view(final (res)@) == neighbor_view(old(res)@) + parkour_seq(
                        self.w(),
                        self.c(),
                        self.loc_s(),
                    )
                },
                Err(_) => can_jump(self.w(), self.loc_s()) && exists|cx: int, cz: int|
                    -4 <= cx <= 4 && -4 <= cz <= 4 && !(#[trigger] parkour_cell_loaded(
                        self.w(),
                        self.loc_s(),
                        cx,
                        cz,
                    )),
            },
    {
        // can full multi-block jump (i.e., jumping on bedrock)
        let can_jump_b = above == SimpleType::WalkThrough && floorc != SimpleType::Water;
        proof {
            assert(can_jump_b == can_jump(self.w(), self.loc_s()));
        }
        if !can_jump_b {
            proof {
                assert(neighbor_view(res@) =~= neighbor_view(res@) + parkour_seq(
                    self.w(),
                    self.c(),
                    self.loc_s(),
                ));
            }
            return Ok(());
        }
        let not_jumpable = match self.collect_not_jumpable() {
            Ok(v) => v,
            Err(e) => {
                proof {
                    let (cx, cz) = choose|cx: int, cz: int|
                        -4 <= cx <= 4 && -4 <= cz <= 4 && !(#[trigger] col_loaded(
                            self.w(),
                            self.loc_s(),
                            cx,
                            cz,
                        ));
                    assert(!parkour_cell_loaded(self.w(), self.loc_s(), cx, cz));
                }
                return Err(e);
            },
        };

        let mut open = CenteredArray::<State, 4>::init(State::Open);
        // so we do not add the origin (it is already added)
        open.set(0, 0, State::Closed);

        // we iterate through every single block which is not jumpable
        // and close the blocks behind it as well
        let mut j: usize = 0;
        while j < not_jumpable.len()
            invariant
                j <= not_jumpable.len(),
                open.wf(),
                forall|t: int|
                    0 <= t < not_jumpable@.len() ==> -4 <= (#[trigger] not_jumpable@[t]).0 <= 4 && -4
                        <= not_jumpable@[t].1 <= 4,
                forall|cx: int, cz: int|
                    -4 <= cx <= 4 && -4 <= cz <= 4 ==> ((#[trigger] open.at(cx, cz))
                        == State::Closed <==> (cx == 0 && cz == 0) || exists|t: int|
                        0 <= t < j && #[trigger] occludes(
                            not_jumpable@[t].0 as int,
                            not_jumpable@[t].1 as int,
                            cx,
                            cz,
                        )),
            decreases not_jumpable.len() - j,
        {
            let (block_dx, block_dz) = not_jumpable[j];
            let ghost pre = open;
            occlude_from(&mut open, block_dx, block_dz);
            proof {
                assert forall|cx: int, cz: int| -4 <= cx <= 4 && -4 <= cz <= 4 implies ((
                #[trigger] open.at(cx, cz)) == State::Closed <==> (cx == 0 && cz == 0) || exists|
                    t: int,
                |
                    0 <= t < j + 1 && #[trigger] occludes(
                        not_jumpable@[t].0 as int,
                        not_jumpable@[t].1 as int,
                        cx,
                        cz,
                    )) by {
                    if open.at(cx, cz) == State::Closed {
                        if pre.at(cx, cz) != State::Closed {
                            assert(occludes(
                                not_jumpable@[j as int].0 as int,
                                not_jumpable@[j as int].1 as int,
                                cx,
                                cz,
                            ));
                        }
                    } else {
                        assert(pre.at(cx, cz) != State::Closed);
                        assert(!occludes(
                            not_jumpable@[j as int].0 as int,
                            not_jumpable@[j as int].1 as int,
                            cx,
                            cz,
                        ));
                        assert(forall|t: int|
                            0 <= t < j ==> !#[trigger] occludes(
                                not_jumpable@[t].0 as int,
                                not_jumpable@[t].1 as int,
                                cx,
                                cz,
                            ));
                    }
                }
            }
            j = j + 1;
        }

        proof {
            assert forall|cx: int, cz: int| -4 <= cx <= 4 && -4 <= cz <= 4 implies ((
            #[trigger] open.at(cx, cz)) == State::Open <==> parkour_open(
                self.w(),
                self.loc_s(),
                cx,
                cz,
            )) by {
                if open.at(cx, cz) == State::Open {
                    assert(!(cx == 0 && cz == 0));
                    assert forall|bx: int, bz: int|
                        -4 <= bx <= 4 && -4 <= bz <= 4 && !column_clear(
                            self.w(),
                            self.loc_s(),
                            bx,
                            bz,
                        ) implies !#[trigger] occludes(bx, bz, cx, cz) by {
                        assert(nj_contains(not_jumpable@, bx, bz));
                        let t = choose|t: int|
                            0 <= t < not_jumpable@.len() && not_jumpable@[t].0 == bx
                                && not_jumpable@[t].1 == bz;
                        assert(!occludes(
                            not_jumpable@[t].0 as int,
                            not_jumpable@[t].1 as int,
                            cx,
                            cz,
                        ));
                    }
                } else {
                    if cx == 0 && cz == 0 {
                        assert(!parkour_open(self.w(), self.loc_s(), cx, cz));
                    } else {
                        let t = choose|t: int|
                            0 <= t < not_jumpable@.len() && #[trigger] occludes(
                                not_jumpable@[t].0 as int,
                                not_jumpable@[t].1 as int,
                                cx,
                                cz,
                            );
                        let bx = not_jumpable@[t].0 as int;
                        let bz = not_jumpable@[t].1 as int;
                        assert(!column_clear(self.w(), self.loc_s(), bx, bz));
                        assert(!parkour_open(self.w(), self.loc_s(), cx, cz));
                    }
                }
            }
        }

        let ghost entry_res = res@;
        let mut i: usize = 0;
        while i < 81
            invariant
                i <= 81,
                self.wf(),
                self.current_multiplier as int == mult_of(self.w(), self.c(), self.loc_s()),
                can_jump(self.w(), self.loc_s()),
                open.wf(),
                forall|cx: int, cz: int|
                    -4 <= cx <= 4 && -4 <= cz <= 4 ==> ((#[trigger] open.at(cx, cz)) == State::Open
                        <==> parkour_open(self.w(), self.loc_s(), cx, cz)),
                forall|cx: int, cz: int|
                    -4 <= cx <= 4 && -4 <= cz <= 4 ==> #[trigger] col_loaded(
                        self.w(),
                        self.loc_s(),
                        cx,
                        cz,
                    ),
                forall|cx: int, cz: int|
                    -4 <= cx <= 4 && -4 <= cz <= 4 && (cx + 4) * 9 + (cz + 4) < i
                        ==> (#[trigger] block_at(self.w(), self.loc_s(), cx, -1, cz)).is_some(),
                neighbor_view(res@) == neighbor_view(entry_res) + parkour_upto(
                    self.w(),
                    self.c(),
                    self.loc_s(),
                    i as int,
                ),
            decreases 81 - i,
        {
            let (dx, dz) = Self::cell_offsets(i);
            let is_open = open.get(dx, dz) == State::Open;
            let same_y = match self.get_block(dx, -1, dz) {
                Ok(t) => t,
                Err(e) => {
                    proof {
                        assert(!parkour_cell_loaded(
                            self.w(),
                            self.loc_s(),
                            dx as int,
                            dz as int,
                        ));
                    }
                    return Err(e);
                },
            };
            let same_y_possible = same_y == SimpleType::Solid;
            proof {
                assert(0 <= dx * dx <= 16 && 0 <= dz * dz <= 16) by (nonlinear_arith)
                    requires
                        -4 <= dx <= 4 && -4 <= dz <= 4,
                ;
            }
            let rad2 = dx * dx + dz * dz;
            if same_y_possible && 2 <= rad2 && rad2 <= 20 && is_open {
                proof {
                    self.lemma_cost_fits(self.c().block_parkour);
                    assert(parkour_emitted(self.w(), self.loc_s(), dx as int, dz as int));
                }
                let n = Neighbor {
                    value: self.wrap(dx, 0, dz),
                    cost: self.cost_of(self.ctx.path_config.costs.block_parkour),
                };
                proof {
                    lemma_neighbor_view_push(res@, n);
                }
                res.push(n);
            } else {
                proof {
                    assert(!parkour_emitted(self.w(), self.loc_s(), dx as int, dz as int));
                }
            }
            proof {
                assert(neighbor_view(res@) =~= neighbor_view(entry_res) + parkour_upto(
                    self.w(),
                    self.c(),
                    self.loc_s(),
                    i + 1,
                ));
                assert forall|cx: int, cz: int|
                    -4 <= cx <= 4 && -4 <= cz <= 4 && (cx + 4) * 9 + (cz + 4) < i + 1 implies (
                #[trigger] block_at(self.w(), self.loc_s(), cx, -1, cz)).is_some() by {
                    if (cx + 4) * 9 + (cz + 4) == i {
                        lemma_cell_decomp(cx + 4, cz + 4);
                        assert(cx == dx as int && cz == dz as int);
                    }
                }
            }
            i = i + 1;
        }
        proof {
            assert forall|cx: int, cz: int|
                -4 <= cx <= 4 && -4 <= cz <= 4 implies #[trigger] parkour_cell_loaded(
                self.w(),
                self.loc_s(),
                cx,
                cz,
            ) by {
                assert(col_loaded(self.w(), self.loc_s(), cx, cz));
                assert((cx + 4) * 9 + (cz + 4) < 81) by (nonlinear_arith)
                    requires
                        -4 <= cx <= 4 && -4 <= cz <= 4,
                ;
                assert(block_at(self.w(), self.loc_s(), cx, -1, cz).is_some());
            }
        }
        Ok(())
    }

    /// Reads the head block and scales every further cost by the
    /// no-breathe multiplier when the agent's head is under water.
    fn check_head(&mut self) -> (r: Result<SimpleType, Edge>)
        requires
            old(self).wf(),
            old(self).fresh(),
        ensures
            final (self).on == old(self).on,
            final (self).ctx == old(self).ctx,
            match r {
                Ok(t) => head_of(old(self).w(), old(self).loc_s()) == Some(t) && final (self).current_multiplier as int
                    == mult_of(old(self).w(), old(self).c(), old(self).loc_s()),
                Err(_) => head_of(old(self).w(), old(self).loc_s()) is None,
            },
    {
        // our current head block
        let head = match self.get_block(0, 1, 0) {
            Ok(t) => t,
            Err(e) => {
                return Err(e);
            },
        };
        if head == SimpleType::Water {
            let amount = self.ctx.path_config.costs.no_breathe_mult;
            self.multiply_all_costs_by(amount);
        }
        Ok(head)
    }

    /// Computes all neighbors reachable in one locomotion step, or
    /// `Edge` when a required lookup left the loaded region.  The
    /// result is exactly [`spec_movements`]: same-level walks, then
    /// descends, vertical water moves, micro-jumps and parkour leaps,
    /// each in canonical order.
    pub fn obtain_all(self) -> (r: Progression<BlockNode>)
        requires
            self.wf(),
            self.fresh(),
        ensures
            match r {
                Progression::Movements(ns) => all_loaded(self.w(), self.loc_s()) && neighbor_view(
                    ns@,
                ) == spec_movements(self.w(), self.c(), self.loc_s()),
                Progression::Edge => !all_loaded(self.w(), self.loc_s()),
            },
    {
        match self.obtain_all_internal() {
            Ok(elem) => Progression::Movements(elem),
            Err(_) => Progression::Edge,
        }
    }

    fn obtain_all_internal(self) -> (r: Result<Vec<Neighbor<BlockNode>>, Edge>)
        requires
            self.wf(),
            self.fresh(),
        ensures
            match r {
                Ok(v) => all_loaded(self.w(), self.loc_s()) && neighbor_view(v@) == spec_movements(
                    self.w(),
                    self.c(),
                    self.loc_s(),
                ),
                Err(_) => !all_loaded(self.w(), self.loc_s()),
            },
    {
        let mut this = self;
        let ghost w = this.w();
        let ghost c = this.c();
        let ghost on = this.loc_s();

        let head = match this.check_head() {
            Ok(t) => t,
            Err(e) => {
                proof {
                    assert(!all_loaded(w, on));
                }
                return Err(e);
            },
        };

        // cache adjacent leg and head block types, and whether the body
        // fits into each adjacent column
        let (adj_legs, adj_head, cm) = match this.step_adjacent() {
            Ok(t) => t,
            Err(e) => {
                proof {
                    let d = choose|d: CardinalDirection|
                        (#[trigger] legs_of(w, on, d)) is None || adj_head_of(w, on, d) is None;
                    assert(!((legs_of(w, on, d)).is_some() && adj_head_of(w, on, d).is_some()));
                    assert(!all_loaded(w, on));
                }
                return Err(e);
            },
        };

        // what we are going to return as progressions
        let mut res: Vec<Neighbor<BlockNode>> = Vec::new();

        // moving adjacent without changing elevation
        let tr = match this.step_walk(&adj_legs, &adj_head, &cm, &mut res) {
            Ok(t) => t,
            Err(e) => {
                proof {
                    let d = choose|d: CardinalDirection|
                        #[trigger] can_move_no_place(w, on, d) && adj_floor_of(w, on, d) is None;
                    assert(!descend_ok(w, on, d));
                    assert(!all_loaded(w, on));
                }
                return Err(e);
            },
        };

        // descending adjacent
        match this.step_descend(&cm, &tr, &mut res) {
            Ok(_) => {},
            Err(e) => {
                proof {
                    let d = choose|d: CardinalDirection| !#[trigger] descend_ok(w, on, d);
                    assert(!all_loaded(w, on));
                }
                return Err(e);
            },
        }

        let above = match this.get_block(0, 2, 0) {
            Ok(t) => t,
            Err(e) => {
                proof {
                    assert(above_of(w, on) is None);
                    assert(!all_loaded(w, on));
                }
                return Err(e);
            },
        };
        let floorc = match this.get_block(0, -1, 0) {
            Ok(t) => t,
            Err(e) => {
                proof {
                    assert(floor_center_of(w, on) is None);
                    assert(!all_loaded(w, on));
                }
                return Err(e);
            },
        };
        let feet = match this.get_block(0, 0, 0) {
            Ok(t) => t,
            Err(e) => {
                proof {
                    assert(feet_of(w, on) is None);
                    assert(!all_loaded(w, on));
                }
                return Err(e);
            },
        };

        // vertical movement in a water column
        let ghost before_water = res@;
        if above == SimpleType::Water || head == SimpleType::Water && above
            == SimpleType::WalkThrough {
            proof {
                this.lemma_cost_fits(this.c().ascend);
            }
            let n = Neighbor {
                value: this.wrap(0, 1, 0),
                cost: this.cost_of(this.ctx.path_config.costs.ascend),
            };
            proof {
                lemma_neighbor_view_push(res@, n);
            }
            res.push(n);
        }
        if floorc == SimpleType::Water || (floorc == SimpleType::WalkThrough && head
            == SimpleType::Water) {
            proof {
                this.lemma_cost_fits(this.c().ascend);
            }
            let n = Neighbor {
                value: this.wrap(0, -1, 0),
                cost: this.cost_of(this.ctx.path_config.costs.ascend),
            };
            proof {
                lemma_neighbor_view_push(res@, n);
            }
            res.push(n);
        }
        proof {
            assert(neighbor_view(res@) =~= neighbor_view(before_water) + water_seq(w, c, on));
        }

        // ascending adjacent by a micro-jump
        match this.step_micro(above, floorc, feet, &adj_legs, &adj_head, &cm, &mut res) {
            Ok(_) => {},
            Err(e) => {
                proof {
                    let d = choose|d: CardinalDirection|
                        !(#[trigger] can_move_no_place(w, on, d)) && adj_above_of(w, on, d) is None;
                    assert(!(forall|d: CardinalDirection|
                        !(#[trigger] can_move_no_place(w, on, d)) ==> adj_above_of(
                            w,
                            on,
                            d,
                        ).is_some()));
                    assert(!all_loaded(w, on));
                }
                return Err(e);
            },
        }

        // multi-block parkour
        match this.step_parkour(above, floorc, &mut res) {
            Ok(_) => {},
            Err(e) => {
                proof {
                    let (cx, cz) = choose|cx: int, cz: int|
                        -4 <= cx <= 4 && -4 <= cz <= 4 && !(#[trigger] parkour_cell_loaded(
                            w,
                            on,
                            cx,
                            cz,
                        ));
                    assert(!((block_at(w, on, cx, 2, cz)).is_some() && block_at(
                        w,
                        on,
                        cx,
                        1,
                        cz,
                    ).is_some() && block_at(w, on, cx, 0, cz).is_some() && block_at(
                        w,
                        on,
                        cx,
                        -1,
                        cz,
                    ).is_some()));
                    assert(!all_loaded(w, on));
                }
                return Err(e);
            },
        }

        proof {
            // every phase found its cells loaded
            assert forall|d: CardinalDirection| (#[trigger] legs_of(w, on, d)).is_some()
                && adj_head_of(w, on, d).is_some() by {
                if d == CardinalDirection::North {
                    assert(spec_dir_order()[0] == d);
                    assert(Some(adj_legs@[0]) == legs_of(w, on, d));
                    assert(Some(adj_head@[0]) == adj_head_of(w, on, d));
                } else if d == CardinalDirection::South {
                    assert(spec_dir_order()[1] == d);
                    assert(Some(adj_legs@[1]) == legs_of(w, on, d));
                    assert(Some(adj_head@[1]) == adj_head_of(w, on, d));
                } else if d == CardinalDirection::West {
                    assert(spec_dir_order()[2] == d);
                    assert(Some(adj_legs@[2]) == legs_of(w, on, d));
                    assert(Some(adj_head@[2]) == adj_head_of(w, on, d));
                } else {
                    assert(spec_dir_order()[3] == d);
                    assert(Some(adj_legs@[3]) == legs_of(w, on, d));
                    assert(Some(adj_head@[3]) == adj_head_of(w, on, d));
                }
            }
            if can_jump(w, on) {
                assert forall|cx: int, cz: int| -4 <= cx <= 4 && -4 <= cz <= 4 implies (
                #[trigger] block_at(w, on, cx, 2, cz)).is_some() && block_at(
                    w,
                    on,
                    cx,
                    1,
                    cz,
                ).is_some() && block_at(w, on, cx, 0, cz).is_some() && block_at(
                    w,
                    on,
                    cx,
                    -1,
                    cz,
                ).is_some() by {
                    assert(parkour_cell_loaded(w, on, cx, cz));
                }
            }
            assert(all_loaded(w, on));
            assert(neighbor_view(res@) =~= spec_movements(w, c, on));
        }
        Ok(res)
    }
}

} // verus!
