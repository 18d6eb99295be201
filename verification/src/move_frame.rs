//! The framing law of the move generator: everything it answers is a
//! function of the radius-four column of cells around the source
//! alone.  Two worlds that agree on every cell whose lateral offsets
//! from the source are at most four — at any height, since the drop
//! scan probes straight down inside the column — yield the same
//! loaded-region verdict and the same emissions.

use vstd::prelude::*;

use crate::context::Costs;
use crate::move_spec::{
    above_of, adj_above_of, adj_floor_of, adj_head_of, all_loaded, block_at, can_jump,
    can_micro_jump, can_move_no_place, cell_dx, cell_dz, column_clear, descend_emit, descend_ok,
    descend_tried, descend_upto, drop_scan, feet_of, floor_center_of, head_of, in_bounds, legs_of,
    micro_emit, micro_upto, mk_loc, mult_of, parkour_emit, parkour_emitted, parkour_open,
    parkour_seq, parkour_upto, rel, spec_drop_y, spec_movements, walk_emit, walk_upto, walkable,
    water_seq,
};
use crate::types::{spec_dir_dx, spec_dir_dz, spec_dir_order, BlockLocation, CardinalDirection,
    SimpleType};
use crate::world::spec_get;

verus! {

/// The two worlds answer alike for every cell of the radius-four
/// column around `on`.
pub open spec fn agree_on_column(
    w1: Map<BlockLocation, SimpleType>,
    w2: Map<BlockLocation, SimpleType>,
    on: BlockLocation,
) -> bool {
    forall|loc: BlockLocation|
        -4 <= loc.x - on.x <= 4 && -4 <= loc.z - on.z <= 4 ==> #[trigger] spec_get(w1, loc)
            == spec_get(w2, loc)
}

/// A single consulted cell answers alike.
proof fn lemma_cell_agree(
    w1: Map<BlockLocation, SimpleType>,
    w2: Map<BlockLocation, SimpleType>,
    on: BlockLocation,
    dx: int,
    dy: int,
    dz: int,
)
    requires
        in_bounds(on),
        agree_on_column(w1, w2, on),
        -4 <= dx <= 4,
        -2 <= dy <= 2,
        -4 <= dz <= 4,
    ensures
        block_at(w1, on, dx, dy, dz) == block_at(w2, on, dx, dy, dz),
{
    let loc = rel(on, dx, dy, dz);
    assert(loc.x == on.x + dx && loc.z == on.z + dz);
    assert(spec_get(w1, loc) == spec_get(w2, loc));
}

/// The drop scan stays inside the column and answers alike.
proof fn lemma_drop_scan_agree(
    w1: Map<BlockLocation, SimpleType>,
    w2: Map<BlockLocation, SimpleType>,
    on: BlockLocation,
    x: int,
    z: int,
    row: int,
    init_y: int,
)
    requires
        in_bounds(on),
        agree_on_column(w1, w2, on),
        -4 <= x - on.x <= 4,
        -4 <= z - on.z <= 4,
        row >= -1,
    ensures
        drop_scan(w1, x, z, row, init_y) == drop_scan(w2, x, z, row, init_y),
    decreases row + 1,
{
    if row >= 0 {
        let loc = mk_loc(x, row, z);
        assert(loc.x == x && loc.z == z);
        assert(spec_get(w1, loc) == spec_get(w2, loc));
        match spec_get(w1, loc) {
            Option::Some(SimpleType::WalkThrough) => {
                lemma_drop_scan_agree(w1, w2, on, x, z, row - 1, init_y);
            },
            _ => {},
        }
    }
}

/// Every per-direction reading agrees.
proof fn lemma_dir_agree(
    w1: Map<BlockLocation, SimpleType>,
    w2: Map<BlockLocation, SimpleType>,
    on: BlockLocation,
    d: CardinalDirection,
)
    requires
        in_bounds(on),
        agree_on_column(w1, w2, on),
    ensures
        legs_of(w1, on, d) == legs_of(w2, on, d),
        adj_head_of(w1, on, d) == adj_head_of(w2, on, d),
        adj_floor_of(w1, on, d) == adj_floor_of(w2, on, d),
        adj_above_of(w1, on, d) == adj_above_of(w2, on, d),
        can_move_no_place(w1, on, d) == can_move_no_place(w2, on, d),
        walkable(w1, on, d) == walkable(w2, on, d),
        descend_tried(w1, on, d) == descend_tried(w2, on, d),
        spec_drop_y(w1, rel(on, spec_dir_dx(d), 0, spec_dir_dz(d))) == spec_drop_y(
            w2,
            rel(on, spec_dir_dx(d), 0, spec_dir_dz(d)),
        ),
        descend_ok(w1, on, d) == descend_ok(w2, on, d),
{
    let dx = spec_dir_dx(d);
    let dz = spec_dir_dz(d);
    assert(-1 <= dx <= 1 && -1 <= dz <= 1);
    lemma_cell_agree(w1, w2, on, dx, 0, dz);
    lemma_cell_agree(w1, w2, on, dx, 1, dz);
    lemma_cell_agree(w1, w2, on, dx, -1, dz);
    lemma_cell_agree(w1, w2, on, dx, 2, dz);
    let start = rel(on, dx, 0, dz);
    assert(start.x == on.x + dx && start.z == on.z + dz);
    if start.y >= 2 {
        lemma_drop_scan_agree(
            w1,
            w2,
            on,
            start.x as int,
            start.z as int,
            start.y - 2,
            start.y as int,
        );
    }
}

/// The readings at the agent's own column agree.
proof fn lemma_center_agree(
    w1: Map<BlockLocation, SimpleType>,
    w2: Map<BlockLocation, SimpleType>,
    on: BlockLocation,
)
    requires
        in_bounds(on),
        agree_on_column(w1, w2, on),
    ensures
        head_of(w1, on) == head_of(w2, on),
        above_of(w1, on) == above_of(w2, on),
        floor_center_of(w1, on) == floor_center_of(w2, on),
        feet_of(w1, on) == feet_of(w2, on),
        can_micro_jump(w1, on) == can_micro_jump(w2, on),
        can_jump(w1, on) == can_jump(w2, on),
{
    lemma_cell_agree(w1, w2, on, 0, 1, 0);
    lemma_cell_agree(w1, w2, on, 0, 2, 0);
    lemma_cell_agree(w1, w2, on, 0, -1, 0);
    lemma_cell_agree(w1, w2, on, 0, 0, 0);
}

proof fn lemma_walk_upto_agree(
    w1: Map<BlockLocation, SimpleType>,
    w2: Map<BlockLocation, SimpleType>,
    c: Costs,
    on: BlockLocation,
    n: int,
)
    requires
        in_bounds(on),
        agree_on_column(w1, w2, on),
        0 <= n <= 4,
    ensures
        walk_upto(w1, c, on, n) == walk_upto(w2, c, on, n),
    decreases n,
{
    if n > 0 {
        lemma_walk_upto_agree(w1, w2, c, on, n - 1);
        lemma_dir_agree(w1, w2, on, spec_dir_order()[n - 1]);
        lemma_center_agree(w1, w2, on);
    }
}

proof fn lemma_descend_upto_agree(
    w1: Map<BlockLocation, SimpleType>,
    w2: Map<BlockLocation, SimpleType>,
    c: Costs,
    on: BlockLocation,
    n: int,
)
    requires
        in_bounds(on),
        agree_on_column(w1, w2, on),
        0 <= n <= 4,
    ensures
        descend_upto(w1, c, on, n) == descend_upto(w2, c, on, n),
    decreases n,
{
    if n > 0 {
        lemma_descend_upto_agree(w1, w2, c, on, n - 1);
        lemma_dir_agree(w1, w2, on, spec_dir_order()[n - 1]);
        lemma_center_agree(w1, w2, on);
    }
}

proof fn lemma_micro_upto_agree(
    w1: Map<BlockLocation, SimpleType>,
    w2: Map<BlockLocation, SimpleType>,
    c: Costs,
    on: BlockLocation,
    n: int,
)
    requires
        in_bounds(on),
        agree_on_column(w1, w2, on),
        0 <= n <= 4,
    ensures
        micro_upto(w1, c, on, n) == micro_upto(w2, c, on, n),
    decreases n,
{
    if n > 0 {
        lemma_micro_upto_agree(w1, w2, c, on, n - 1);
        lemma_dir_agree(w1, w2, on, spec_dir_order()[n - 1]);
        lemma_center_agree(w1, w2, on);
    }
}

proof fn lemma_cell_range(i: int)
    by (nonlinear_arith)
    requires
        0 <= i < 81,
    ensures
        -4 <= cell_dx(i) <= 4,
        -4 <= cell_dz(i) <= 4,
{
}

/// A scan cell's clearance and reachability agree.
proof fn lemma_parkour_cell_agree(
    w1: Map<BlockLocation, SimpleType>,
    w2: Map<BlockLocation, SimpleType>,
    on: BlockLocation,
    cx: int,
    cz: int,
)
    requires
        in_bounds(on),
        agree_on_column(w1, w2, on),
        -4 <= cx <= 4,
        -4 <= cz <= 4,
    ensures
        column_clear(w1, on, cx, cz) == column_clear(w2, on, cx, cz),
        parkour_open(w1, on, cx, cz) == parkour_open(w2, on, cx, cz),
        parkour_emitted(w1, on, cx, cz) == parkour_emitted(w2, on, cx, cz),
{
    lemma_cell_agree(w1, w2, on, cx, 2, cz);
    lemma_cell_agree(w1, w2, on, cx, 1, cz);
    lemma_cell_agree(w1, w2, on, cx, 0, cz);
    lemma_cell_agree(w1, w2, on, cx, -1, cz);
    assert forall|bx: int, bz: int|
        -4 <= bx <= 4 && -4 <= bz <= 4 implies #[trigger] column_clear(w1, on, bx, bz)
        == column_clear(w2, on, bx, bz) by {
        lemma_cell_agree(w1, w2, on, bx, 2, bz);
        lemma_cell_agree(w1, w2, on, bx, 1, bz);
        lemma_cell_agree(w1, w2, on, bx, 0, bz);
    }
    assert(parkour_open(w1, on, cx, cz) == parkour_open(w2, on, cx, cz));
}

proof fn lemma_parkour_upto_agree(
    w1: Map<BlockLocation, SimpleType>,
    w2: Map<BlockLocation, SimpleType>,
    c: Costs,
    on: BlockLocation,
    n: int,
)
    requires
        in_bounds(on),
        agree_on_column(w1, w2, on),
        0 <= n <= 81,
    ensures
        parkour_upto(w1, c, on, n) == parkour_upto(w2, c, on, n),
    decreases n,
{
    if n > 0 {
        lemma_parkour_upto_agree(w1, w2, c, on, n - 1);
        lemma_cell_range(n - 1);
        lemma_parkour_cell_agree(w1, w2, on, cell_dx(n - 1), cell_dz(n - 1));
        lemma_center_agree(w1, w2, on);
    }
}

/// The framing law: the generator's whole answer — whether the region
/// counts as loaded, and every emission with its cost — depends only
/// on the radius-four column of cells around the source.
pub proof fn lemma_reads_confined_to_column(
    w1: Map<BlockLocation, SimpleType>,
    w2: Map<BlockLocation, SimpleType>,
    c: Costs,
    on: BlockLocation,
)
    requires
        in_bounds(on),
        agree_on_column(w1, w2, on),
    ensures
        all_loaded(w1, on) == all_loaded(w2, on),
        spec_movements(w1, c, on) == spec_movements(w2, c, on),
{
    lemma_center_agree(w1, w2, on);
    assert forall|d: CardinalDirection|
        #![trigger legs_of(w1, on, d)]
        #![trigger legs_of(w2, on, d)]
        true implies legs_of(w1, on, d) == legs_of(w2, on, d) && adj_head_of(w1, on, d)
        == adj_head_of(w2, on, d) by {
        lemma_dir_agree(w1, w2, on, d);
    }
    assert forall|d: CardinalDirection|
        #![trigger can_move_no_place(w1, on, d)]
        #![trigger can_move_no_place(w2, on, d)]
        true implies can_move_no_place(w1, on, d) == can_move_no_place(w2, on, d) && adj_above_of(
        w1,
        on,
        d,
    ) == adj_above_of(w2, on, d) by {
        lemma_dir_agree(w1, w2, on, d);
    }
    assert forall|d: CardinalDirection|
        #![trigger descend_ok(w1, on, d)]
        #![trigger descend_ok(w2, on, d)]
        true implies descend_ok(w1, on, d) == descend_ok(w2, on, d) by {
        lemma_dir_agree(w1, w2, on, d);
    }
    assert forall|cx: int, cz: int|
        #![trigger block_at(w1, on, cx, 2, cz)]
        #![trigger block_at(w2, on, cx, 2, cz)]
        -4 <= cx <= 4 && -4 <= cz <= 4 implies (block_at(w1, on, cx, 2, cz) == block_at(
        w2,
        on,
        cx,
        2,
        cz,
    ) && block_at(w1, on, cx, 1, cz) == block_at(w2, on, cx, 1, cz) && block_at(w1, on, cx, 0, cz)
        == block_at(w2, on, cx, 0, cz) && block_at(w1, on, cx, -1, cz) == block_at(
        w2,
        on,
        cx,
        -1,
        cz,
    )) by {
        lemma_cell_agree(w1, w2, on, cx, 2, cz);
        lemma_cell_agree(w1, w2, on, cx, 1, cz);
        lemma_cell_agree(w1, w2, on, cx, 0, cz);
        lemma_cell_agree(w1, w2, on, cx, -1, cz);
    }
    assert(all_loaded(w1, on) == all_loaded(w2, on));

    lemma_walk_upto_agree(w1, w2, c, on, 4);
    lemma_descend_upto_agree(w1, w2, c, on, 4);
    lemma_micro_upto_agree(w1, w2, c, on, 4);
    lemma_parkour_upto_agree(w1, w2, c, on, 81);
    assert(water_seq(w1, c, on) == water_seq(w2, c, on));
    assert(parkour_seq(w1, c, on) == parkour_seq(w2, c, on));
    assert(spec_movements(w1, c, on) == spec_movements(w2, c, on));
}

} // verus!
