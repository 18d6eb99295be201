//! Laws of the move generator, proved once over the model in
//! [`crate::move_spec`]: every emitted neighbor sits at a different
//! location than the source; every emitted cost is strictly positive
//! and is one of the four base costs scaled by the expansion's
//! multiplier (so a water head multiplies every cost by
//! `no_breathe_mult`); a landing found by the drop scan is either on
//! water or within the survivable fall depth; and an unloaded cell
//! among the always-consulted ones forces an `Edge` answer.

use vstd::prelude::*;

use crate::context::Costs;
use crate::move_spec::{
    above_of, adj_floor_of, adj_head_of, all_loaded, can_move_no_place, cell_dx, cell_dz,
    descend_emit, descend_ok, descend_upto, drop_scan, feet_of, floor_center_of, head_of,
    in_bounds, legs_of, micro_emit, micro_upto, mk_loc, mult_of, parkour_emit, parkour_emitted,
    parkour_seq, parkour_upto, spec_drop_y, spec_movements, walk_emit, walk_upto, water_seq,
    MAX_FALL,
};
use crate::types::{spec_dir_dx, spec_dir_dz, spec_dir_order, BlockLocation, SimpleType};
use crate::world::spec_get;

verus! {

/// The cost is one of the four base costs of the table.
pub open spec fn is_base_cost(c: Costs, b: int) -> bool {
    ||| b == c.block_walk
    ||| b == c.block_parkour
    ||| b == c.ascend
    ||| b == c.fall
}

/// A well-formed emission: away from the source, strictly positive,
/// and a base cost scaled by the expansion's multiplier.
pub open spec fn good_emission(
    w: Map<BlockLocation, SimpleType>,
    c: Costs,
    on: BlockLocation,
    p: (BlockLocation, int),
) -> bool {
    &&& p.0 != on
    &&& 1 <= p.1
    &&& exists|b: int| #[trigger] is_base_cost(c, b) && p.1 == b * mult_of(w, c, on)
}

proof fn lemma_pos_mul(a: int, b: int)
    by (nonlinear_arith)
    requires
        1 <= a,
        1 <= b,
    ensures
        1 <= a * b,
{
}

/// A base cost scaled by the multiplier makes a good emission cost.
proof fn lemma_scaled_cost(w: Map<BlockLocation, SimpleType>, c: Costs, on: BlockLocation, b: int)
    requires
        c.wf(),
        is_base_cost(c, b),
    ensures
        1 <= b * mult_of(w, c, on),
    decreases 0int,
{
    lemma_pos_mul(b, mult_of(w, c, on));
}

/// A cell one step away in a cardinal direction differs from the
/// source.
proof fn lemma_lateral_differs(on: BlockLocation, dx: int, dy: int, dz: int)
    requires
        in_bounds(on),
        -4 <= dx <= 4,
        -2 <= dy <= 2,
        -4 <= dz <= 4,
        dx != 0 || dz != 0,
    ensures
        crate::move_spec::rel(on, dx, dy, dz) != on,
{
    if dx != 0 {
        assert(crate::move_spec::rel(on, dx, dy, dz).x == on.x + dx);
    } else {
        assert(crate::move_spec::rel(on, dx, dy, dz).z == on.z + dz);
    }
}

proof fn lemma_walk_upto_good(
    w: Map<BlockLocation, SimpleType>,
    c: Costs,
    on: BlockLocation,
    n: int,
)
    requires
        c.wf(),
        in_bounds(on),
        0 <= n <= 4,
    ensures
        forall|k: int|
            0 <= k < walk_upto(w, c, on, n).len() ==> good_emission(
                w,
                c,
                on,
                #[trigger] walk_upto(w, c, on, n)[k],
            ),
    decreases n,
{
    if n > 0 {
        lemma_walk_upto_good(w, c, on, n - 1);
        let d = spec_dir_order()[n - 1];
        let prev = walk_upto(w, c, on, n - 1);
        let e = walk_emit(w, c, on, d);
        assert forall|k: int| 0 <= k < e.len() implies good_emission(w, c, on, #[trigger] e[k]) by {
            lemma_lateral_differs(on, spec_dir_dx(d), 0, spec_dir_dz(d));
            lemma_scaled_cost(w, c, on, c.block_walk as int);
            assert(is_base_cost(c, c.block_walk as int));
        }
        assert forall|k: int|
            0 <= k < walk_upto(w, c, on, n).len() implies good_emission(
            w,
            c,
            on,
            #[trigger] walk_upto(w, c, on, n)[k],
        ) by {
            if k < prev.len() {
                assert(walk_upto(w, c, on, n)[k] == prev[k]);
            } else {
                assert(walk_upto(w, c, on, n)[k] == e[k - prev.len()]);
            }
        }
    }
}

proof fn lemma_descend_upto_good(
    w: Map<BlockLocation, SimpleType>,
    c: Costs,
    on: BlockLocation,
    n: int,
)
    requires
        c.wf(),
        in_bounds(on),
        0 <= n <= 4,
    ensures
        forall|k: int|
            0 <= k < descend_upto(w, c, on, n).len() ==> good_emission(
                w,
                c,
                on,
                #[trigger] descend_upto(w, c, on, n)[k],
            ),
    decreases n,
{
    if n > 0 {
        lemma_descend_upto_good(w, c, on, n - 1);
        let d = spec_dir_order()[n - 1];
        let prev = descend_upto(w, c, on, n - 1);
        let e = descend_emit(w, c, on, d);
        assert forall|k: int| 0 <= k < e.len() implies good_emission(w, c, on, #[trigger] e[k]) by {
            let dx = spec_dir_dx(d);
            let dz = spec_dir_dz(d);
            if dx != 0 {
                assert(e[k].0.x == on.x + dx);
            } else {
                assert(dz != 0);
                assert(e[k].0.z == on.z + dz);
            }
            lemma_scaled_cost(w, c, on, c.fall as int);
            assert(is_base_cost(c, c.fall as int));
        }
        assert forall|k: int|
            0 <= k < descend_upto(w, c, on, n).len() implies good_emission(
            w,
            c,
            on,
            #[trigger] descend_upto(w, c, on, n)[k],
        ) by {
            if k < prev.len() {
                assert(descend_upto(w, c, on, n)[k] == prev[k]);
            } else {
                assert(descend_upto(w, c, on, n)[k] == e[k - prev.len()]);
            }
        }
    }
}

proof fn lemma_water_seq_good(w: Map<BlockLocation, SimpleType>, c: Costs, on: BlockLocation)
    requires
        c.wf(),
        in_bounds(on),
    ensures
        forall|k: int|
            0 <= k < water_seq(w, c, on).len() ==> good_emission(
                w,
                c,
                on,
                #[trigger] water_seq(w, c, on)[k],
            ),
{
    assert forall|k: int| 0 <= k < water_seq(w, c, on).len() implies good_emission(
        w,
        c,
        on,
        #[trigger] water_seq(w, c, on)[k],
    ) by {
        let p = water_seq(w, c, on)[k];
        assert(p.0.y == on.y + 1 || p.0.y == on.y - 1);
        lemma_scaled_cost(w, c, on, c.ascend as int);
        assert(is_base_cost(c, c.ascend as int));
    }
}

proof fn lemma_micro_upto_good(
    w: Map<BlockLocation, SimpleType>,
    c: Costs,
    on: BlockLocation,
    n: int,
)
    requires
        c.wf(),
        in_bounds(on),
        0 <= n <= 4,
    ensures
        forall|k: int|
            0 <= k < micro_upto(w, c, on, n).len() ==> good_emission(
                w,
                c,
                on,
                #[trigger] micro_upto(w, c, on, n)[k],
            ),
    decreases n,
{
    if n > 0 {
        lemma_micro_upto_good(w, c, on, n - 1);
        let d = spec_dir_order()[n - 1];
        let prev = micro_upto(w, c, on, n - 1);
        let e = micro_emit(w, c, on, d);
        assert forall|k: int| 0 <= k < e.len() implies good_emission(w, c, on, #[trigger] e[k]) by {
            lemma_lateral_differs(on, spec_dir_dx(d), 1, spec_dir_dz(d));
            lemma_scaled_cost(w, c, on, c.ascend as int);
            assert(is_base_cost(c, c.ascend as int));
        }
        assert forall|k: int|
            0 <= k < micro_upto(w, c, on, n).len() implies good_emission(
            w,
            c,
            on,
            #[trigger] micro_upto(w, c, on, n)[k],
        ) by {
            if k < prev.len() {
                assert(micro_upto(w, c, on, n)[k] == prev[k]);
            } else {
                assert(micro_upto(w, c, on, n)[k] == e[k - prev.len()]);
            }
        }
    }
}

proof fn lemma_cell_offsets_in_range(i: int)
    by (nonlinear_arith)
    requires
        0 <= i < 81,
    ensures
        -4 <= cell_dx(i) <= 4,
        -4 <= cell_dz(i) <= 4,
{
}

proof fn lemma_parkour_upto_good(
    w: Map<BlockLocation, SimpleType>,
    c: Costs,
    on: BlockLocation,
    n: int,
)
    requires
        c.wf(),
        in_bounds(on),
        0 <= n <= 81,
    ensures
        forall|k: int|
            0 <= k < parkour_upto(w, c, on, n).len() ==> good_emission(
                w,
                c,
                on,
                #[trigger] parkour_upto(w, c, on, n)[k],
            ),
    decreases n,
{
    if n > 0 {
        lemma_parkour_upto_good(w, c, on, n - 1);
        let prev = parkour_upto(w, c, on, n - 1);
        let e = parkour_emit(w, c, on, n - 1);
        assert forall|k: int| 0 <= k < e.len() implies good_emission(w, c, on, #[trigger] e[k]) by {
            let cx = cell_dx(n - 1);
            let cz = cell_dz(n - 1);
            lemma_cell_offsets_in_range(n - 1);
            assert(parkour_emitted(w, on, cx, cz));
            assert(!(cx == 0 && cz == 0));
            lemma_lateral_differs(on, cx, 0, cz);
            lemma_scaled_cost(w, c, on, c.block_parkour as int);
            assert(is_base_cost(c, c.block_parkour as int));
        }
        assert forall|k: int|
            0 <= k < parkour_upto(w, c, on, n).len() implies good_emission(
            w,
            c,
            on,
            #[trigger] parkour_upto(w, c, on, n)[k],
        ) by {
            if k < prev.len() {
                assert(parkour_upto(w, c, on, n)[k] == prev[k]);
            } else {
                assert(parkour_upto(w, c, on, n)[k] == e[k - prev.len()]);
            }
        }
    }
}

/// Every neighbor the generator emits sits at a location different
/// from the source's, its cost is strictly positive, and the cost is a
/// base cost of the table scaled by the expansion's multiplier — so a
/// water head block multiplies every emitted cost by
/// `no_breathe_mult`.
pub proof fn lemma_emissions_good(
    w: Map<BlockLocation, SimpleType>,
    c: Costs,
    on: BlockLocation,
    k: int,
)
    requires
        c.wf(),
        in_bounds(on),
        0 <= k < spec_movements(w, c, on).len(),
    ensures
        spec_movements(w, c, on)[k].0 != on,
        1 <= spec_movements(w, c, on)[k].1,
        exists|b: int|
            #[trigger] is_base_cost(c, b) && spec_movements(w, c, on)[k].1 == b * mult_of(
                w,
                c,
                on,
            ),
{
    lemma_walk_upto_good(w, c, on, 4);
    lemma_descend_upto_good(w, c, on, 4);
    lemma_water_seq_good(w, c, on);
    lemma_micro_upto_good(w, c, on, 4);
    if crate::move_spec::can_jump(w, on) {
        lemma_parkour_upto_good(w, c, on, 81);
    }
    assert(good_emission(w, c, on, spec_movements(w, c, on)[k]));
}

/// A drop that lands does so either on water (at any depth) or on
/// solid ground no deeper than the survivable fall depth, and always
/// below the starting feet.
pub proof fn lemma_drop_landing_bound(
    w: Map<BlockLocation, SimpleType>,
    start: BlockLocation,
    y: int,
)
    requires
        spec_drop_y(w, start) == Some(Some(y)),
    ensures
        0 <= y <= start.y - 2,
        spec_get(w, mk_loc(start.x as int, y, start.z as int)) == Some(SimpleType::Water)
            || start.y - y - 1 <= MAX_FALL as int,
{
    lemma_drop_scan_bound(w, start.x as int, start.z as int, start.y - 2, start.y as int, y);
}

proof fn lemma_drop_scan_bound(
    w: Map<BlockLocation, SimpleType>,
    x: int,
    z: int,
    row: int,
    init_y: int,
    y: int,
)
    requires
        row >= -1,
        drop_scan(w, x, z, row, init_y) == Some(Some(y)),
    ensures
        0 <= y <= row,
        spec_get(w, mk_loc(x, y, z)) == Some(SimpleType::Water) || init_y - y - 1 <= MAX_FALL
            as int,
    decreases row + 1,
{
    if row >= 0 {
        match spec_get(w, mk_loc(x, row, z)) {
            Option::Some(SimpleType::WalkThrough) => {
                lemma_drop_scan_bound(w, x, z, row - 1, init_y, y);
            },
            _ => {},
        }
    }
}

/// If any of the cells the generator always consults — the head,
/// above-head, floor and feet cells, or any adjacent legs, head or
/// floor cell — is unloaded, the whole expansion answers `Edge`.
pub proof fn lemma_unloaded_cell_forces_edge(w: Map<BlockLocation, SimpleType>, on: BlockLocation)
    requires
        ({
            ||| head_of(w, on) is None
            ||| above_of(w, on) is None
            ||| floor_center_of(w, on) is None
            ||| feet_of(w, on) is None
            ||| exists|d: crate::types::CardinalDirection|
                (#[trigger] legs_of(w, on, d)) is None || adj_head_of(w, on, d) is None
                    || adj_floor_of(w, on, d) is None
        }),
    ensures
        !all_loaded(w, on),
{
    if head_of(w, on) is None || above_of(w, on) is None || floor_center_of(w, on) is None
        || feet_of(w, on) is None {
    } else {
        let d = choose|d: crate::types::CardinalDirection|
            (#[trigger] legs_of(w, on, d)) is None || adj_head_of(w, on, d) is None || adj_floor_of(
                w,
                on,
                d,
            ) is None;
        if adj_floor_of(w, on, d) is None {
            assert(!descend_ok(w, on, d));
        }
    }
}

} // verus!
