//! The mathematical model of the move generator: for a world, a cost
//! table and a source location, these functions say exactly which cells
//! the generator consults, which neighbors it emits and in which order,
//! and at what cost.  [`crate::moves::Movements::obtain_all`] is proved
//! to return precisely this model's answer.

use vstd::prelude::*;

use crate::context::Costs;
use crate::types::{
    spec_dir_dx, spec_dir_dz, spec_dir_order, BlockLocation, CardinalDirection, SimpleType,
};
use crate::world::spec_get;

verus! {

/// The deepest fall (in rows) the agent survives on a solid landing.
pub const MAX_FALL: i16 = 3;

/// The lateral radius of the parkour scan.
pub const PARKOUR_RADIUS: i32 = 4;

/// Coordinates from which every cell the generator consults is
/// addressable without leaving the numeric range of a [`BlockLocation`].
pub open spec fn in_bounds(on: BlockLocation) -> bool {
    &&& -2000000000 <= on.x <= 2000000000
    &&& -2000000000 <= on.z <= 2000000000
    &&& -32700 <= on.y <= 32700
}

/// The location of integer coordinates `(x, y, z)`.
pub open spec fn mk_loc(x: int, y: int, z: int) -> BlockLocation {
    BlockLocation { x: x as i32, y: y as i16, z: z as i32 }
}

/// The cell at offset `(dx, dy, dz)` from `on`.
pub open spec fn rel(on: BlockLocation, dx: int, dy: int, dz: int) -> BlockLocation {
    mk_loc(on.x + dx, on.y + dy, on.z + dz)
}

/// The world's answer for the cell at offset `(dx, dy, dz)` from `on`.
pub open spec fn block_at(
    w: Map<BlockLocation, SimpleType>,
    on: BlockLocation,
    dx: int,
    dy: int,
    dz: int,
) -> Option<SimpleType> {
    spec_get(w, rel(on, dx, dy, dz))
}

/// Whether a loaded cell of this kind lets the agent's body through.
pub open spec fn passable_opt(o: Option<SimpleType>) -> bool {
    o == Some(SimpleType::WalkThrough) || o == Some(SimpleType::Water)
}

// Named cells around the source (spec 4.3: H, F, A, FEET).
pub open spec fn head_of(w: Map<BlockLocation, SimpleType>, on: BlockLocation) -> Option<
    SimpleType,
> {
    block_at(w, on, 0, 1, 0)
}

pub open spec fn above_of(w: Map<BlockLocation, SimpleType>, on: BlockLocation) -> Option<
    SimpleType,
> {
    block_at(w, on, 0, 2, 0)
}

pub open spec fn floor_center_of(w: Map<BlockLocation, SimpleType>, on: BlockLocation) -> Option<
    SimpleType,
> {
    block_at(w, on, 0, -1, 0)
}

pub open spec fn feet_of(w: Map<BlockLocation, SimpleType>, on: BlockLocation) -> Option<
    SimpleType,
> {
    block_at(w, on, 0, 0, 0)
}

/// The cost multiplier of this expansion: `no_breathe_mult` when the
/// head block is water, else one.
pub open spec fn mult_of(w: Map<BlockLocation, SimpleType>, c: Costs, on: BlockLocation) -> int {
    if head_of(w, on) == Some(SimpleType::Water) {
        c.no_breathe_mult as int
    } else {
        1
    }
}

// Per-direction cells (spec 4.3 step B/C).
pub open spec fn legs_of(
    w: Map<BlockLocation, SimpleType>,
    on: BlockLocation,
    d: CardinalDirection,
) -> Option<SimpleType> {
    block_at(w, on, spec_dir_dx(d), 0, spec_dir_dz(d))
}

pub open spec fn adj_head_of(
    w: Map<BlockLocation, SimpleType>,
    on: BlockLocation,
    d: CardinalDirection,
) -> Option<SimpleType> {
    block_at(w, on, spec_dir_dx(d), 1, spec_dir_dz(d))
}

pub open spec fn adj_floor_of(
    w: Map<BlockLocation, SimpleType>,
    on: BlockLocation,
    d: CardinalDirection,
) -> Option<SimpleType> {
    block_at(w, on, spec_dir_dx(d), -1, spec_dir_dz(d))
}

pub open spec fn adj_above_of(
    w: Map<BlockLocation, SimpleType>,
    on: BlockLocation,
    d: CardinalDirection,
) -> Option<SimpleType> {
    block_at(w, on, spec_dir_dx(d), 2, spec_dir_dz(d))
}

/// Step B: the agent fits into the adjacent column without placing a
/// block.
pub open spec fn can_move_no_place(
    w: Map<BlockLocation, SimpleType>,
    on: BlockLocation,
    d: CardinalDirection,
) -> bool {
    passable_opt(legs_of(w, on, d)) && passable_opt(adj_head_of(w, on, d))
}

/// Step C: the adjacent cell can be walked to at the same level.
pub open spec fn walkable(
    w: Map<BlockLocation, SimpleType>,
    on: BlockLocation,
    d: CardinalDirection,
) -> bool {
    can_move_no_place(w, on, d) && (adj_floor_of(w, on, d) == Some(SimpleType::Solid) || legs_of(
        w,
        on,
        d,
    ) == Some(SimpleType::Water) || adj_head_of(w, on, d) == Some(SimpleType::Water))
}

/// The drop scan of [`spec_drop_y`], inspecting row `y` and continuing
/// downward.  The outer `None` is an unloaded lookup (an edge); the
/// inner option is the landing row.
pub open spec fn drop_scan(
    w: Map<BlockLocation, SimpleType>,
    x: int,
    z: int,
    y: int,
    init_y: int,
) -> Option<Option<int>>
    decreases y + 1 when y >= -1
{
    if y < 0 {
        Some(None)
    } else {
        match spec_get(w, mk_loc(x, y, z)) {
            Option::None => None,
            Option::Some(SimpleType::Solid) => if init_y - y - 1 <= MAX_FALL as int {
                Some(Some(y))
            } else {
                Some(None)
            },
            Option::Some(SimpleType::Water) => Some(Some(y)),
            Option::Some(SimpleType::Avoid) => Some(None),
            Option::Some(SimpleType::WalkThrough) => drop_scan(w, x, z, y - 1, init_y),
        }
    }
}

/// The row a drop from `start` lands on: the scan starts two rows below
/// `start` and descends.  `Some(None)` is a refused drop (void, a
/// hazard, or too deep onto solid ground); `None` is an edge.
pub open spec fn spec_drop_y(w: Map<BlockLocation, SimpleType>, start: BlockLocation) -> Option<
    Option<int>,
> {
    if start.y < 2 {
        Some(None)
    } else {
        drop_scan(w, start.x as int, start.z as int, start.y - 2, start.y as int)
    }
}

// ---------------------------------------------------------------------
// Emissions, step by step.  Each step yields its neighbors as
// `(location, cost)` pairs in the canonical direction order.
// ---------------------------------------------------------------------

/// Step C emission for one direction.
pub open spec fn walk_emit(
    w: Map<BlockLocation, SimpleType>,
    c: Costs,
    on: BlockLocation,
    d: CardinalDirection,
) -> Seq<(BlockLocation, int)> {
    if walkable(w, on, d) {
        seq![
            (
                rel(on, spec_dir_dx(d), 0, spec_dir_dz(d)),
                c.block_walk * mult_of(w, c, on),
            ),
        ]
    } else {
        seq![]
    }
}

/// Step C emissions for the first `k` directions.
pub open spec fn walk_upto(
    w: Map<BlockLocation, SimpleType>,
    c: Costs,
    on: BlockLocation,
    k: int,
) -> Seq<(BlockLocation, int)>
    decreases k,
{
    if k <= 0 {
        seq![]
    } else {
        walk_upto(w, c, on, k - 1) + walk_emit(w, c, on, spec_dir_order()[k - 1])
    }
}

/// Step D: the drop is attempted in direction `d`.
pub open spec fn descend_tried(
    w: Map<BlockLocation, SimpleType>,
    on: BlockLocation,
    d: CardinalDirection,
) -> bool {
    can_move_no_place(w, on, d) && !walkable(w, on, d) && adj_floor_of(w, on, d) != Some(
        SimpleType::Avoid,
    )
}

/// Step D emission for one direction.
pub open spec fn descend_emit(
    w: Map<BlockLocation, SimpleType>,
    c: Costs,
    on: BlockLocation,
    d: CardinalDirection,
) -> Seq<(BlockLocation, int)> {
    if descend_tried(w, on, d) {
        match spec_drop_y(w, rel(on, spec_dir_dx(d), 0, spec_dir_dz(d))) {
            Option::Some(Option::Some(y)) => seq![
                (
                    mk_loc(on.x + spec_dir_dx(d), y + 1, on.z + spec_dir_dz(d)),
                    c.fall * mult_of(w, c, on),
                ),
            ],
            _ => seq![],
        }
    } else {
        seq![]
    }
}

/// Step D emissions for the first `k` directions.
pub open spec fn descend_upto(
    w: Map<BlockLocation, SimpleType>,
    c: Costs,
    on: BlockLocation,
    k: int,
) -> Seq<(BlockLocation, int)>
    decreases k,
{
    if k <= 0 {
        seq![]
    } else {
        descend_upto(w, c, on, k - 1) + descend_emit(w, c, on, spec_dir_order()[k - 1])
    }
}

/// Step E: swimming up in a water column.
pub open spec fn water_up(w: Map<BlockLocation, SimpleType>, on: BlockLocation) -> bool {
    above_of(w, on) == Some(SimpleType::Water) || (head_of(w, on) == Some(SimpleType::Water)
        && above_of(w, on) == Some(SimpleType::WalkThrough))
}

/// Step E: sinking or swimming down in a water column.
pub open spec fn water_down(w: Map<BlockLocation, SimpleType>, on: BlockLocation) -> bool {
    floor_center_of(w, on) == Some(SimpleType::Water) || (floor_center_of(w, on) == Some(
        SimpleType::WalkThrough,
    ) && head_of(w, on) == Some(SimpleType::Water))
}

/// Step E emissions.
pub open spec fn water_seq(w: Map<BlockLocation, SimpleType>, c: Costs, on: BlockLocation) -> Seq<
    (BlockLocation, int),
> {
    let up: Seq<(BlockLocation, int)> = if water_up(w, on) {
        seq![(rel(on, 0, 1, 0), c.ascend * mult_of(w, c, on))]
    } else {
        seq![]
    };
    let down: Seq<(BlockLocation, int)> = if water_down(w, on) {
        seq![(rel(on, 0, -1, 0), c.ascend * mult_of(w, c, on))]
    } else {
        seq![]
    };
    up + down
}

/// Step F: the agent can jump one block up in place.
pub open spec fn can_micro_jump(w: Map<BlockLocation, SimpleType>, on: BlockLocation) -> bool {
    above_of(w, on) == Some(SimpleType::WalkThrough) && (floor_center_of(w, on) == Some(
        SimpleType::Solid,
    ) || feet_of(w, on) == Some(SimpleType::Water))
}

/// Step F: a micro-jump in direction `d` succeeds.
pub open spec fn micro_jump_ok(
    w: Map<BlockLocation, SimpleType>,
    on: BlockLocation,
    d: CardinalDirection,
) -> bool {
    !can_move_no_place(w, on, d) && passable_opt(adj_above_of(w, on, d)) && legs_of(w, on, d)
        == Some(SimpleType::Solid) && passable_opt(adj_head_of(w, on, d))
}

/// Step F emission for one direction.
pub open spec fn micro_emit(
    w: Map<BlockLocation, SimpleType>,
    c: Costs,
    on: BlockLocation,
    d: CardinalDirection,
) -> Seq<(BlockLocation, int)> {
    if can_micro_jump(w, on) && micro_jump_ok(w, on, d) {
        seq![
            (
                rel(on, spec_dir_dx(d), 1, spec_dir_dz(d)),
                c.ascend * mult_of(w, c, on),
            ),
        ]
    } else {
        seq![]
    }
}

/// Step F emissions for the first `k` directions.
pub open spec fn micro_upto(
    w: Map<BlockLocation, SimpleType>,
    c: Costs,
    on: BlockLocation,
    k: int,
) -> Seq<(BlockLocation, int)>
    decreases k,
{
    if k <= 0 {
        seq![]
    } else {
        micro_upto(w, c, on, k - 1) + micro_emit(w, c, on, spec_dir_order()[k - 1])
    }
}

// ---------------------------------------------------------------------
// Step G: multi-block parkour.
// ---------------------------------------------------------------------

/// Step G runs at all: standing under clear air and not on water.
pub open spec fn can_jump(w: Map<BlockLocation, SimpleType>, on: BlockLocation) -> bool {
    above_of(w, on) == Some(SimpleType::WalkThrough) && floor_center_of(w, on) != Some(
        SimpleType::Water,
    )
}

/// A scan cell whose three body rows are all clear air.
pub open spec fn column_clear(
    w: Map<BlockLocation, SimpleType>,
    on: BlockLocation,
    dx: int,
    dz: int,
) -> bool {
    &&& block_at(w, on, dx, 2, dz) == Some(SimpleType::WalkThrough)
    &&& block_at(w, on, dx, 1, dz) == Some(SimpleType::WalkThrough)
    &&& block_at(w, on, dx, 0, dz) == Some(SimpleType::WalkThrough)
}

/// How many steps the occluder walks along a ray from blocker
/// `(bx, bz)`.
pub open spec fn inc_max(bx: int, bz: int) -> int {
    let ax = if bx < 0 {
        -bx
    } else {
        bx
    };
    let az = if bz < 0 {
        -bz
    } else {
        bz
    };
    let m = if ax >= az {
        ax
    } else {
        az
    };
    PARKOUR_RADIUS as int - m + 1
}

/// The occluder's ray from blocker `(bx, bz)` with axial signs
/// `(ax, az)` covers the cell `(cx, cz)` at step `inc`: the ray cell
/// itself and its one-wide corridor widening.
pub open spec fn ray_covers(
    bx: int,
    bz: int,
    ax: int,
    az: int,
    inc: int,
    cx: int,
    cz: int,
) -> bool {
    let px = bx + inc * ax;
    let pz = bz + inc * az;
    ||| (cx == px && cz == pz)
    ||| (-(PARKOUR_RADIUS as int) < px < PARKOUR_RADIUS as int && cx == px + ax && cz == pz)
    ||| (-(PARKOUR_RADIUS as int) < pz < PARKOUR_RADIUS as int && cx == px && cz == pz + az)
}

/// The ray occludes the cell at some step.
pub open spec fn occludes_axial(bx: int, bz: int, ax: int, az: int, cx: int, cz: int) -> bool {
    exists|inc: int| 0 <= inc < inc_max(bx, bz) && #[trigger] ray_covers(bx, bz, ax, az, inc, cx, cz)
}

/// The sign of an integer.
pub open spec fn sign(v: int) -> int {
    if v > 0 {
        1
    } else if v < 0 {
        -1
    } else {
        0
    }
}

/// Blocker `(bx, bz)` occludes the cell `(cx, cz)`: a column the agent
/// cannot leap through shadows everything farther along the ray from
/// the origin, with a one-wide corridor widening.  A blocker on an axis
/// spreads over the three rays on its side.
pub open spec fn occludes(bx: int, bz: int, cx: int, cz: int) -> bool {
    if bx == 0 {
        ||| occludes_axial(bx, bz, -1, sign(bz), cx, cz)
        ||| occludes_axial(bx, bz, 0, sign(bz), cx, cz)
        ||| occludes_axial(bx, bz, 1, sign(bz), cx, cz)
    } else if bz == 0 {
        ||| occludes_axial(bx, bz, sign(bx), -1, cx, cz)
        ||| occludes_axial(bx, bz, sign(bx), 0, cx, cz)
        ||| occludes_axial(bx, bz, sign(bx), 1, cx, cz)
    } else {
        occludes_axial(bx, bz, sign(bx), sign(bz), cx, cz)
    }
}

/// A scan cell the occlusion pass leaves reachable: not the origin, and
/// shadowed by no blocked column.
pub open spec fn parkour_open(
    w: Map<BlockLocation, SimpleType>,
    on: BlockLocation,
    cx: int,
    cz: int,
) -> bool {
    &&& !(cx == 0 && cz == 0)
    &&& forall|bx: int, bz: int|
        -(PARKOUR_RADIUS as int) <= bx <= PARKOUR_RADIUS as int && -(PARKOUR_RADIUS as int) <= bz
            <= PARKOUR_RADIUS as int && !column_clear(w, on, bx, bz) ==> !#[trigger] occludes(
            bx,
            bz,
            cx,
            cz,
        )
}

/// The lateral offsets of scan cell `i` in lexicographic order.
pub open spec fn cell_dx(i: int) -> int {
    i / 9 - 4
}

pub open spec fn cell_dz(i: int) -> int {
    i % 9 - 4
}

/// A parkour landing is emitted at `(cx, cz)`: the cell is reachable,
/// its floor is solid, and its squared distance lies in the jumpable
/// ring (between 1.1 and 4.5 blocks).
pub open spec fn parkour_emitted(
    w: Map<BlockLocation, SimpleType>,
    on: BlockLocation,
    cx: int,
    cz: int,
) -> bool {
    &&& parkour_open(w, on, cx, cz)
    &&& block_at(w, on, cx, -1, cz) == Some(SimpleType::Solid)
    &&& 2 <= cx * cx + cz * cz <= 20
}

/// Step G emission for one scan cell.
pub open spec fn parkour_emit(
    w: Map<BlockLocation, SimpleType>,
    c: Costs,
    on: BlockLocation,
    i: int,
) -> Seq<(BlockLocation, int)> {
    if parkour_emitted(w, on, cell_dx(i), cell_dz(i)) {
        seq![
            (
                rel(on, cell_dx(i), 0, cell_dz(i)),
                c.block_parkour * mult_of(w, c, on),
            ),
        ]
    } else {
        seq![]
    }
}

/// Step G emissions for the first `i` scan cells.
pub open spec fn parkour_upto(
    w: Map<BlockLocation, SimpleType>,
    c: Costs,
    on: BlockLocation,
    i: int,
) -> Seq<(BlockLocation, int)>
    decreases i,
{
    if i <= 0 {
        seq![]
    } else {
        parkour_upto(w, c, on, i - 1) + parkour_emit(w, c, on, i - 1)
    }
}

/// Step G emissions, or nothing when step G is inactive.
pub open spec fn parkour_seq(w: Map<BlockLocation, SimpleType>, c: Costs, on: BlockLocation) -> Seq<
    (BlockLocation, int),
> {
    if can_jump(w, on) {
        parkour_upto(w, c, on, 81)
    } else {
        seq![]
    }
}

// ---------------------------------------------------------------------
// Loaded-region conditions: the generator answers `Edge` exactly when
// one of the cells it consults is unloaded.
// ---------------------------------------------------------------------

/// Direction `d` survives the descend pass: its floor is loaded, and
/// when a drop is simulated the scan stays inside the loaded region.
pub open spec fn descend_ok(
    w: Map<BlockLocation, SimpleType>,
    on: BlockLocation,
    d: CardinalDirection,
) -> bool {
    &&& adj_floor_of(w, on, d).is_some()
    &&& descend_tried(w, on, d) ==> spec_drop_y(
        w,
        rel(on, spec_dir_dx(d), 0, spec_dir_dz(d)),
    ).is_some()
}

/// Every cell the generator consults is loaded.
pub open spec fn all_loaded(w: Map<BlockLocation, SimpleType>, on: BlockLocation) -> bool {
    &&& head_of(w, on).is_some()
    &&& forall|d: CardinalDirection|
        (#[trigger] legs_of(w, on, d)).is_some() && adj_head_of(w, on, d).is_some()
    &&& forall|d: CardinalDirection| #[trigger] descend_ok(w, on, d)
    &&& above_of(w, on).is_some()
    &&& floor_center_of(w, on).is_some()
    &&& feet_of(w, on).is_some()
    &&& can_micro_jump(w, on) ==> forall|d: CardinalDirection|
        !(#[trigger] can_move_no_place(w, on, d)) ==> adj_above_of(w, on, d).is_some()
    &&& can_jump(w, on) ==> forall|cx: int, cz: int|
        -4 <= cx <= 4 && -4 <= cz <= 4 ==> (#[trigger] block_at(w, on, cx, 2, cz)).is_some()
            && block_at(w, on, cx, 1, cz).is_some() && block_at(w, on, cx, 0, cz).is_some()
            && block_at(w, on, cx, -1, cz).is_some()
}

/// Everything the generator emits, in emission order: same-level walks,
/// descends, vertical water moves, micro-jumps, then parkour leaps.
pub open spec fn spec_movements(w: Map<BlockLocation, SimpleType>, c: Costs, on: BlockLocation) -> Seq<
    (BlockLocation, int),
> {
    walk_upto(w, c, on, 4) + descend_upto(w, c, on, 4) + water_seq(w, c, on) + micro_upto(
        w,
        c,
        on,
        4,
    ) + parkour_seq(w, c, on)
}

} // verus!
