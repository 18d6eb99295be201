//! The voxel data model: block classifications, block coordinates and the
//! four cardinal directions with their fixed unit displacements.

use vstd::prelude::*;

verus! {

/// The reduction of a full block id that all locomotion logic operates on.
#[derive(Clone, Copy, Debug, PartialEq, Eq, Structural)]
pub enum SimpleType {
    /// Empty or passable (air, grass, ...).
    WalkThrough,
    /// A block the agent can stand on.
    Solid,
    /// Swimmable; landing in it causes no fall damage.
    Water,
    /// A hazard the agent must never touch (lava, cactus, ...).
    Avoid,
}

impl SimpleType {
    /// Whether the agent's body can occupy a cell of this type.
    pub fn passable(self) -> (r: bool)
        ensures
            r == spec_passable(self),
    {
        matches!(self, SimpleType::WalkThrough | SimpleType::Water)
    }
}

/// Whether the agent's body can occupy a cell of this type.
pub open spec fn spec_passable(t: SimpleType) -> bool {
    t == SimpleType::WalkThrough || t == SimpleType::Water
}

/// Voxel coordinates; equality is componentwise.
#[derive(Clone, Copy, Debug, PartialEq, Eq, Hash, Structural)]
pub struct BlockLocation {
    pub x: i32,
    pub y: i16,
    pub z: i32,
}

impl BlockLocation {
    /// Builds the location `(x, y, z)`.
    pub fn new(x: i32, y: i16, z: i32) -> (r: BlockLocation)
        ensures
            r == (BlockLocation { x, y, z }),
    {
        BlockLocation { x, y, z }
    }
}

/// An integer displacement with the same component widths as
/// [`BlockLocation`].
#[derive(Clone, Copy, Debug, PartialEq, Eq, Structural)]
pub struct Change {
    pub dx: i32,
    pub dy: i16,
    pub dz: i32,
}

impl Change {
    /// Builds the displacement `(dx, dy, dz)`.
    pub fn new(dx: i32, dy: i16, dz: i32) -> (r: Change)
        ensures
            r == (Change { dx, dy, dz }),
    {
        Change { dx, dy, dz }
    }
}

/// The four lateral directions of the grid.
///
/// Their unit displacements are a fixed convention that downstream
/// consumers rely on; see [`CardinalDirection::unit_change`].
#[derive(Clone, Copy, Debug, PartialEq, Eq, Structural)]
pub enum CardinalDirection {
    North,
    South,
    West,
    East,
}

/// The lateral `x` component of a direction's unit displacement.
pub open spec fn spec_dir_dx(d: CardinalDirection) -> int {
    match d {
        CardinalDirection::North => 1,
        CardinalDirection::South => -1,
        CardinalDirection::West => 0,
        CardinalDirection::East => 0,
    }
}

/// The lateral `z` component of a direction's unit displacement.
pub open spec fn spec_dir_dz(d: CardinalDirection) -> int {
    match d {
        CardinalDirection::North => 0,
        CardinalDirection::South => 0,
        CardinalDirection::West => 1,
        CardinalDirection::East => -1,
    }
}

/// The canonical iteration order of the four directions.
pub open spec fn spec_dir_order() -> Seq<CardinalDirection> {
    seq![
        CardinalDirection::North,
        CardinalDirection::South,
        CardinalDirection::West,
        CardinalDirection::East,
    ]
}

impl CardinalDirection {
    /// The four directions in canonical iteration order:
    /// North, South, West, East.
    pub fn iter() -> (r: Vec<CardinalDirection>)
        ensures
            r@ == spec_dir_order(),
    {
        let v = vec![
            CardinalDirection::North,
            CardinalDirection::South,
            CardinalDirection::West,
            CardinalDirection::East,
        ];
        proof {
            assert(v@ =~= spec_dir_order());
        }
        v
    }

    /// The fixed unit displacement of this direction:
    /// North `(+1, 0, 0)`, South `(-1, 0, 0)`, West `(0, 0, +1)`,
    /// East `(0, 0, -1)`.
    pub fn unit_change(self) -> (r: Change)
        ensures
            r.dx == spec_dir_dx(self),
            r.dy == 0,
            r.dz == spec_dir_dz(self),
    {
        match self {
            CardinalDirection::North => Change::new(1, 0, 0),
            CardinalDirection::South => Change::new(-1, 0, 0),
            CardinalDirection::West => Change::new(0, 0, 1),
            CardinalDirection::East => Change::new(0, 0, -1),
        }
    }
}

} // verus!
