//! Positions, boxes and directions.

use vstd::prelude::*;

verus! {

/// A position of a block.
#[derive(Clone, Copy, Debug, PartialEq, Eq, Structural)]
pub struct BlockPos {
    pub x: i32,
    pub y: i32,
    pub z: i32,
}

impl BlockPos {
    pub fn new(x: i32, y: i32, z: i32) -> (r: Self)
        ensures
            r == (BlockPos { x, y, z }),
    {
        BlockPos { x, y, z }
    }
}

/// A direction along an axis.
#[derive(Clone, Copy, Debug, PartialEq, Eq, Structural)]
pub enum BlockDirection {
    Down,
    Up,
    North,
    South,
    West,
    East,
}

/// The direction that points the other way.
pub open spec fn opposite_of(d: BlockDirection) -> BlockDirection {
    match d {
        BlockDirection::Down => BlockDirection::Up,
        BlockDirection::Up => BlockDirection::Down,
        BlockDirection::North => BlockDirection::South,
        BlockDirection::South => BlockDirection::North,
        BlockDirection::West => BlockDirection::East,
        BlockDirection::East => BlockDirection::West,
    }
}

impl BlockDirection {
    /// The direction that points the other way.
    pub fn opposite(self) -> (r: Self)
        ensures
            r == opposite_of(self),
    {
        match self {
            BlockDirection::Down => BlockDirection::Up,
            BlockDirection::Up => BlockDirection::Down,
            BlockDirection::North => BlockDirection::South,
            BlockDirection::South => BlockDirection::North,
            BlockDirection::West => BlockDirection::East,
            BlockDirection::East => BlockDirection::West,
        }
    }
}

/// A box of blocks, with both corners in it.
#[derive(Clone, Copy, Debug, PartialEq, Eq, Structural)]
pub struct BlockBox {
    pub min: BlockPos,
    pub max: BlockPos,
}

impl BlockBox {
    pub fn new(x1: i32, y1: i32, z1: i32, x2: i32, y2: i32, z2: i32) -> (r: Self)
        ensures
            r.min == (BlockPos { x: x1, y: y1, z: z1 }),
            r.max == (BlockPos { x: x2, y: y2, z: z2 }),
    {
        BlockBox { min: BlockPos::new(x1, y1, z1), max: BlockPos::new(x2, y2, z2) }
    }

    /// Whether a block lies in the box.
    pub open spec fn holds(self, x: int, y: int, z: int) -> bool {
        &&& self.min.x <= x <= self.max.x
        &&& self.min.y <= y <= self.max.y
        &&& self.min.z <= z <= self.max.z
    }

    /// Whether a block lies in the box.
    pub fn contains(&self, x: i32, y: i32, z: i32) -> (r: bool)
        ensures
            r == self.holds(x as int, y as int, z as int),
    {
        self.min.x <= x && x <= self.max.x && self.min.y <= y && y <= self.max.y && self.min.z <= z
            && z <= self.max.z
    }

    /// Whether two boxes overlap on every axis.
    pub open spec fn overlaps(self, other: BlockBox) -> bool {
        &&& self.min.x <= other.max.x && other.min.x <= self.max.x
        &&& self.min.y <= other.max.y && other.min.y <= self.max.y
        &&& self.min.z <= other.max.z && other.min.z <= self.max.z
    }

    /// Whether two boxes overlap.
    pub fn intersects(&self, other: &BlockBox) -> (r: bool)
        ensures
            r == self.overlaps(*other),
    {
        self.min.x <= other.max.x && other.min.x <= self.max.x && self.min.y <= other.max.y
            && other.min.y <= self.max.y && self.min.z <= other.max.z && other.min.z <= self.max.z
    }
}

/// A box of a size that starts at an offset from a position and lies in a direction: its
/// depth runs that way, and its width to the side.
pub open spec fn oriented(
    at: (int, int, int),
    offset: (int, int, int),
    size: (int, int, int),
    facing: BlockDirection,
) -> ((int, int, int), (int, int, int)) {
    let (x, y, z) = at;
    let (ox, oy, oz) = offset;
    let (width, height, depth) = size;
    let low = y + oy;
    let high = y + oy + height - 1;
    match facing {
        BlockDirection::North => (
            (x + ox, low, z - depth + 1 + oz),
            (x + width - 1 + ox, high, z + oz),
        ),
        BlockDirection::West => (
            (x - depth + 1 + oz, low, z + ox),
            (x + oz, high, z + width - 1 + ox),
        ),
        BlockDirection::East => (
            (x + oz, low, z + ox),
            (x + depth - 1 + oz, high, z + width - 1 + ox),
        ),
        _ => ((x + ox, low, z + oz), (x + width - 1 + ox, high, z + depth - 1 + oz)),
    }
}

/// The corners of a box.
pub open spec fn corners(b: BlockBox) -> ((int, int, int), (int, int, int)) {
    (
        (b.min.x as int, b.min.y as int, b.min.z as int),
        (b.max.x as int, b.max.y as int, b.max.z as int),
    )
}

/// Whether a number is far from the largest and the smallest coordinate.
pub open spec fn well_inside(n: int) -> bool {
    i32::MIN + 0x4000 <= n <= i32::MAX - 0x4000
}

impl BlockBox {
    /// A box of a size that starts at an offset from a position and lies in a direction.
    pub fn rotated(
        at: BlockPos,
        offset: BlockPos,
        size: BlockPos,
        facing: BlockDirection,
    ) -> (r: Self)
        requires
            well_inside(at.x as int) && well_inside(at.y as int) && well_inside(at.z as int),
            -0x1000 <= offset.x <= 0x1000,
            -0x1000 <= offset.y <= 0x1000,
            -0x1000 <= offset.z <= 0x1000,
            0 <= size.x <= 0x1000,
            0 <= size.y <= 0x1000,
            0 <= size.z <= 0x1000,
        ensures
            corners(r) == oriented(
                (at.x as int, at.y as int, at.z as int),
                (offset.x as int, offset.y as int, offset.z as int),
                (size.x as int, size.y as int, size.z as int),
                facing,
            ),
    {
        let low: i32 = at.y + offset.y;
        let high: i32 = at.y + offset.y + size.y - 1;
        match facing {
            BlockDirection::North => BlockBox::new(
                at.x + offset.x,
                low,
                at.z - size.z + 1 + offset.z,
                at.x + size.x - 1 + offset.x,
                high,
                at.z + offset.z,
            ),
            BlockDirection::West => BlockBox::new(
                at.x - size.z + 1 + offset.z,
                low,
                at.z + offset.x,
                at.x + offset.z,
                high,
                at.z + size.x - 1 + offset.x,
            ),
            BlockDirection::East => BlockBox::new(
                at.x + offset.z,
                low,
                at.z + offset.x,
                at.x + size.z - 1 + offset.z,
                high,
                at.z + size.x - 1 + offset.x,
            ),
            _ => BlockBox::new(
                at.x + offset.x,
                low,
                at.z + offset.z,
                at.x + size.x - 1 + offset.x,
                high,
                at.z + size.z - 1 + offset.z,
            ),
        }
    }
}

/// Boxes that do not overlap have no block in common.
pub proof fn law_apart_boxes_share_no_block(a: BlockBox, b: BlockBox, x: int, y: int, z: int)
    requires
        !a.overlaps(b),
    ensures
        !(a.holds(x, y, z) && b.holds(x, y, z)),
{
}

/// A turn about the vertical axis.
#[derive(Clone, Copy, Debug, PartialEq, Eq, Structural)]
pub enum BlockRotation {
    Unturned,
    Clockwise90,
    Rotate180,
    CounterClockwise90,
}

/// A reflection of a template.
#[derive(Clone, Copy, Debug, PartialEq, Eq, Structural)]
pub enum BlockMirror {
    Unmirrored,
    LeftRight,
    FrontBack,
}

/// A turned offset.
pub open spec fn turned(r: BlockRotation, x: int, z: int) -> (int, int) {
    match r {
        BlockRotation::Unturned => (x, z),
        BlockRotation::Clockwise90 => (-z, x),
        BlockRotation::Rotate180 => (-x, -z),
        BlockRotation::CounterClockwise90 => (z, -x),
    }
}

/// A block's place in a template that is turned as a whole: the turned template starts at
/// the same corner.
pub open spec fn turned_within(r: BlockRotation, x: int, z: int, size: BlockPos) -> (int, int) {
    match r {
        BlockRotation::Unturned => (x, z),
        BlockRotation::Clockwise90 => (size.z - 1 - z, x),
        BlockRotation::Rotate180 => (size.x - 1 - x, size.z - 1 - z),
        BlockRotation::CounterClockwise90 => (z, size.x - 1 - x),
    }
}

/// Whether a number is a coordinate.
pub open spec fn fits(n: int) -> bool {
    i32::MIN <= n <= i32::MAX
}

impl BlockRotation {
    /// Turns an offset.
    pub fn rotate_offset(self, x: i32, z: i32) -> (r: (i32, i32))
        requires
            fits(turned(self, x as int, z as int).0),
            fits(turned(self, x as int, z as int).1),
        ensures
            (r.0 as int, r.1 as int) == turned(self, x as int, z as int),
    {
        match self {
            BlockRotation::Unturned => (x, z),
            BlockRotation::Clockwise90 => (-z, x),
            BlockRotation::Rotate180 => (-x, -z),
            BlockRotation::CounterClockwise90 => (z, -x),
        }
    }

    /// Turns a block's place within its template.
    pub fn transform_pos(self, pos: BlockPos, size: BlockPos) -> (r: BlockPos)
        requires
            fits(turned_within(self, pos.x as int, pos.z as int, size).0),
            fits(turned_within(self, pos.x as int, pos.z as int, size).1),
        ensures
            (r.x as int, r.z as int) == turned_within(self, pos.x as int, pos.z as int, size),
            r.y == pos.y,
    {
        let across: i64 = size.x as i64 - 1 - pos.x as i64;
        let along: i64 = size.z as i64 - 1 - pos.z as i64;
        match self {
            BlockRotation::Unturned => pos,
            BlockRotation::Clockwise90 => BlockPos::new(along as i32, pos.y, pos.x),
            BlockRotation::Rotate180 => BlockPos::new(across as i32, pos.y, along as i32),
            BlockRotation::CounterClockwise90 => BlockPos::new(pos.z, pos.y, across as i32),
        }
    }
}

/// The size of a turned template.
pub open spec fn turned_size(r: BlockRotation, size: BlockPos) -> BlockPos {
    match r {
        BlockRotation::Unturned | BlockRotation::Rotate180 => size,
        _ => BlockPos { x: size.z, y: size.y, z: size.x },
    }
}

/// The turn that undoes another.
pub open spec fn back(r: BlockRotation) -> BlockRotation {
    match r {
        BlockRotation::Clockwise90 => BlockRotation::CounterClockwise90,
        BlockRotation::CounterClockwise90 => BlockRotation::Clockwise90,
        _ => r,
    }
}

/// A turned template stays within its turned size, and turning it back brings every block
/// back to its place.
pub proof fn law_turning_back(r: BlockRotation, x: int, z: int, size: BlockPos)
    requires
        0 <= x < size.x,
        0 <= z < size.z,
    ensures
        ({
            let (tx, tz) = turned_within(r, x, z, size);
            &&& 0 <= tx < turned_size(r, size).x
            &&& 0 <= tz < turned_size(r, size).z
            &&& turned_within(back(r), tx, tz, turned_size(r, size)) == (x, z)
        }),
{
}

/// The quotient, rounded down.
pub fn floor_div(a: i32, d: i32) -> (r: i32)
    requires
        d > 0,
    ensures
        r == a as int / d as int,
{
    let q: i64 = if a >= 0 {
        a as i64 / d as i64
    } else {
        -((d as i64 - 1 - a as i64) / d as i64)
    };
    proof {
        if a < 0 {
            let n = d - 1 - a;
            let k = n / d as int;
            assert(a as int / d as int == -k) by (nonlinear_arith)
                requires
                    d > 0,
                    n == d - 1 - a,
                    k == n / d as int,
            ;
        }
        assert(i32::MIN <= a as int / d as int <= i32::MAX) by (nonlinear_arith)
            requires
                d > 0,
                i32::MIN <= a <= i32::MAX,
        ;
    }
    q as i32
}

/// Turning to the opposite direction twice leads back, never once, and keeps the axis: up is
/// against down, north against south, and west against east.
pub proof fn law_opposites_lie_on_one_axis(d: BlockDirection)
    ensures
        opposite_of(d) != d,
        opposite_of(opposite_of(d)) == d,
        d == BlockDirection::Up <==> opposite_of(d) == BlockDirection::Down,
        d == BlockDirection::North <==> opposite_of(d) == BlockDirection::South,
        d == BlockDirection::West <==> opposite_of(d) == BlockDirection::East,
{
}

/// Boxes overlap just where they have a block in common.
pub proof fn law_overlapping_boxes_share_a_block(a: BlockBox, b: BlockBox)
    requires
        a.min.x <= a.max.x && a.min.y <= a.max.y && a.min.z <= a.max.z,
        b.min.x <= b.max.x && b.min.y <= b.max.y && b.min.z <= b.max.z,
    ensures
        a.overlaps(b) <==> b.overlaps(a),
        a.overlaps(a),
        a.overlaps(b) <==> exists|x: int, y: int, z: int| #[trigger]
            a.holds(x, y, z) && b.holds(x, y, z),
        a.holds(a.min.x as int, a.min.y as int, a.min.z as int),
        a.holds(a.max.x as int, a.max.y as int, a.max.z as int),
        !a.holds(a.min.x - 1, a.min.y as int, a.min.z as int),
        !a.holds(a.max.x + 1, a.max.y as int, a.max.z as int),
        !a.holds(a.min.x as int, a.min.y - 1, a.min.z as int),
        !a.holds(a.max.x as int, a.max.y + 1, a.max.z as int),
        !a.holds(a.min.x as int, a.min.y as int, a.min.z - 1),
        !a.holds(a.max.x as int, a.max.y as int, a.max.z + 1),
{
    if a.overlaps(b) {
        let x = if a.min.x < b.min.x {
            b.min.x as int
        } else {
            a.min.x as int
        };
        let y = if a.min.y < b.min.y {
            b.min.y as int
        } else {
            a.min.y as int
        };
        let z = if a.min.z < b.min.z {
            b.min.z as int
        } else {
            a.min.z as int
        };
        assert(a.holds(x, y, z) && b.holds(x, y, z));
    }
}

/// A box that lies in a direction has its size: its height upward, its depth along the
/// direction and its width across. Without an offset it starts at its position, and reaches
/// from there the way that it faces.
pub proof fn law_oriented_boxes_reach_ahead(
    at: (int, int, int),
    offset: (int, int, int),
    size: (int, int, int),
    facing: BlockDirection,
)
    ensures
        ({
            let (low, high) = oriented(at, offset, size, facing);
            let north_south = facing != BlockDirection::West && facing != BlockDirection::East;
            &&& low.1 == at.1 + offset.1
            &&& high.1 - low.1 + 1 == size.1
            &&& north_south ==> high.0 - low.0 + 1 == size.0 && high.2 - low.2 + 1 == size.2
            &&& !north_south ==> high.2 - low.2 + 1 == size.0 && high.0 - low.0 + 1 == size.2
            &&& north_south ==> low.0 == at.0 + offset.0
            &&& !north_south ==> low.2 == at.2 + offset.0
            &&& facing == BlockDirection::North ==> high.2 == at.2 + offset.2
            &&& facing == BlockDirection::South ==> low.2 == at.2 + offset.2
            &&& facing == BlockDirection::West ==> high.0 == at.0 + offset.2
            &&& facing == BlockDirection::East ==> low.0 == at.0 + offset.2
        }),
{
}

/// Turns add up: two quarter turns make a half turn, and a quarter turn either way undoes the
/// other. A quarter turn clockwise leads from east to south, and no turn moves anything nearer
/// or farther.
pub proof fn law_turns_add_up(x: int, z: int)
    ensures
        turned(BlockRotation::Unturned, x, z) == (x, z),
        turned(BlockRotation::Clockwise90, 1, 0) == (0int, 1int),
        ({
            let (qx, qz) = turned(BlockRotation::Clockwise90, x, z);
            let (hx, hz) = turned(BlockRotation::Rotate180, x, z);
            &&& turned(BlockRotation::Clockwise90, qx, qz) == (hx, hz)
            &&& turned(BlockRotation::CounterClockwise90, qx, qz) == (x, z)
            &&& turned(BlockRotation::Clockwise90, hx, hz) == turned(
                BlockRotation::CounterClockwise90,
                x,
                z,
            )
            &&& (qx == -z && qz == x)
        }),
{
}

/// Within a template turns add up in the same way, and what lies next to each other there stays
/// next to each other in every turn.
pub proof fn law_turns_within_a_template_add_up(
    r: BlockRotation,
    x: int,
    z: int,
    dx: int,
    dz: int,
    size: BlockPos,
)
    ensures
        ({
            let (ax, az) = turned_within(r, x, z, size);
            let (bx, bz) = turned_within(r, x + dx, z + dz, size);
            let (tx, tz) = turned(r, dx, dz);
            &&& bx - ax == tx
            &&& bz - az == tz
        }),
        turned_within(BlockRotation::Unturned, x, z, size) == (x, z),
        ({
            let (qx, qz) = turned_within(BlockRotation::Clockwise90, x, z, size);
            let sideways = turned_size(BlockRotation::Clockwise90, size);
            &&& turned_within(BlockRotation::Clockwise90, qx, qz, sideways) == turned_within(
                BlockRotation::Rotate180,
                x,
                z,
                size,
            )
            &&& turned_within(BlockRotation::CounterClockwise90, qx, qz, sideways) == (x, z)
            &&& sideways.x == size.z && sideways.y == size.y && sideways.z == size.x
        }),
{
}

} // verus!
