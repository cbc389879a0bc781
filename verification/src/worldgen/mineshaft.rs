//! Mineshafts: a room from which corridors, crossings and stairs branch off.

use super::geometry::{oriented, well_inside, BlockBox, BlockDirection, BlockPos};
use super::piece::{StructurePiece, StructurePieceType};
use crate::random::RandomSource;
use vstd::prelude::*;

verus! {

/// How many pieces deep a mineshaft branches.
pub const MAX_DEPTH: u32 = 8;

/// How far from its room a mineshaft reaches along each axis.
pub const BOUND: i32 = 80;

/// The height that a mineshaft's room starts at.
pub const START_Y: i32 = 50;

/// The kinds of mineshafts.
#[derive(Clone, Copy, Debug, PartialEq, Eq, Structural)]
pub enum MineshaftType {
    Normal,
    Mesa,
}

/// A place where a piece may be attached.
#[derive(Clone, Copy, Debug, PartialEq, Eq, Structural)]
pub struct Attachment {
    pub x: i32,
    pub y: i32,
    pub z: i32,
    pub facing: BlockDirection,
    pub depth: u32,
}

/// What a piece is.
#[derive(Clone, Copy, Debug, PartialEq, Eq, Structural)]
pub enum PieceKind {
    Room,
    Corridor { num_sections: i32, has_rails: bool, spider_corridor: bool },
    Crossing,
    Stairs,
}

/// A piece of a mineshaft.
#[derive(Clone, Copy, Debug, PartialEq, Eq, Structural)]
pub struct MineshaftPiece {
    pub kind: PieceKind,
    pub bounding_box: BlockBox,
    pub facing: Option<BlockDirection>,
    pub chain_length: u32,
}

/// What a piece of a mineshaft is among the pieces of all structures.
pub open spec fn piece_type(kind: PieceKind) -> StructurePieceType {
    match kind {
        PieceKind::Room => StructurePieceType::MineshaftRoom,
        PieceKind::Corridor { .. } => StructurePieceType::MineshaftCorridor,
        PieceKind::Crossing => StructurePieceType::MineshaftCrossing,
        PieceKind::Stairs => StructurePieceType::MineshaftStairs,
    }
}

impl MineshaftPiece {
    /// The piece as one of any structure.
    pub fn get_structure_piece(&self) -> (r: StructurePiece)
        ensures
            r == (StructurePiece {
                piece_type: piece_type(self.kind),
                bounding_box: self.bounding_box,
                chain_length: self.chain_length,
            }),
    {
        let piece_type = match self.kind {
            PieceKind::Room => StructurePieceType::MineshaftRoom,
            PieceKind::Corridor { .. } => StructurePieceType::MineshaftCorridor,
            PieceKind::Crossing => StructurePieceType::MineshaftCrossing,
            PieceKind::Stairs => StructurePieceType::MineshaftStairs,
        };
        StructurePiece {
            piece_type,
            bounding_box: self.bounding_box,
            chain_length: self.chain_length,
        }
    }
}

/// Whether some pieces leave room for a box.
pub open spec fn is_free(pieces: Seq<MineshaftPiece>, b: BlockBox) -> bool {
    forall|i: int| 0 <= i < pieces.len() ==> !(#[trigger] pieces[i]).bounding_box.overlaps(b)
}

/// Whether some pieces leave room for a box.
pub fn has_room(pieces: &Vec<MineshaftPiece>, b: &BlockBox) -> (r: bool)
    ensures
        r == is_free(pieces@, *b),
{
    let mut i: usize = 0;
    while i < pieces.len()
        invariant
            i <= pieces@.len(),
            forall|k: int| 0 <= k < i ==> !(#[trigger] pieces@[k]).bounding_box.overlaps(*b),
        decreases pieces.len() - i,
    {
        if pieces[i].bounding_box.intersects(b) {
            return false;
        }
        i = i + 1;
    }
    true
}

/// Whether an attachment is near enough to its mineshaft's room for its numbers to be
/// coordinates.
pub open spec fn near(att: Attachment, start_x: int, start_z: int) -> bool {
    &&& start_x - 200 <= att.x <= start_x + 200
    &&& start_z - 200 <= att.z <= start_z + 200
    &&& 57 - 6 * att.depth <= att.y <= 54 + att.depth
    &&& 1 <= att.depth <= MAX_DEPTH
}

/// Whether a mineshaft's room is far enough from the end of the coordinates.
pub open spec fn start_fits(start_x: int, start_z: int) -> bool {
    &&& i32::MIN + 0x5000 <= start_x <= i32::MAX - 0x5000
    &&& i32::MIN + 0x5000 <= start_z <= i32::MAX - 0x5000
}

/// The box of a piece at an attachment.
pub open spec fn box_at(att: Attachment, offset: (int, int, int), size: (int, int, int)) -> (
    (int, int, int),
    (int, int, int),
) {
    oriented((att.x as int, att.y as int, att.z as int), offset, size, att.facing)
}

/// A box with given corners.
pub open spec fn box_of(c: ((int, int, int), (int, int, int))) -> BlockBox {
    BlockBox {
        min: BlockPos { x: c.0.0 as i32, y: c.0.1 as i32, z: c.0.2 as i32 },
        max: BlockPos { x: c.1.0 as i32, y: c.1.1 as i32, z: c.1.2 as i32 },
    }
}

/// The box of a corridor.
pub open spec fn corridor_box(att: Attachment, sections: int) -> BlockBox {
    box_of(box_at(att, (0, 0, 0), (3, 3, sections * 5)))
}

/// The box of a crossing.
pub open spec fn crossing_box(att: Attachment, height: int) -> BlockBox {
    box_of(box_at(att, (-1, 0, 0), (5, height, 5)))
}

/// The box of stairs.
pub open spec fn stairs_box(att: Attachment) -> BlockBox {
    box_of(box_at(att, (0, -5, 0), (3, 8, 9)))
}

/// The longest corridor of at most some sections that there is room for, and the source
/// behind the draws that this takes. A corridor without rails may belong to spiders.
pub open spec fn corridor_at<R: RandomSource>(
    att: Attachment,
    pieces: Seq<MineshaftPiece>,
    sections: int,
    rng: R,
) -> (Option<MineshaftPiece>, R)
    decreases sections,
{
    if sections <= 0 {
        (None, rng)
    } else if is_free(pieces, corridor_box(att, sections)) {
        let has_rails = rng.bounded(3) == 0;
        let r1 = rng.after_bounded(3);
        let (spider_corridor, r2) = if has_rails {
            (false, r1)
        } else {
            (r1.bounded(23) == 0, r1.after_bounded(23))
        };
        (
            Some(
                MineshaftPiece {
                    kind: PieceKind::Corridor {
                        num_sections: sections as i32,
                        has_rails,
                        spider_corridor,
                    },
                    bounding_box: corridor_box(att, sections),
                    facing: Some(att.facing),
                    chain_length: att.depth,
                },
            ),
            r2,
        )
    } else {
        corridor_at(att, pieces, sections - 1, rng)
    }
}

/// A piece of a kind where there is room for it.
pub open spec fn piece_if_free(
    kind: PieceKind,
    b: BlockBox,
    att: Attachment,
    pieces: Seq<MineshaftPiece>,
) -> Option<MineshaftPiece> {
    if is_free(pieces, b) {
        Some(
            MineshaftPiece {
                kind,
                bounding_box: b,
                facing: Some(att.facing),
                chain_length: att.depth,
            },
        )
    } else {
        None
    }
}

/// The piece that is drawn for an attachment, where there is room for it, and the source
/// behind the draws that this takes.
pub open spec fn new_piece<R: RandomSource>(
    att: Attachment,
    pieces: Seq<MineshaftPiece>,
    rng: R,
) -> (Option<MineshaftPiece>, R) {
    let roll = rng.bounded(100);
    let r1 = rng.after_bounded(100);
    if roll >= 80 {
        let height = if r1.bounded(4) == 0 {
            7int
        } else {
            3
        };
        (
            piece_if_free(PieceKind::Crossing, crossing_box(att, height), att, pieces),
            r1.after_bounded(4),
        )
    } else if roll >= 70 {
        (piece_if_free(PieceKind::Stairs, stairs_box(att), att, pieces), r1)
    } else {
        corridor_at(att, pieces, r1.bounded(3) + 2, r1.after_bounded(3))
    }
}

/// Whether a piece is where an attachment near its mineshaft's room puts it.
pub open spec fn piece_near(piece: MineshaftPiece, start_x: int, start_z: int) -> bool {
    let b = piece.bounding_box;
    &&& start_x - 120 <= b.min.x <= b.max.x <= start_x + 120
    &&& start_z - 120 <= b.min.z <= b.max.z <= start_z + 120
    &&& b.max.x - b.min.x <= 19
    &&& b.max.z - b.min.z <= 19
    &&& 1 <= piece.chain_length < MAX_DEPTH
    &&& 52 - 6 * piece.chain_length <= b.min.y <= 54 + piece.chain_length
    &&& piece.kind is Corridor ==> 57 - 6 * piece.chain_length <= b.min.y
}

/// Whether an attachment lies within the reach of its mineshaft.
pub open spec fn in_reach(att: Attachment, start_x: int, start_z: int) -> bool {
    &&& -BOUND <= att.x - start_x <= BOUND
    &&& -BOUND <= att.z - start_z <= BOUND
}

fn make_piece(
    kind: PieceKind,
    b: BlockBox,
    att: &Attachment,
    pieces: &Vec<MineshaftPiece>,
) -> (r: Option<MineshaftPiece>)
    ensures
        r == piece_if_free(kind, b, *att, pieces@),
{
    if has_room(pieces, &b) {
        Some(
            MineshaftPiece {
                kind,
                bounding_box: b,
                facing: Some(att.facing),
                chain_length: att.depth,
            },
        )
    } else {
        None
    }
}

fn rotated_box(att: &Attachment, offset: BlockPos, size: BlockPos) -> (r: BlockBox)
    requires
        well_inside(att.x as int) && well_inside(att.y as int) && well_inside(att.z as int),
        -5 <= offset.x <= 0,
        -5 <= offset.y <= 0,
        offset.z == 0,
        1 <= size.x <= 5,
        1 <= size.y <= 8,
        1 <= size.z <= 20,
    ensures
        r == box_of(
            box_at(
                *att,
                (offset.x as int, offset.y as int, offset.z as int),
                (size.x as int, size.y as int, size.z as int),
            ),
        ),
        att.x - 24 <= r.min.x <= r.max.x <= att.x + 24,
        att.z - 24 <= r.min.z <= r.max.z <= att.z + 24,
        r.max.x - r.min.x <= 19,
        r.max.z - r.min.z <= 19,
        r.min.y == att.y + offset.y,
{
    BlockBox::rotated(BlockPos::new(att.x, att.y, att.z), offset, size, att.facing)
}

/// Makes the longest corridor that there is room for.
fn create_corridor<R: RandomSource>(
    att: &Attachment,
    random: &mut R,
    pieces: &Vec<MineshaftPiece>,
    Ghost(start_x): Ghost<int>,
    Ghost(start_z): Ghost<int>,
) -> (r: Option<MineshaftPiece>)
    requires
        near(*att, start_x, start_z),
        in_reach(*att, start_x, start_z),
        att.depth < MAX_DEPTH,
        start_fits(start_x, start_z),
    ensures
        (r, *final(random)) == corridor_at(
            *att,
            pieces@,
            old(random).bounded(3) + 2,
            old(random).after_bounded(3),
        ),
        r is Some ==> piece_near(r->0, start_x, start_z) && r->0.chain_length == att.depth,
{
    let mut sections: i32 = random.next_bounded_i32(3) + 2;
    let ghost first = sections as int;
    let ghost start = *random;
    while sections > 0
        invariant
            0 <= sections <= 4,
            near(*att, start_x, start_z),
            in_reach(*att, start_x, start_z),
            att.depth < MAX_DEPTH,
            start_fits(start_x, start_z),
            *random == start,
            first == old(random).bounded(3) + 2,
            start == old(random).after_bounded(3),
            corridor_at(*att, pieces@, first, start) == corridor_at(
                *att,
                pieces@,
                sections as int,
                start,
            ),
        decreases sections,
    {
        let b = rotated_box(att, BlockPos::new(0, 0, 0), BlockPos::new(3, 3, sections * 5));
        if has_room(pieces, &b) {
            let has_rails = random.next_bounded_i32(3) == 0;
            let spider_corridor = !has_rails && random.next_bounded_i32(23) == 0;
            return Some(
                MineshaftPiece {
                    kind: PieceKind::Corridor { num_sections: sections, has_rails, spider_corridor },
                    bounding_box: b,
                    facing: Some(att.facing),
                    chain_length: att.depth,
                },
            );
        }
        sections = sections - 1;
    }
    None
}

/// Makes the piece that is drawn for an attachment, where there is room for it.
fn create_piece<R: RandomSource>(
    att: &Attachment,
    random: &mut R,
    pieces: &Vec<MineshaftPiece>,
    Ghost(start_x): Ghost<int>,
    Ghost(start_z): Ghost<int>,
) -> (r: Option<MineshaftPiece>)
    requires
        near(*att, start_x, start_z),
        in_reach(*att, start_x, start_z),
        att.depth < MAX_DEPTH,
        start_fits(start_x, start_z),
    ensures
        (r, *final(random)) == new_piece(*att, pieces@, *old(random)),
        r is Some ==> piece_near(r->0, start_x, start_z) && r->0.chain_length == att.depth,
{
    let roll: i32 = random.next_bounded_i32(100);
    if roll >= 80 {
        let height: i32 = if random.next_bounded_i32(4) == 0 {
            7
        } else {
            3
        };
        let b = rotated_box(att, BlockPos::new(-1, 0, 0), BlockPos::new(5, height, 5));
        make_piece(PieceKind::Crossing, b, att, pieces)
    } else if roll >= 70 {
        let b = rotated_box(att, BlockPos::new(0, -5, 0), BlockPos::new(3, 8, 9));
        make_piece(PieceKind::Stairs, b, att, pieces)
    } else {
        create_corridor(att, random, pieces, Ghost(start_x), Ghost(start_z))
    }
}

/// Where the end of a corridor goes on: straight ahead or to a side.
pub open spec fn corridor_end(b: BlockBox, facing: Option<BlockDirection>, selection: int) -> (
    int,
    int,
    BlockDirection,
) {
    match facing {
        Some(BlockDirection::North) => if selection <= 1 {
            (b.min.x as int, b.min.z - 1, BlockDirection::North)
        } else if selection == 2 {
            (b.min.x - 1, b.min.z as int, BlockDirection::West)
        } else {
            (b.max.x + 1, b.min.z as int, BlockDirection::East)
        },
        Some(BlockDirection::South) => if selection <= 1 {
            (b.min.x as int, b.max.z + 1, BlockDirection::South)
        } else if selection == 2 {
            (b.min.x - 1, b.max.z as int, BlockDirection::West)
        } else {
            (b.max.x + 1, b.max.z as int, BlockDirection::East)
        },
        Some(BlockDirection::West) => if selection <= 1 {
            (b.min.x - 1, b.min.z as int, BlockDirection::West)
        } else if selection == 2 {
            (b.min.x as int, b.min.z - 1, BlockDirection::North)
        } else {
            (b.min.x as int, b.max.z + 1, BlockDirection::South)
        },
        _ => if selection <= 1 {
            (b.max.x + 1, b.min.z as int, BlockDirection::East)
        } else if selection == 2 {
            (b.max.x as int, b.min.z - 1, BlockDirection::North)
        } else {
            (b.max.x as int, b.max.z + 1, BlockDirection::South)
        },
    }
}

/// Whether a corridor runs from north to south.
pub open spec fn runs_north_south(facing: Option<BlockDirection>) -> bool {
    facing == Some(BlockDirection::North) || facing == Some(BlockDirection::South)
}

/// What may branch off a corridor's side at a place along it: of five draws one goes to
/// either side.
pub open spec fn side_child(b: BlockBox, north_south: bool, at: int, depth: u32, draw: int) -> Seq<
    Attachment,
> {
    let y = b.min.y;
    if draw == 0 {
        if north_south {
            seq![
                Attachment {
                    x: (b.min.x - 1) as i32,
                    y,
                    z: at as i32,
                    facing: BlockDirection::West,
                    depth,
                },
            ]
        } else {
            seq![
                Attachment {
                    x: at as i32,
                    y,
                    z: (b.min.z - 1) as i32,
                    facing: BlockDirection::North,
                    depth,
                },
            ]
        }
    } else if draw == 1 {
        if north_south {
            seq![
                Attachment {
                    x: (b.max.x + 1) as i32,
                    y,
                    z: at as i32,
                    facing: BlockDirection::East,
                    depth,
                },
            ]
        } else {
            seq![
                Attachment {
                    x: at as i32,
                    y,
                    z: (b.max.z + 1) as i32,
                    facing: BlockDirection::South,
                    depth,
                },
            ]
        }
    } else {
        Seq::empty()
    }
}

/// The last place along a corridor.
pub open spec fn far_end(b: BlockBox, north_south: bool) -> int {
    if north_south {
        b.max.z as int
    } else {
        b.max.x as int
    }
}

/// What branches off a corridor's sides from a place on, every five blocks, and the source
/// behind the draws that this takes.
pub open spec fn side_children<R: RandomSource>(
    b: BlockBox,
    north_south: bool,
    at: int,
    depth: u32,
    rng: R,
) -> (Seq<Attachment>, R)
    decreases far_end(b, north_south) + 8 - at,
{
    if at + 3 <= far_end(b, north_south) {
        let (rest, after) = side_children(b, north_south, at + 5, depth, rng.after_bounded(5));
        (side_child(b, north_south, at, depth, rng.bounded(5)) + rest, after)
    } else {
        (Seq::empty(), rng)
    }
}

/// What branches off a corridor, and the source behind the draws that this takes.
pub open spec fn corridor_children<R: RandomSource>(piece: MineshaftPiece, rng: R) -> (
    Seq<Attachment>,
    R,
) {
    let b = piece.bounding_box;
    let depth = (piece.chain_length + 1) as u32;
    let selection = rng.bounded(4);
    let r1 = rng.after_bounded(4);
    let (x, z, facing) = corridor_end(b, piece.facing, selection);
    let end = Attachment {
        x: x as i32,
        y: (b.min.y + r1.bounded(3) - 1) as i32,
        z: z as i32,
        facing,
        depth,
    };
    let r2 = r1.after_bounded(3);
    let north_south = runs_north_south(piece.facing);
    let (sides, r3) = if piece.chain_length < MAX_DEPTH {
        side_children(
            b,
            north_south,
            if north_south {
                b.min.z + 3
            } else {
                b.min.x + 3
            },
            depth,
            r2,
        )
    } else {
        (Seq::empty(), r2)
    };
    (seq![end] + sides, r3)
}

/// The four sides of a crossing, in the order in which they are drawn for.
pub open spec fn crossing_side(b: BlockBox, i: int, depth: u32) -> Attachment {
    let y = b.min.y;
    if i == 0 {
        Attachment {
            x: (b.min.x + 1) as i32,
            y,
            z: (b.min.z - 1) as i32,
            facing: BlockDirection::North,
            depth,
        }
    } else if i == 1 {
        Attachment {
            x: (b.min.x + 1) as i32,
            y,
            z: (b.max.z + 1) as i32,
            facing: BlockDirection::South,
            depth,
        }
    } else if i == 2 {
        Attachment {
            x: (b.min.x - 1) as i32,
            y,
            z: (b.min.z + 1) as i32,
            facing: BlockDirection::West,
            depth,
        }
    } else {
        Attachment {
            x: (b.max.x + 1) as i32,
            y,
            z: (b.min.z + 1) as i32,
            facing: BlockDirection::East,
            depth,
        }
    }
}

/// The direction of a piece, north where it has none.
pub open spec fn facing_or_north(facing: Option<BlockDirection>) -> BlockDirection {
    match facing {
        Some(d) => d,
        None => BlockDirection::North,
    }
}

/// What branches off the first `n` sides of a crossing, and the source behind the draws
/// that this takes: the side that the crossing faces is not drawn for.
pub open spec fn crossing_children<R: RandomSource>(piece: MineshaftPiece, n: nat, rng: R) -> (
    Seq<Attachment>,
    R,
)
    decreases n,
{
    if n == 0 {
        (Seq::empty(), rng)
    } else {
        let (before, last) = crossing_children(piece, (n - 1) as nat, rng);
        let side = crossing_side(piece.bounding_box, n - 1, (piece.chain_length + 1) as u32);
        if side.facing == facing_or_north(piece.facing) {
            (before, last)
        } else if last.bounded(2) == 0 {
            (before.push(side), last.after_bounded(2))
        } else {
            (before, last.after_bounded(2))
        }
    }
}

/// What goes on from stairs: straight ahead from their lower end.
pub open spec fn stairs_child(piece: MineshaftPiece) -> Attachment {
    let b = piece.bounding_box;
    let facing = facing_or_north(piece.facing);
    let (x, z) = match facing {
        BlockDirection::North => (b.min.x as int, b.min.z - 1),
        BlockDirection::South => (b.min.x as int, b.max.z + 1),
        BlockDirection::West => (b.min.x - 1, b.min.z as int),
        _ => (b.max.x + 1, b.min.z as int),
    };
    Attachment {
        x: x as i32,
        y: b.min.y,
        z: z as i32,
        facing,
        depth: (piece.chain_length + 1) as u32,
    }
}

/// What branches off a piece, and the source behind the draws that this takes.
pub open spec fn children<R: RandomSource>(piece: MineshaftPiece, rng: R) -> (Seq<Attachment>, R) {
    match piece.kind {
        PieceKind::Room => (Seq::empty(), rng),
        PieceKind::Corridor { .. } => corridor_children(piece, rng),
        PieceKind::Crossing => crossing_children(piece, 4, rng),
        PieceKind::Stairs => (seq![stairs_child(piece)], rng),
    }
}

/// Whether attachments are what may branch off a piece: no more than four, one deeper than
/// it, and near.
pub open spec fn are_children(s: Seq<Attachment>, depth: u32, start_x: int, start_z: int) -> bool {
    &&& s.len() <= 4
    &&& forall|i: int|
        0 <= i < s.len() ==> near(#[trigger] s[i], start_x, start_z) && s[i].depth == depth
}

fn corridor_attachments<R: RandomSource>(
    piece: &MineshaftPiece,
    random: &mut R,
    Ghost(start_x): Ghost<int>,
    Ghost(start_z): Ghost<int>,
) -> (r: Vec<Attachment>)
    requires
        piece_near(*piece, start_x, start_z),
        piece.kind is Corridor,
        start_fits(start_x, start_z),
    ensures
        (r@, *final(random)) == corridor_children(*piece, *old(random)),
        are_children(r@, (piece.chain_length + 1) as u32, start_x, start_z),
{
    let b = piece.bounding_box;
    let depth: u32 = piece.chain_length + 1;
    let selection: i32 = random.next_bounded_i32(4);
    let y: i32 = b.min.y + (random.next_bounded_i32(3) - 1);
    let (x, z, facing): (i32, i32, BlockDirection) = match piece.facing {
        Some(BlockDirection::North) => if selection <= 1 {
            (b.min.x, b.min.z - 1, BlockDirection::North)
        } else if selection == 2 {
            (b.min.x - 1, b.min.z, BlockDirection::West)
        } else {
            (b.max.x + 1, b.min.z, BlockDirection::East)
        },
        Some(BlockDirection::South) => if selection <= 1 {
            (b.min.x, b.max.z + 1, BlockDirection::South)
        } else if selection == 2 {
            (b.min.x - 1, b.max.z, BlockDirection::West)
        } else {
            (b.max.x + 1, b.max.z, BlockDirection::East)
        },
        Some(BlockDirection::West) => if selection <= 1 {
            (b.min.x - 1, b.min.z, BlockDirection::West)
        } else if selection == 2 {
            (b.min.x, b.min.z - 1, BlockDirection::North)
        } else {
            (b.min.x, b.max.z + 1, BlockDirection::South)
        },
        _ => if selection <= 1 {
            (b.max.x + 1, b.min.z, BlockDirection::East)
        } else if selection == 2 {
            (b.max.x, b.min.z - 1, BlockDirection::North)
        } else {
            (b.max.x, b.max.z + 1, BlockDirection::South)
        },
    };
    let mut out: Vec<Attachment> = Vec::new();
    let end = Attachment { x, y, z, facing, depth };
    out.push(end);
    let ghost r2 = *random;
    let north_south = match piece.facing {
        Some(BlockDirection::North) => true,
        Some(BlockDirection::South) => true,
        _ => false,
    };
    let (first, last): (i32, i32) = if north_south {
        (b.min.z + 3, b.max.z)
    } else {
        (b.min.x + 3, b.max.x)
    };
    let mut at: i32 = first;
    let ghost all = side_children(b, north_south, first as int, depth, r2);
    assert(out@ + all.0 =~= seq![end] + all.0);
    while at + 3 <= last
        invariant
            piece_near(*piece, start_x, start_z),
            piece.kind is Corridor,
            start_fits(start_x, start_z),
            b == piece.bounding_box,
            depth == piece.chain_length + 1,
            last == far_end(b, north_south),
            first == (if north_south {
                b.min.z + 3
            } else {
                b.min.x + 3
            }),
            first <= at,
            at == first || at <= last + 2,
            1 <= out@.len(),
            5 * (out@.len() - 1) <= at - first,
            forall|i: int|
                0 <= i < out@.len() ==> near(#[trigger] out@[i], start_x, start_z) && out@[i].depth
                    == depth,
            out@ + side_children(b, north_south, at as int, depth, *random).0 == seq![end] + all.0,
            side_children(b, north_south, at as int, depth, *random).1 == all.1,
        decreases last + 5 - at,
    {
        let ghost before = out@;
        let ghost r = *random;
        let draw: i32 = random.next_bounded_i32(5);
        if draw == 0 {
            if north_south {
                out.push(
                    Attachment { x: b.min.x - 1, y: b.min.y, z: at, facing: BlockDirection::West, depth },
                );
            } else {
                out.push(
                    Attachment { x: at, y: b.min.y, z: b.min.z - 1, facing: BlockDirection::North, depth },
                );
            }
        } else if draw == 1 {
            if north_south {
                out.push(
                    Attachment { x: b.max.x + 1, y: b.min.y, z: at, facing: BlockDirection::East, depth },
                );
            } else {
                out.push(
                    Attachment { x: at, y: b.min.y, z: b.max.z + 1, facing: BlockDirection::South, depth },
                );
            }
        }
        proof {
            let child = side_child(b, north_south, at as int, depth, draw as int);
            assert(out@ =~= before + child);
            let rest = side_children(b, north_south, at + 5, depth, *random).0;
            assert(before + (child + rest) =~= out@ + rest);
        }
        at = at + 5;
    }
    assert(out@ + side_children(b, north_south, at as int, depth, *random).0 =~= out@);
    out
}

fn crossing_attachments<R: RandomSource>(
    piece: &MineshaftPiece,
    random: &mut R,
    Ghost(start_x): Ghost<int>,
    Ghost(start_z): Ghost<int>,
) -> (r: Vec<Attachment>)
    requires
        piece_near(*piece, start_x, start_z),
        start_fits(start_x, start_z),
    ensures
        (r@, *final(random)) == crossing_children(*piece, 4, *old(random)),
        are_children(r@, (piece.chain_length + 1) as u32, start_x, start_z),
{
    let b = piece.bounding_box;
    let depth: u32 = piece.chain_length + 1;
    let y: i32 = b.min.y;
    let faced = match piece.facing {
        Some(d) => d,
        None => BlockDirection::North,
    };
    let mut out: Vec<Attachment> = Vec::new();
    let mut i: usize = 0;
    while i < 4
        invariant
            i <= 4,
            piece_near(*piece, start_x, start_z),
            start_fits(start_x, start_z),
            b == piece.bounding_box,
            y == b.min.y,
            depth == piece.chain_length + 1,
            faced == facing_or_north(piece.facing),
            out@.len() <= i,
            forall|k: int|
                0 <= k < out@.len() ==> near(#[trigger] out@[k], start_x, start_z) && out@[k].depth
                    == depth,
            (out@, *random) == crossing_children(*piece, i as nat, *old(random)),
        decreases 4 - i,
    {
        let (facing, x, z): (BlockDirection, i32, i32) = if i == 0 {
            (BlockDirection::North, b.min.x + 1, b.min.z - 1)
        } else if i == 1 {
            (BlockDirection::South, b.min.x + 1, b.max.z + 1)
        } else if i == 2 {
            (BlockDirection::West, b.min.x - 1, b.min.z + 1)
        } else {
            (BlockDirection::East, b.max.x + 1, b.min.z + 1)
        };
        if facing != faced && random.next_bounded_i32(2) == 0 {
            out.push(Attachment { x, y, z, facing, depth });
        }
        i = i + 1;
    }
    out
}

/// Draws what branches off a piece.
fn child_attachments<R: RandomSource>(
    piece: &MineshaftPiece,
    random: &mut R,
    Ghost(start_x): Ghost<int>,
    Ghost(start_z): Ghost<int>,
) -> (r: Vec<Attachment>)
    requires
        piece_near(*piece, start_x, start_z),
        start_fits(start_x, start_z),
    ensures
        (r@, *final(random)) == children(*piece, *old(random)),
        are_children(r@, (piece.chain_length + 1) as u32, start_x, start_z),
{
    match piece.kind {
        PieceKind::Room => Vec::new(),
        PieceKind::Corridor { .. } => corridor_attachments(
            piece,
            random,
            Ghost(start_x),
            Ghost(start_z),
        ),
        PieceKind::Crossing => crossing_attachments(
            piece,
            random,
            Ghost(start_x),
            Ghost(start_z),
        ),
        PieceKind::Stairs => {
            let b = piece.bounding_box;
            let facing = match piece.facing {
                Some(d) => d,
                None => BlockDirection::North,
            };
            let (x, z): (i32, i32) = match facing {
                BlockDirection::North => (b.min.x, b.min.z - 1),
                BlockDirection::South => (b.min.x, b.max.z + 1),
                BlockDirection::West => (b.min.x - 1, b.min.z),
                _ => (b.max.x + 1, b.min.z),
            };
            let mut out: Vec<Attachment> = Vec::new();
            out.push(Attachment { x, y: b.min.y, z, facing, depth: piece.chain_length + 1 });
            out
        },
    }
}

/// How high above the floor of a room something may branch off it.
pub open spec fn height_space(room: BlockBox) -> int {
    if room.max.y - room.min.y - 4 >= 1 {
        room.max.y - room.min.y - 4
    } else {
        1
    }
}

/// How long a room is along an axis.
pub open spec fn room_span(room: BlockBox, along_x: bool) -> int {
    if along_x {
        room.max.x - room.min.x
    } else {
        room.max.z - room.min.z
    }
}

/// What branches off one wall of a room at a place along it.
pub open spec fn wall_child(room: BlockBox, along_x: bool, low: bool, at: int, up: int) -> Attachment {
    let y = (room.min.y + up + 1) as i32;
    if along_x {
        Attachment {
            x: (room.min.x + at) as i32,
            y,
            z: if low {
                (room.min.z - 1) as i32
            } else {
                (room.max.z + 1) as i32
            },
            facing: if low {
                BlockDirection::North
            } else {
                BlockDirection::South
            },
            depth: 1,
        }
    } else {
        Attachment {
            x: if low {
                (room.min.x - 1) as i32
            } else {
                (room.max.x + 1) as i32
            },
            y,
            z: (room.min.z + at) as i32,
            facing: if low {
                BlockDirection::West
            } else {
                BlockDirection::East
            },
            depth: 1,
        }
    }
}

/// What branches off two opposite walls of a room from a place on, and the source behind
/// the draws that this takes: always at both walls, at drawn intervals.
pub open spec fn wall_children<R: RandomSource>(room: BlockBox, along_x: bool, pos: int, rng: R) -> (
    Seq<Attachment>,
    R,
)
    decreases room_span(room, along_x) + 8 - pos,
{
    let span = room_span(room, along_x);
    if 0 <= pos < span {
        proof {
            rng.draws_below(span + 1);
        }
        let at = pos + rng.bounded(span + 1);
        let r1 = rng.after_bounded(span + 1);
        if at + 3 > span {
            (Seq::empty(), r1)
        } else {
            let space = height_space(room);
            let first = wall_child(room, along_x, true, at, r1.bounded(space));
            let r2 = r1.after_bounded(space);
            let second = wall_child(room, along_x, false, at, r2.bounded(space));
            let r3 = r2.after_bounded(space);
            let (rest, after) = wall_children(room, along_x, at + 4, r3);
            (seq![first, second] + rest, after)
        }
    } else {
        (Seq::empty(), rng)
    }
}

/// What branches off a room, and the source behind the draws that this takes.
pub open spec fn room_children<R: RandomSource>(room: BlockBox, rng: R) -> (Seq<Attachment>, R) {
    let (a, r1) = wall_children(room, true, 0, rng);
    let (b, r2) = wall_children(room, false, 0, r1);
    (a + b, r2)
}

/// Whether a box can be that of a mineshaft's room.
pub open spec fn is_room(room: BlockBox, start_x: int, start_z: int) -> bool {
    &&& room.min.x == start_x
    &&& room.min.y == START_Y
    &&& room.min.z == start_z
    &&& 7 <= room.max.x - room.min.x <= 12
    &&& 4 <= room.max.y - room.min.y <= 9
    &&& 7 <= room.max.z - room.min.z <= 12
}

fn wall_attachments<R: RandomSource>(
    room: &BlockBox,
    along_x: bool,
    random: &mut R,
    out: &mut Vec<Attachment>,
    Ghost(start_x): Ghost<int>,
    Ghost(start_z): Ghost<int>,
)
    requires
        is_room(*room, start_x, start_z),
        start_fits(start_x, start_z),
        forall|i: int| 0 <= i < old(out)@.len() ==> near(#[trigger] old(out)@[i], start_x, start_z),
    ensures
        ({
            let (s, after) = wall_children(*room, along_x, 0, *old(random));
            &&& final(out)@ == old(out)@ + s
            &&& *final(random) == after
        }),
        forall|i: int|
            0 <= i < final(out)@.len() ==> near(#[trigger] final(out)@[i], start_x, start_z),
{
    let span: i32 = if along_x {
        room.max.x - room.min.x
    } else {
        room.max.z - room.min.z
    };
    let rise: i32 = room.max.y - room.min.y - 4;
    let space: i32 = if rise >= 1 {
        rise
    } else {
        1
    };
    let ghost all = wall_children(*room, along_x, 0, *random);
    let mut pos: i32 = 0;
    while pos < span
        invariant
            is_room(*room, start_x, start_z),
            start_fits(start_x, start_z),
            span == room_span(*room, along_x),
            7 <= span <= 12,
            space == height_space(*room),
            1 <= space <= 5,
            0 <= pos <= span + 4,
            out@ + wall_children(*room, along_x, pos as int, *random).0 == old(out)@ + all.0,
            wall_children(*room, along_x, pos as int, *random).1 == all.1,
            all == wall_children(*room, along_x, 0, *old(random)),
            forall|i: int| 0 <= i < out@.len() ==> near(#[trigger] out@[i], start_x, start_z),
        decreases span + 4 - pos,
    {
        let ghost before = out@;
        pos = pos + random.next_bounded_i32(span + 1);
        if pos + 3 > span {
            assert(before + Seq::<Attachment>::empty() =~= before);
            return;
        }
        let up: i32 = random.next_bounded_i32(space);
        let again: i32 = random.next_bounded_i32(space);
        let low = room.min.y + up + 1;
        let high: i32 = room.min.y + again + 1;
        let first = if along_x {
            Attachment {
                x: room.min.x + pos,
                y: low,
                z: room.min.z - 1,
                facing: BlockDirection::North,
                depth: 1,
            }
        } else {
            Attachment {
                x: room.min.x - 1,
                y: low,
                z: room.min.z + pos,
                facing: BlockDirection::West,
                depth: 1,
            }
        };
        let second = if along_x {
            Attachment {
                x: room.min.x + pos,
                y: high,
                z: room.max.z + 1,
                facing: BlockDirection::South,
                depth: 1,
            }
        } else {
            Attachment {
                x: room.max.x + 1,
                y: high,
                z: room.min.z + pos,
                facing: BlockDirection::East,
                depth: 1,
            }
        };
        out.push(first);
        out.push(second);
        proof {
            let rest = wall_children(*room, along_x, pos + 4, *random).0;
            assert(before + (seq![first, second] + rest) =~= out@ + rest);
        }
        pos = pos + 4;
    }
    assert(out@ + Seq::<Attachment>::empty() =~= out@);
}

/// Draws what branches off a room.
fn room_attachments<R: RandomSource>(
    room: &BlockBox,
    random: &mut R,
    Ghost(start_x): Ghost<int>,
    Ghost(start_z): Ghost<int>,
) -> (r: Vec<Attachment>)
    requires
        is_room(*room, start_x, start_z),
        start_fits(start_x, start_z),
    ensures
        (r@, *final(random)) == room_children(*room, *old(random)),
        forall|i: int| 0 <= i < r@.len() ==> near(#[trigger] r@[i], start_x, start_z),
{
    let mut out: Vec<Attachment> = Vec::new();
    wall_attachments(room, true, random, &mut out, Ghost(start_x), Ghost(start_z));
    wall_attachments(room, false, random, &mut out, Ghost(start_x), Ghost(start_z));
    assert(out@ =~= room_children(*room, *old(random)).0);
    out
}

/// A mineshaft while it is assembled.
pub struct Assembly<R> {
    pub pieces: Seq<MineshaftPiece>,
    pub pending: Seq<Attachment>,
    pub rng: R,
}

/// A step of the assembly: the attachment that was added last is taken off, and where it
/// lies within reach and there is room the drawn piece is added, with what branches off it.
pub open spec fn step<R: RandomSource>(a: Assembly<R>, start_x: int, start_z: int) -> Assembly<R> {
    if a.pending.len() == 0 {
        a
    } else {
        let att = a.pending.last();
        let rest = a.pending.drop_last();
        if att.depth >= MAX_DEPTH || !in_reach(att, start_x, start_z) {
            Assembly { pieces: a.pieces, pending: rest, rng: a.rng }
        } else {
            let (piece, r1) = new_piece(att, a.pieces, a.rng);
            match piece {
                None => Assembly { pieces: a.pieces, pending: rest, rng: r1 },
                Some(piece) => {
                    let (more, r2) = children(piece, r1);
                    Assembly { pieces: a.pieces.push(piece), pending: rest + more, rng: r2 }
                },
            }
        }
    }
}

/// A mineshaft after some steps.
pub open spec fn after_steps<R: RandomSource>(
    a: Assembly<R>,
    n: nat,
    start_x: int,
    start_z: int,
) -> Assembly<R>
    decreases n,
{
    if n == 0 {
        a
    } else {
        step(after_steps(a, (n - 1) as nat, start_x, start_z), start_x, start_z)
    }
}

/// The box of the room of a mineshaft in a chunk, and the source behind the draws that this
/// takes.
pub open spec fn room_box<R: RandomSource>(chunk_x: int, chunk_z: int, rng: R) -> (BlockBox, R) {
    let west = chunk_x * 16 + 2;
    let north = chunk_z * 16 + 2;
    let r0 = rng.after_double();
    let r1 = r0.after_bounded(6);
    let r2 = r1.after_bounded(6);
    (
        BlockBox {
            min: BlockPos { x: west as i32, y: START_Y, z: north as i32 },
            max: BlockPos {
                x: (west + 7 + r0.bounded(6)) as i32,
                y: (54 + r1.bounded(6)) as i32,
                z: (north + 7 + r2.bounded(6)) as i32,
            },
        },
        r2.after_bounded(6),
    )
}

/// The mineshaft of a chunk before its first step: its room, and what branches off that.
pub open spec fn started<R: RandomSource>(chunk_x: int, chunk_z: int, rng: R) -> Assembly<R> {
    let (room, r1) = room_box(chunk_x, chunk_z, rng);
    let (pending, r2) = room_children(room, r1);
    Assembly {
        pieces: seq![
            MineshaftPiece {
                kind: PieceKind::Room,
                bounding_box: room,
                facing: None,
                chain_length: 0,
            },
        ],
        pending,
        rng: r2,
    }
}

/// Whether an assembly is the finished mineshaft of a chunk.
pub open spec fn is_assembled<R: RandomSource>(
    done: Assembly<R>,
    chunk_x: int,
    chunk_z: int,
    rng: R,
) -> bool {
    &&& done.pending.len() == 0
    &&& exists|n: nat|
        done == #[trigger] after_steps(
            started(chunk_x, chunk_z, rng),
            n,
            chunk_x * 16 + 2,
            chunk_z * 16 + 2,
        )
}

/// How much an attachment can still grow into.
spec fn growth(depth: u32) -> nat
    decreases MAX_DEPTH - depth,
{
    if depth >= MAX_DEPTH {
        1
    } else {
        5 * growth((depth + 1) as u32)
    }
}

/// How much attachments can still grow into.
spec fn total_growth(s: Seq<Attachment>) -> nat
    decreases s.len(),
{
    if s.len() == 0 {
        0
    } else {
        total_growth(s.drop_last()) + growth(s.last().depth)
    }
}

proof fn lemma_growth_positive(depth: u32)
    ensures
        growth(depth) >= 1,
    decreases MAX_DEPTH - depth,
{
    if depth < MAX_DEPTH {
        lemma_growth_positive((depth + 1) as u32);
    }
}

proof fn lemma_growth_concat(a: Seq<Attachment>, b: Seq<Attachment>)
    ensures
        total_growth(a + b) == total_growth(a) + total_growth(b),
    decreases b.len(),
{
    if b.len() == 0 {
        assert(a + b =~= a);
    } else {
        lemma_growth_concat(a, b.drop_last());
        assert((a + b).drop_last() =~= a + b.drop_last());
    }
}

proof fn lemma_growth_of_children(s: Seq<Attachment>, depth: u32)
    requires
        forall|i: int| 0 <= i < s.len() ==> (#[trigger] s[i]).depth == depth,
    ensures
        total_growth(s) == s.len() * growth(depth),
    decreases s.len(),
{
    if s.len() > 0 {
        lemma_growth_of_children(s.drop_last(), depth);
        let n = s.len();
        let g = growth(depth);
        assert(s.last().depth == depth);
        assert((n - 1) * g + g == n * g) by (nonlinear_arith);
    } else {
        assert(0 * growth(depth) == 0) by (nonlinear_arith);
    }
}

/// The mineshaft of a chunk.
#[derive(Debug)]
pub struct MineshaftPosition {
    pub start_pos: BlockPos,
    pub pieces: Vec<MineshaftPiece>,
}

/// Generates mineshafts.
#[derive(Clone, Copy, Debug, PartialEq, Eq, Structural)]
pub struct MineshaftGenerator {
    pub mineshaft_type: MineshaftType,
}

/// Whether the mineshaft of a chunk lies well within the coordinates.
pub open spec fn chunk_fits(chunk_x: i32, chunk_z: i32) -> bool {
    start_fits(chunk_x * 16 + 2, chunk_z * 16 + 2)
}

impl MineshaftGenerator {
    /// Assembles the mineshaft of a chunk.
    pub fn get_structure_position<R: RandomSource>(
        &self,
        chunk_x: i32,
        chunk_z: i32,
        random: &mut R,
    ) -> (r: Option<MineshaftPosition>)
        requires
            chunk_fits(chunk_x, chunk_z),
        ensures
            r is Some,
            r->0.start_pos == (BlockPos {
                x: (chunk_x * 16 + 2) as i32,
                y: START_Y,
                z: (chunk_z * 16 + 2) as i32,
            }),
            is_assembled(
                (Assembly { pieces: r->0.pieces@, pending: Seq::empty(), rng: *final(random) }),
                chunk_x as int,
                chunk_z as int,
                *old(random),
            ),
    {
        random.skip_f64();
        let west: i32 = chunk_x * 16 + 2;
        let north: i32 = chunk_z * 16 + 2;
        let ghost sx = west as int;
        let ghost sz = north as int;
        let max_x: i32 = west + 7 + random.next_bounded_i32(6);
        let max_y: i32 = 54 + random.next_bounded_i32(6);
        let max_z: i32 = north + 7 + random.next_bounded_i32(6);
        let room = BlockBox::new(west, START_Y, north, max_x, max_y, max_z);
        let mut pieces: Vec<MineshaftPiece> = Vec::new();
        pieces.push(
            MineshaftPiece {
                kind: PieceKind::Room,
                bounding_box: room,
                facing: None,
                chain_length: 0,
            },
        );
        let mut pending = room_attachments(&room, random, Ghost(sx), Ghost(sz));
        let ghost start = started(chunk_x as int, chunk_z as int, *old(random));
        let ghost mut n: nat = 0;
        proof {
            assert(pieces@ =~= start.pieces);
            assert(pending@ == start.pending);
            assert(*random == start.rng);
        }
        while pending.len() > 0
            invariant
                west == sx,
                north == sz,
                start_fits(sx, sz),
                sx == chunk_x * 16 + 2,
                sz == chunk_z * 16 + 2,
                start == started(chunk_x as int, chunk_z as int, *old(random)),
                forall|i: int| 0 <= i < pending@.len() ==> near(#[trigger] pending@[i], sx, sz),
                (Assembly { pieces: pieces@, pending: pending@, rng: *random }) == after_steps(
                    start,
                    n,
                    sx,
                    sz,
                ),
            decreases total_growth(pending@),
        {
            let ghost all = pending@;
            let ghost before = Assembly { pieces: pieces@, pending: pending@, rng: *random };
            let att = match pending.pop() {
                Some(att) => att,
                None => Attachment { x: 0, y: 0, z: 0, facing: BlockDirection::North, depth: 0 },
            };
            proof {
                assert(att == all.last());
                assert(pending@ =~= all.drop_last());
                assert(near(all[all.len() - 1], sx, sz));
                lemma_growth_positive(att.depth);
                n = n + 1;
            }
            if att.depth < MAX_DEPTH && att.x - west <= BOUND && west - att.x <= BOUND && att.z
                - north <= BOUND && north - att.z <= BOUND {
                if let Some(piece) = create_piece(&att, random, &pieces, Ghost(sx), Ghost(sz)) {
                    let mut more = child_attachments(&piece, random, Ghost(sx), Ghost(sz));
                    let ghost rest = pending@;
                    let ghost added = more@;
                    proof {
                        lemma_growth_concat(rest, added);
                        lemma_growth_of_children(added, (att.depth + 1) as u32);
                        let g = growth((att.depth + 1) as u32);
                        lemma_growth_positive((att.depth + 1) as u32);
                        let k = added.len();
                        assert(k * g <= 4 * g) by (nonlinear_arith)
                            requires
                                k <= 4,
                        ;
                        assert(growth(att.depth) == 5 * g);
                    }
                    pieces.push(piece);
                    pending.append(&mut more);
                    assert(pending@ =~= rest + added);
                    assert(total_growth(pending@) < total_growth(all));
                }
            }
            proof {
                let now = Assembly { pieces: pieces@, pending: pending@, rng: *random };
                assert(now == step(before, sx, sz));
                assert(after_steps(start, n, sx, sz) == step(
                    after_steps(start, (n - 1) as nat, sx, sz),
                    sx,
                    sz,
                ));
            }
        }
        proof {
            assert(pending@ =~= Seq::<Attachment>::empty());
            let done = Assembly { pieces: pieces@, pending: Seq::empty(), rng: *random };
            assert(done == after_steps(start, n, sx, sz));
        }
        Some(MineshaftPosition { start_pos: BlockPos::new(west, START_Y, north), pieces })
    }
}

/// Whether no two pieces overlap.
pub open spec fn lie_apart(pieces: Seq<MineshaftPiece>) -> bool {
    forall|i: int, j: int|
        0 <= i < j < pieces.len() ==> !(#[trigger] pieces[i]).bounding_box.overlaps(
            (#[trigger] pieces[j]).bounding_box,
        )
}

/// Whether the pieces behind the room branch off no deeper than allowed.
pub open spec fn depth_bounded(pieces: Seq<MineshaftPiece>) -> bool {
    forall|i: int| 0 <= i < pieces.len() ==> (#[trigger] pieces[i]).chain_length < MAX_DEPTH
}

proof fn lemma_corridor_is_free<R: RandomSource>(
    att: Attachment,
    pieces: Seq<MineshaftPiece>,
    sections: int,
    rng: R,
)
    ensures
        corridor_at(att, pieces, sections, rng).0 is Some ==> is_free(
            pieces,
            corridor_at(att, pieces, sections, rng).0->0.bounding_box,
        ) && corridor_at(att, pieces, sections, rng).0->0.chain_length == att.depth,
    decreases sections,
{
    if sections > 0 && !is_free(pieces, corridor_box(att, sections)) {
        lemma_corridor_is_free(att, pieces, sections - 1, rng);
    }
}

proof fn lemma_step_keeps<R: RandomSource>(a: Assembly<R>, start_x: int, start_z: int)
    requires
        lie_apart(a.pieces),
        depth_bounded(a.pieces),
    ensures
        lie_apart(step(a, start_x, start_z).pieces),
        depth_bounded(step(a, start_x, start_z).pieces),
{
    if a.pending.len() > 0 {
        let att = a.pending.last();
        if att.depth < MAX_DEPTH && in_reach(att, start_x, start_z) {
            let r1 = a.rng.after_bounded(100);
            lemma_corridor_is_free(att, a.pieces, r1.bounded(3) + 2, r1.after_bounded(3));
            let piece = new_piece(att, a.pieces, a.rng).0;
            if piece is Some {
                assert(is_free(a.pieces, piece->0.bounding_box));
                let more = a.pieces.push(piece->0);
                assert forall|i: int, j: int| 0 <= i < j < more.len() implies !(
                #[trigger] more[i]).bounding_box.overlaps((#[trigger] more[j]).bounding_box) by {
                    assert(more[i] == a.pieces[i]);
                    if j < a.pieces.len() {
                        assert(more[j] == a.pieces[j]);
                    }
                }
                assert forall|i: int| 0 <= i < more.len() implies (
                #[trigger] more[i]).chain_length < MAX_DEPTH by {
                    if i < a.pieces.len() {
                        assert(more[i] == a.pieces[i]);
                    }
                }
            }
        }
    }
}

proof fn lemma_steps_keep<R: RandomSource>(a: Assembly<R>, n: nat, start_x: int, start_z: int)
    requires
        lie_apart(a.pieces),
        depth_bounded(a.pieces),
    ensures
        lie_apart(after_steps(a, n, start_x, start_z).pieces),
        depth_bounded(after_steps(a, n, start_x, start_z).pieces),
    decreases n,
{
    if n > 0 {
        lemma_steps_keep(a, (n - 1) as nat, start_x, start_z);
        lemma_step_keeps(after_steps(a, (n - 1) as nat, start_x, start_z), start_x, start_z);
    }
}

/// No two pieces of a mineshaft overlap.
pub proof fn law_pieces_lie_apart<R: RandomSource>(
    done: Assembly<R>,
    chunk_x: int,
    chunk_z: int,
    rng: R,
)
    requires
        is_assembled(done, chunk_x, chunk_z, rng),
    ensures
        lie_apart(done.pieces),
{
    let start = started(chunk_x, chunk_z, rng);
    let n = choose|n: nat|
        done == #[trigger] after_steps(start, n, chunk_x * 16 + 2, chunk_z * 16 + 2);
    lemma_steps_keep(start, n, chunk_x * 16 + 2, chunk_z * 16 + 2);
}

/// A mineshaft branches no deeper than it may.
pub proof fn law_depth_is_bounded<R: RandomSource>(
    done: Assembly<R>,
    chunk_x: int,
    chunk_z: int,
    rng: R,
)
    requires
        is_assembled(done, chunk_x, chunk_z, rng),
    ensures
        depth_bounded(done.pieces),
{
    let start = started(chunk_x, chunk_z, rng);
    let n = choose|n: nat|
        done == #[trigger] after_steps(start, n, chunk_x * 16 + 2, chunk_z * 16 + 2);
    lemma_steps_keep(start, n, chunk_x * 16 + 2, chunk_z * 16 + 2);
}

proof fn lemma_done_stays<R: RandomSource>(
    a: Assembly<R>,
    n: nat,
    m: nat,
    start_x: int,
    start_z: int,
)
    requires
        n <= m,
        after_steps(a, n, start_x, start_z).pending.len() == 0,
    ensures
        after_steps(a, m, start_x, start_z) == after_steps(a, n, start_x, start_z),
    decreases m,
{
    if n < m {
        lemma_done_stays(a, n, (m - 1) as nat, start_x, start_z);
    }
}

/// The mineshaft of a chunk is determined by the draws: there is no second way to finish
/// its assembly.
pub proof fn law_assembly_is_determined<R: RandomSource>(
    first: Assembly<R>,
    second: Assembly<R>,
    chunk_x: int,
    chunk_z: int,
    rng: R,
)
    requires
        is_assembled(first, chunk_x, chunk_z, rng),
        is_assembled(second, chunk_x, chunk_z, rng),
    ensures
        first == second,
{
    let start = started(chunk_x, chunk_z, rng);
    let sx = chunk_x * 16 + 2;
    let sz = chunk_z * 16 + 2;
    let n = choose|n: nat| first == #[trigger] after_steps(start, n, sx, sz);
    let m = choose|m: nat| second == #[trigger] after_steps(start, m, sx, sz);
    if n <= m {
        lemma_done_stays(start, n, m, sx, sz);
    } else {
        lemma_done_stays(start, m, n, sx, sz);
    }
}

/// Whether a place lies on the first blocks outside a box, on the side that a direction points
/// to.
pub open spec fn just_outside(b: BlockBox, x: int, z: int, facing: BlockDirection) -> bool {
    match facing {
        BlockDirection::North => z == b.min.z - 1 && b.min.x <= x <= b.max.x,
        BlockDirection::South => z == b.max.z + 1 && b.min.x <= x <= b.max.x,
        BlockDirection::West => x == b.min.x - 1 && b.min.z <= z <= b.max.z,
        BlockDirection::East => x == b.max.x + 1 && b.min.z <= z <= b.max.z,
        _ => false,
    }
}

/// Whether the corners of a box are in order, and all places just outside it are coordinates.
pub open spec fn is_proper(b: BlockBox) -> bool {
    &&& i32::MIN < b.min.x <= b.max.x < i32::MAX
    &&& i32::MIN < b.min.y <= b.max.y < i32::MAX
    &&& i32::MIN < b.min.z <= b.max.z < i32::MAX
}

/// Stairs always go on, by one branch and without a draw: one piece deeper than they are, the
/// way that they face, at the height of their floor, just beyond their far end.
pub proof fn law_stairs_go_on<R: RandomSource>(piece: MineshaftPiece, rng: R)
    requires
        piece.kind is Stairs,
        is_proper(piece.bounding_box),
        piece.chain_length < u32::MAX,
        piece.facing matches Some(d) ==> d == BlockDirection::North || d == BlockDirection::South
            || d == BlockDirection::West || d == BlockDirection::East,
    ensures
        ({
            let (branches, after) = children(piece, rng);
            let b = piece.bounding_box;
            let branch = branches[0];
            &&& branches.len() == 1
            &&& after == rng
            &&& branch.depth == piece.chain_length + 1
            &&& branch.facing == (match piece.facing {
                Some(d) => d,
                None => BlockDirection::North,
            })
            &&& branch.y == b.min.y
            &&& just_outside(b, branch.x as int, branch.z as int, branch.facing)
            &&& branch.facing == BlockDirection::North || branch.facing == BlockDirection::South
                ==> branch.x == b.min.x
            &&& branch.facing == BlockDirection::West || branch.facing == BlockDirection::East
                ==> branch.z == b.min.z
        }),
{
}

/// A source behind some draws below five.
pub open spec fn behind_fives<R: RandomSource>(rng: R, n: nat) -> R
    decreases n,
{
    if n == 0 {
        rng
    } else {
        behind_fives(rng, (n - 1) as nat).after_bounded(5)
    }
}

proof fn lemma_behind_fives<R: RandomSource>(rng: R, n: nat)
    ensures
        behind_fives(rng.after_bounded(5), n) == behind_fives(rng, n + 1),
    decreases n,
{
    if n > 0 {
        lemma_behind_fives(rng, (n - 1) as nat);
    } else {
        reveal_with_fuel(behind_fives, 2);
    }
}

proof fn lemma_side_drawn<R: RandomSource>(
    b: BlockBox,
    north_south: bool,
    at: int,
    depth: u32,
    rng: R,
    j: nat,
)
    requires
        at + 5 * j + 3 <= far_end(b, north_south),
    ensures
        forall|k: int|
            0 <= k < side_child(
                b,
                north_south,
                at + 5 * j,
                depth,
                behind_fives(rng, j).bounded(5),
            ).len() ==> side_children(b, north_south, at, depth, rng).0.contains(
                #[trigger] side_child(
                    b,
                    north_south,
                    at + 5 * j,
                    depth,
                    behind_fives(rng, j).bounded(5),
                )[k],
            ),
    decreases j,
{
    let all = side_children(b, north_south, at, depth, rng).0;
    let first = side_child(b, north_south, at, depth, rng.bounded(5));
    let rest = side_children(b, north_south, at + 5, depth, rng.after_bounded(5)).0;
    assert(all == first + rest);
    if j == 0 {
        assert forall|k: int| 0 <= k < first.len() implies all.contains(#[trigger] first[k]) by {
            assert(all[k] == first[k]);
        }
    } else {
        let i = (j - 1) as nat;
        lemma_side_drawn(b, north_south, at + 5, depth, rng.after_bounded(5), i);
        lemma_behind_fives(rng, i);
        let here = side_child(b, north_south, at + 5 * j, depth, behind_fives(rng, j).bounded(5));
        assert(at + 5 + 5 * i == at + 5 * j);
        assert forall|k: int| 0 <= k < here.len() implies all.contains(#[trigger] here[k]) by {
            assert(rest.contains(here[k]));
            let q = choose|q: int| 0 <= q < rest.len() && rest[q] == here[k];
            assert(all[first.len() + q] == here[k]);
        }
    }
}

proof fn lemma_sides_are_drawn<R: RandomSource>(
    b: BlockBox,
    north_south: bool,
    at: int,
    depth: u32,
    rng: R,
    k: int,
) -> (j: nat)
    requires
        0 <= k < side_children(b, north_south, at, depth, rng).0.len(),
    ensures
        at + 5 * j + 3 <= far_end(b, north_south),
        side_child(b, north_south, at + 5 * j, depth, behind_fives(rng, j).bounded(5)) == seq![
            side_children(b, north_south, at, depth, rng).0[k],
        ],
    decreases far_end(b, north_south) + 8 - at,
{
    let all = side_children(b, north_south, at, depth, rng).0;
    let first = side_child(b, north_south, at, depth, rng.bounded(5));
    let rest = side_children(b, north_south, at + 5, depth, rng.after_bounded(5)).0;
    assert(all == first + rest);
    if k < first.len() {
        assert(first =~= seq![all[k]]);
        0
    } else {
        let i = lemma_sides_are_drawn(
            b,
            north_south,
            at + 5,
            depth,
            rng.after_bounded(5),
            k - first.len(),
        );
        lemma_behind_fives(rng, i);
        assert(at + 5 + 5 * i == at + 5 * (i + 1));
        i + 1
    }
}

/// A corridor always goes on from its far end: straight ahead in two of four draws, and to
/// either side in one, a block up or down or at its own height as a second draw says.
pub proof fn law_corridors_go_on<R: RandomSource>(piece: MineshaftPiece, rng: R)
    requires
        piece.kind is Corridor,
        is_proper(piece.bounding_box),
        piece.chain_length < MAX_DEPTH,
    ensures
        ({
            let b = piece.bounding_box;
            let end = children(piece, rng).0[0];
            let way = rng.bounded(4);
            let up = rng.after_bounded(4).bounded(3);
            let facing = match piece.facing {
                Some(BlockDirection::North) => BlockDirection::North,
                Some(BlockDirection::South) => BlockDirection::South,
                Some(BlockDirection::West) => BlockDirection::West,
                _ => BlockDirection::East,
            };
            let far = match facing {
                BlockDirection::North => b.min.z,
                BlockDirection::South => b.max.z,
                BlockDirection::West => b.min.x,
                _ => b.max.x,
            };
            let north_south = facing == BlockDirection::North || facing == BlockDirection::South;
            &&& children(piece, rng).0.len() >= 1
            &&& end.depth == piece.chain_length + 1
            &&& 0 <= up < 3 ==> end.y == b.min.y + up - 1
            &&& just_outside(b, end.x as int, end.z as int, end.facing)
            &&& way <= 1 ==> end.facing == facing && (north_south ==> end.x == b.min.x) && (
            !north_south ==> end.z == b.min.z)
            &&& way == 2 ==> end.facing == (if north_south {
                BlockDirection::West
            } else {
                BlockDirection::North
            })
            &&& way >= 3 ==> end.facing == (if north_south {
                BlockDirection::East
            } else {
                BlockDirection::South
            })
            &&& way >= 2 ==> (if north_south {
                end.z == far
            } else {
                end.x == far
            })
        }),
{
    assert(children(piece, rng).0[0] == corridor_children(piece, rng).0[0]);
    rng.after_bounded(4).draws_below(3);
}

/// Every five blocks along a corridor, from the fourth on and up to the fourth from its end, one
/// of five draws opens its one side there and one its other, at the height of its floor and one
/// piece deeper; nothing else branches off its sides.
pub proof fn law_corridors_branch_to_their_sides<R: RandomSource>(
    piece: MineshaftPiece,
    rng: R,
    j: nat,
    k: int,
)
    requires
        piece.kind is Corridor,
        is_proper(piece.bounding_box),
        piece.chain_length < 8,
    ensures
        ({
            let b = piece.bounding_box;
            let branches = children(piece, rng).0;
            let north_south = piece.facing == Some(BlockDirection::North) || piece.facing == Some(
                BlockDirection::South,
            );
            let sides = rng.after_bounded(4).after_bounded(3);
            let draw = behind_fives(sides, j).bounded(5);
            let at = if north_south {
                b.min.z + 3 + 5 * j
            } else {
                b.min.x + 3 + 5 * j
            };
            let last = if north_south {
                b.max.z
            } else {
                b.max.x
            };
            let depth = (piece.chain_length + 1) as u32;
            let y = b.min.y;
            &&& at + 3 <= last && draw == 0 && north_south ==> branches.contains(
                Attachment {
                    x: (b.min.x - 1) as i32,
                    y,
                    z: at as i32,
                    facing: BlockDirection::West,
                    depth,
                },
            )
            &&& at + 3 <= last && draw == 1 && north_south ==> branches.contains(
                Attachment {
                    x: (b.max.x + 1) as i32,
                    y,
                    z: at as i32,
                    facing: BlockDirection::East,
                    depth,
                },
            )
            &&& at + 3 <= last && draw == 0 && !north_south ==> branches.contains(
                Attachment {
                    x: at as i32,
                    y,
                    z: (b.min.z - 1) as i32,
                    facing: BlockDirection::North,
                    depth,
                },
            )
            &&& at + 3 <= last && draw == 1 && !north_south ==> branches.contains(
                Attachment {
                    x: at as i32,
                    y,
                    z: (b.max.z + 1) as i32,
                    facing: BlockDirection::South,
                    depth,
                },
            )
            &&& 1 <= k < branches.len() ==> {
                let branch = branches[k];
                &&& branch.depth == depth
                &&& branch.y == y
                &&& just_outside(b, branch.x as int, branch.z as int, branch.facing)
                &&& north_south ==> branch.facing == BlockDirection::West || branch.facing
                    == BlockDirection::East
                &&& !north_south ==> branch.facing == BlockDirection::North || branch.facing
                    == BlockDirection::South
            }
        }),
{
    let b = piece.bounding_box;
    let branches = children(piece, rng).0;
    let north_south = runs_north_south(piece.facing);
    let sides = rng.after_bounded(4).after_bounded(3);
    let depth = (piece.chain_length + 1) as u32;
    let start = if north_south {
        b.min.z + 3
    } else {
        b.min.x + 3
    };
    let all = side_children(b, north_south, start, depth, sides).0;
    assert(branches.len() == 1 + all.len());
    if start + 5 * j + 3 <= far_end(b, north_south) {
        lemma_side_drawn(b, north_south, start, depth, sides, j);
        let draw = behind_fives(sides, j).bounded(5);
        let here = side_child(b, north_south, start + 5 * j, depth, draw);
        if draw == 0 || draw == 1 {
            assert(here.len() == 1);
            assert(all.contains(here[0]));
            let q = choose|q: int| 0 <= q < all.len() && all[q] == here[0];
            assert(branches[q + 1] == here[0]);
        }
    }
    if 1 <= k < branches.len() {
        assert(branches[k] == all[k - 1]);
        let i = lemma_sides_are_drawn(b, north_south, start, depth, sides, k - 1);
        let one = side_child(b, north_south, start + 5 * i, depth, behind_fives(sides, i).bounded(5));
        assert(one[0] == branches[k]);
    }
}

/// A crossing opens each of its sides but the one that it faces in one of two draws, in the
/// middle of the side, at the height of its floor and one piece deeper.
pub proof fn law_crossings_branch_to_their_sides<R: RandomSource>(
    piece: MineshaftPiece,
    rng: R,
    k: int,
)
    requires
        piece.kind is Crossing,
        is_proper(piece.bounding_box),
        piece.bounding_box.min.x < piece.bounding_box.max.x,
        piece.bounding_box.min.z < piece.bounding_box.max.z,
        piece.chain_length < u32::MAX,
    ensures
        ({
            let b = piece.bounding_box;
            let branches = children(piece, rng).0;
            let faced = match piece.facing {
                Some(d) => d,
                None => BlockDirection::North,
            };
            let all_open = {
                &&& crossing_children(piece, 0, rng).1.bounded(2) == 0
                &&& crossing_children(piece, 1, rng).1.bounded(2) == 0
                &&& crossing_children(piece, 2, rng).1.bounded(2) == 0
                &&& crossing_children(piece, 3, rng).1.bounded(2) == 0
            };
            let sides = if faced == BlockDirection::North || faced == BlockDirection::South || faced
                == BlockDirection::West || faced == BlockDirection::East {
                3nat
            } else {
                4
            };
            &&& branches.len() <= sides
            &&& all_open ==> branches.len() == sides
            &&& 0 <= k < branches.len() ==> {
                let branch = branches[k];
                &&& branch.facing != faced
                &&& branch.depth == piece.chain_length + 1
                &&& branch.y == b.min.y
                &&& just_outside(b, branch.x as int, branch.z as int, branch.facing)
                &&& branch.facing == BlockDirection::North || branch.facing
                    == BlockDirection::South ==> branch.x == b.min.x + 1
                &&& branch.facing == BlockDirection::West || branch.facing == BlockDirection::East
                    ==> branch.z == b.min.z + 1
            }
            &&& crossing_children(piece, 0, rng).1 == rng
            &&& forall|l: int|
                0 <= l < branches.len() && l != k && 0 <= k < branches.len() ==> (
                #[trigger] branches[l]).facing != branches[k].facing
        }),
{
    reveal_with_fuel(crossing_children, 5);
}

/// The box of a corridor: three wide and high, five long for each section, from the place that
/// it is attached at, ahead.
pub proof fn law_corridors_lie_ahead(att: Attachment, sections: int)
    requires
        well_inside(att.x as int) && well_inside(att.y as int) && well_inside(att.z as int),
        1 <= sections <= 4,
    ensures
        ({
            let b = corridor_box(att, sections);
            let length = 5 * sections - 1;
            &&& b.min.y == att.y
            &&& b.max.y == att.y + 2
            &&& att.facing == BlockDirection::North ==> b.max.z == att.z && b.min.z == att.z
                - length && b.min.x == att.x && b.max.x == att.x + 2
            &&& att.facing == BlockDirection::South ==> b.min.z == att.z && b.max.z == att.z
                + length && b.min.x == att.x && b.max.x == att.x + 2
            &&& att.facing == BlockDirection::West ==> b.max.x == att.x && b.min.x == att.x
                - length && b.min.z == att.z && b.max.z == att.z + 2
            &&& att.facing == BlockDirection::East ==> b.min.x == att.x && b.max.x == att.x
                + length && b.min.z == att.z && b.max.z == att.z + 2
        }),
{
}

/// The boxes of crossings and stairs: a crossing is five by five, a block to the side of where
/// it is attached; stairs are three wide and nine long, and lead five blocks down.
pub proof fn law_crossings_and_stairs_lie_ahead(att: Attachment, height: int)
    requires
        well_inside(att.x as int) && well_inside(att.y as int) && well_inside(att.z as int),
        height == 3 || height == 7,
    ensures
        ({
            let c = crossing_box(att, height);
            let s = stairs_box(att);
            &&& c.min.y == att.y
            &&& c.max.y == att.y + height - 1
            &&& s.min.y == att.y - 5
            &&& s.max.y == att.y + 2
            &&& att.facing == BlockDirection::North ==> {
                &&& c.min.x == att.x - 1 && c.max.x == att.x + 3 && c.max.z == att.z && c.min.z
                    == att.z - 4
                &&& s.min.x == att.x && s.max.x == att.x + 2 && s.max.z == att.z && s.min.z
                    == att.z - 8
            }
            &&& att.facing == BlockDirection::South ==> {
                &&& c.min.x == att.x - 1 && c.max.x == att.x + 3 && c.min.z == att.z && c.max.z
                    == att.z + 4
                &&& s.min.x == att.x && s.max.x == att.x + 2 && s.min.z == att.z && s.max.z
                    == att.z + 8
            }
            &&& att.facing == BlockDirection::West ==> {
                &&& c.min.z == att.z - 1 && c.max.z == att.z + 3 && c.max.x == att.x && c.min.x
                    == att.x - 4
                &&& s.min.z == att.z && s.max.z == att.z + 2 && s.max.x == att.x && s.min.x
                    == att.x - 8
            }
            &&& att.facing == BlockDirection::East ==> {
                &&& c.min.z == att.z - 1 && c.max.z == att.z + 3 && c.min.x == att.x && c.max.x
                    == att.x + 4
                &&& s.min.z == att.z && s.max.z == att.z + 2 && s.min.x == att.x && s.max.x
                    == att.x + 8
            }
        }),
{
}

proof fn lemma_corridor_is_longest<R: RandomSource>(
    att: Attachment,
    pieces: Seq<MineshaftPiece>,
    sections: int,
    rng: R,
    s: int,
)
    requires
        0 < s <= sections <= i32::MAX,
        forall|t: int| s < t <= sections ==> !#[trigger] is_free(pieces, corridor_box(att, t)),
        is_free(pieces, corridor_box(att, s)),
    ensures
        ({
            let has_rails = rng.bounded(3) == 0;
            let r1 = rng.after_bounded(3);
            corridor_at(att, pieces, sections, rng) == (
                Some(
                    MineshaftPiece {
                        kind: PieceKind::Corridor {
                            num_sections: s as i32,
                            has_rails,
                            spider_corridor: !has_rails && r1.bounded(23) == 0,
                        },
                        bounding_box: corridor_box(att, s),
                        facing: Some(att.facing),
                        chain_length: att.depth,
                    },
                ),
                if has_rails {
                    r1
                } else {
                    r1.after_bounded(23)
                },
            )
        }),
    decreases sections,
{
    if s < sections {
        assert(!is_free(pieces, corridor_box(att, sections)));
        lemma_corridor_is_longest(att, pieces, sections - 1, rng, s);
    }
}

proof fn lemma_no_corridor<R: RandomSource>(
    att: Attachment,
    pieces: Seq<MineshaftPiece>,
    sections: int,
    rng: R,
)
    requires
        forall|t: int| 0 < t <= sections ==> !#[trigger] is_free(pieces, corridor_box(att, t)),
    ensures
        corridor_at(att, pieces, sections, rng) == (None::<MineshaftPiece>, rng),
    decreases sections,
{
    if sections > 0 {
        assert(!is_free(pieces, corridor_box(att, sections)));
        lemma_no_corridor(att, pieces, sections - 1, rng);
    }
}

/// Of a hundred draws twenty make a crossing, ten make stairs and seventy a corridor, each of
/// them only where it overlaps no piece. A corridor is as long as there is room for, two to four
/// sections as drawn at most; it has rails in one of three draws, and one without belongs to
/// spiders in one of twenty-three. A crossing is high in one of four draws.
pub proof fn law_pieces_are_drawn<R: RandomSource>(
    att: Attachment,
    pieces: Seq<MineshaftPiece>,
    rng: R,
    s: int,
)
    ensures
        ({
            let roll = rng.bounded(100);
            let r1 = rng.after_bounded(100);
            let (piece, after) = new_piece(att, pieces, rng);
            let most = r1.bounded(3) + 2;
            let r2 = r1.after_bounded(3);
            let r3 = r2.after_bounded(3);
            let tall = crossing_box(
                att,
                if r1.bounded(4) == 0 {
                    7
                } else {
                    3
                },
            );
            &&& roll >= 80 ==> after == r1.after_bounded(4) && (piece is Some <==> is_free(
                pieces,
                tall,
            )) && (piece matches Some(p) ==> p.kind is Crossing && p.bounding_box == tall)
            &&& 70 <= roll < 80 ==> after == r1 && (piece is Some <==> is_free(
                pieces,
                stairs_box(att),
            )) && (piece matches Some(p) ==> p.kind is Stairs && p.bounding_box == stairs_box(att))
            &&& roll < 70 && 0 < s <= most && is_free(pieces, corridor_box(att, s)) && (forall|
                t: int,
            |
                s < t <= most ==> !#[trigger] is_free(pieces, corridor_box(att, t))) ==> {
                &&& piece matches Some(p) && p.kind == (PieceKind::Corridor {
                    num_sections: s as i32,
                    has_rails: r2.bounded(3) == 0,
                    spider_corridor: r2.bounded(3) != 0 && r3.bounded(23) == 0,
                }) && p.bounding_box == corridor_box(att, s)
                &&& after == if r2.bounded(3) == 0 {
                    r3
                } else {
                    r3.after_bounded(23)
                }
            }
            &&& roll < 70 && (forall|t: int|
                0 < t <= most ==> !#[trigger] is_free(pieces, corridor_box(att, t))) ==> piece
                is None && after == r2
            &&& piece matches Some(p) ==> p.facing == Some(att.facing) && p.chain_length
                == att.depth
        }),
{
    let r1 = rng.after_bounded(100);
    let most = r1.bounded(3) + 2;
    r1.draws_below(3);
    let r2 = r1.after_bounded(3);
    if rng.bounded(100) < 70 {
        if 0 < s <= most && is_free(pieces, corridor_box(att, s)) && (forall|t: int|
            s < t <= most ==> !#[trigger] is_free(pieces, corridor_box(att, t))) {
            lemma_corridor_is_longest(att, pieces, most, r2, s);
        }
        if forall|t: int| 0 < t <= most ==> !#[trigger] is_free(pieces, corridor_box(att, t)) {
            lemma_no_corridor(att, pieces, most, r2);
        }
        lemma_corridor_faces(att, pieces, most, r2);
    }
}

proof fn lemma_corridor_faces<R: RandomSource>(
    att: Attachment,
    pieces: Seq<MineshaftPiece>,
    sections: int,
    rng: R,
)
    ensures
        corridor_at(att, pieces, sections, rng).0 matches Some(p) ==> p.facing == Some(att.facing)
            && p.chain_length == att.depth,
    decreases sections,
{
    if sections > 0 {
        lemma_corridor_faces(att, pieces, sections - 1, rng);
    }
}

/// A step takes the branch that was added last. Within eighty blocks of the room's corner and
/// above the eighth piece of a chain the drawn piece is added, and all that branches off it; any
/// other branch ends.
pub proof fn law_branches_are_followed_within_reach<R: RandomSource>(
    a: Assembly<R>,
    start_x: int,
    start_z: int,
)
    requires
        a.pending.len() > 0,
    ensures
        ({
            let att = a.pending.last();
            let rest = a.pending.drop_last();
            let after = step(a, start_x, start_z);
            let followed = att.depth < 8 && -80 <= att.x - start_x <= 80 && -80 <= att.z - start_z
                <= 80;
            let (piece, r1) = new_piece(att, a.pieces, a.rng);
            &&& !followed ==> after == (Assembly { pieces: a.pieces, pending: rest, rng: a.rng })
            &&& followed && piece is None ==> after == (Assembly {
                pieces: a.pieces,
                pending: rest,
                rng: r1,
            })
            &&& followed && piece is Some ==> {
                &&& after.pieces == a.pieces.push(piece->0)
                &&& after.pending == rest + children(piece->0, r1).0
                &&& after.rng == children(piece->0, r1).1
            }
        }),
{
}

proof fn lemma_stack<R: RandomSource>(
    a: Assembly<R>,
    from: nat,
    to: nat,
    k: int,
    start_x: int,
    start_z: int,
) -> (m: nat)
    requires
        from <= to,
        0 <= k < after_steps(a, from, start_x, start_z).pending.len(),
        after_steps(a, to, start_x, start_z).pending.len() <= k,
    ensures
        from <= m < to,
        after_steps(a, m, start_x, start_z).pending.len() == k + 1,
        after_steps(a, m, start_x, start_z).pending.last() == after_steps(
            a,
            from,
            start_x,
            start_z,
        ).pending[k],
    decreases to - from,
{
    let here = after_steps(a, from, start_x, start_z);
    let next = after_steps(a, from + 1, start_x, start_z);
    assert(next == step(here, start_x, start_z));
    if here.pending.len() == k + 1 {
        from
    } else {
        assert(next.pending.len() >= here.pending.len() - 1);
        assert(next.pending[k] == here.pending[k]);
        lemma_stack(a, from + 1, to, k, start_x, start_z)
    }
}

/// In a finished mineshaft no branch is forgotten: each that was open at any time was taken by
/// a later step.
pub proof fn law_every_branch_is_followed<R: RandomSource>(
    done: Assembly<R>,
    chunk_x: int,
    chunk_z: int,
    rng: R,
    from: nat,
    k: int,
)
    requires
        is_assembled(done, chunk_x, chunk_z, rng),
        0 <= k < after_steps(
            started(chunk_x, chunk_z, rng),
            from,
            chunk_x * 16 + 2,
            chunk_z * 16 + 2,
        ).pending.len(),
    ensures
        exists|m: nat|
            from <= m && (#[trigger] after_steps(
                started(chunk_x, chunk_z, rng),
                m,
                chunk_x * 16 + 2,
                chunk_z * 16 + 2,
            )).pending.len() == k + 1 && after_steps(
                started(chunk_x, chunk_z, rng),
                m,
                chunk_x * 16 + 2,
                chunk_z * 16 + 2,
            ).pending.last() == after_steps(
                started(chunk_x, chunk_z, rng),
                from,
                chunk_x * 16 + 2,
                chunk_z * 16 + 2,
            ).pending[k],
{
    let start = started(chunk_x, chunk_z, rng);
    let sx = chunk_x * 16 + 2;
    let sz = chunk_z * 16 + 2;
    let n = choose|n: nat| done == #[trigger] after_steps(start, n, sx, sz);
    if n < from {
        lemma_done_stays(start, n, from, sx, sz);
    }
    let m = lemma_stack(start, from, n, k, sx, sz);
    assert(after_steps(start, m, sx, sz).pending.len() == k + 1);
}

/// In a finished mineshaft, whenever stairs were added, the place beyond their far end was drawn
/// for by a later step.
pub proof fn law_stairs_are_gone_on_from<R: RandomSource>(
    done: Assembly<R>,
    chunk_x: int,
    chunk_z: int,
    rng: R,
    from: nat,
)
    requires
        is_assembled(done, chunk_x, chunk_z, rng),
        ({
            let sx = chunk_x * 16 + 2;
            let sz = chunk_z * 16 + 2;
            let before = after_steps(started(chunk_x, chunk_z, rng), from, sx, sz);
            let after = after_steps(started(chunk_x, chunk_z, rng), from + 1, sx, sz);
            &&& after.pieces.len() == before.pieces.len() + 1
            &&& after.pieces.last().kind is Stairs
            &&& is_proper(after.pieces.last().bounding_box)
            &&& after.pieces.last().chain_length < u32::MAX
            &&& after.pieces.last().facing matches Some(d) && (d == BlockDirection::North || d
                == BlockDirection::South || d == BlockDirection::West || d == BlockDirection::East)
        }),
    ensures
        ({
            let sx = chunk_x * 16 + 2;
            let sz = chunk_z * 16 + 2;
            let stairs = after_steps(
                started(chunk_x, chunk_z, rng),
                from + 1,
                sx,
                sz,
            ).pieces.last();
            exists|m: nat|
                {
                    let open = (#[trigger] after_steps(
                        started(chunk_x, chunk_z, rng),
                        m,
                        sx,
                        sz,
                    )).pending;
                    let branch = open.last();
                    &&& from < m
                    &&& open.len() > 0
                    &&& Some(branch.facing) == stairs.facing
                    &&& branch.depth == stairs.chain_length + 1
                    &&& branch.y == stairs.bounding_box.min.y
                    &&& just_outside(
                        stairs.bounding_box,
                        branch.x as int,
                        branch.z as int,
                        branch.facing,
                    )
                }
        }),
{
    let sx = chunk_x * 16 + 2;
    let sz = chunk_z * 16 + 2;
    let start = started(chunk_x, chunk_z, rng);
    let before = after_steps(start, from, sx, sz);
    let after = after_steps(start, from + 1, sx, sz);
    assert(after == step(before, sx, sz));
    let att = before.pending.last();
    let (piece, r1) = new_piece(att, before.pieces, before.rng);
    law_branches_are_followed_within_reach(before, sx, sz);
    law_stairs_go_on(piece->0, r1);
    let k = after.pending.len() - 1;
    assert(after.pending[k] == children(piece->0, r1).0[0]);
    law_every_branch_is_followed(done, chunk_x, chunk_z, rng, from + 1, k);
}

/// A mineshaft starts with a room in its chunk: seven to twelve blocks wide and long beyond its
/// corner, at height fifty, with its ceiling four to nine above its floor.
pub proof fn law_rooms_are_drawn<R: RandomSource>(chunk_x: int, chunk_z: int, rng: R)
    requires
        start_fits(chunk_x * 16 + 2, chunk_z * 16 + 2),
    ensures
        ({
            let first = started(chunk_x, chunk_z, rng).pieces;
            let b = first[0].bounding_box;
            let r0 = rng.after_double();
            &&& first.len() == 1
            &&& first[0].kind is Room
            &&& first[0].chain_length == 0
            &&& b.min.x == chunk_x * 16 + 2
            &&& b.min.y == 50
            &&& b.min.z == chunk_z * 16 + 2
            &&& b.max.x - b.min.x == 7 + r0.bounded(6)
            &&& b.max.y == 54 + r0.after_bounded(6).bounded(6)
            &&& b.max.z - b.min.z == 7 + r0.after_bounded(6).after_bounded(6).bounded(6)
            &&& 7 <= b.max.x - b.min.x <= 12
            &&& 4 <= b.max.y - b.min.y <= 9
            &&& 7 <= b.max.z - b.min.z <= 12
        }),
{
    let r0 = rng.after_double();
    r0.draws_below(6);
    r0.after_bounded(6).draws_below(6);
    r0.after_bounded(6).after_bounded(6).draws_below(6);
}

proof fn lemma_wall_branches<R: RandomSource>(
    room: BlockBox,
    along_x: bool,
    pos: int,
    rng: R,
    k: int,
)
    requires
        is_proper(room),
        room.max.x < i32::MAX - 100 && room.max.y < i32::MAX - 100 && room.max.z < i32::MAX - 100,
        room_span(room, along_x) <= 100,
        height_space(room) <= 100,
        0 <= pos,
        0 <= k < wall_children(room, along_x, pos, rng).0.len(),
    ensures
        ({
            let all = wall_children(room, along_x, pos, rng).0;
            let branch = all[k];
            let other = all[if k % 2 == 0 {
                k + 1
            } else {
                k - 1
            }];
            &&& all.len() % 2 == 0
            &&& branch.depth == 1
            &&& just_outside(room, branch.x as int, branch.z as int, branch.facing)
            &&& room.min.y < branch.y <= room.min.y + height_space(room)
            &&& branch.facing == (if along_x {
                if k % 2 == 0 {
                    BlockDirection::North
                } else {
                    BlockDirection::South
                }
            } else {
                if k % 2 == 0 {
                    BlockDirection::West
                } else {
                    BlockDirection::East
                }
            })
            &&& along_x ==> branch.x == other.x
            &&& !along_x ==> branch.z == other.z
        }),
    decreases room_span(room, along_x) + 8 - pos,
{
    let span = room_span(room, along_x);
    rng.draws_below(span + 1);
    let at = pos + rng.bounded(span + 1);
    let r1 = rng.after_bounded(span + 1);
    let space = height_space(room);
    r1.draws_below(space);
    let first = wall_child(room, along_x, true, at, r1.bounded(space));
    let r2 = r1.after_bounded(space);
    r2.draws_below(space);
    let second = wall_child(room, along_x, false, at, r2.bounded(space));
    let r3 = r2.after_bounded(space);
    let rest = wall_children(room, along_x, at + 4, r3).0;
    let all = wall_children(room, along_x, pos, rng).0;
    assert(all == seq![first, second] + rest);
    if k >= 2 {
        lemma_wall_branches(room, along_x, at + 4, r3, k - 2);
        assert(all[k] == rest[k - 2]);
        let o = if k % 2 == 0 {
            k + 1
        } else {
            k - 1
        };
        assert(all[o] == rest[o - 2]);
    } else {
        if rest.len() > 0 {
            lemma_wall_branches(room, along_x, at + 4, r3, 0);
        }
        assert(all[0] == first);
        assert(all[1] == second);
    }
}

/// What branches off a room branches off opposite walls at the same places, outward, above its
/// floor, as the first pieces of their chains.
pub proof fn law_rooms_branch_off_opposite_walls<R: RandomSource>(
    room: BlockBox,
    along_x: bool,
    rng: R,
    k: int,
)
    requires
        is_proper(room),
        room.max.x < i32::MAX - 100 && room.max.y < i32::MAX - 100 && room.max.z < i32::MAX - 100,
        room.max.x - room.min.x <= 100,
        room.max.y - room.min.y <= 100,
        room.max.z - room.min.z <= 100,
        0 <= k < wall_children(room, along_x, 0, rng).0.len(),
    ensures
        ({
            let all = wall_children(room, along_x, 0, rng).0;
            let branch = all[k];
            let other = all[if k % 2 == 0 {
                k + 1
            } else {
                k - 1
            }];
            &&& all.len() % 2 == 0
            &&& branch.depth == 1
            &&& just_outside(room, branch.x as int, branch.z as int, branch.facing)
            &&& room.min.y < branch.y
            &&& branch.y <= room.max.y - 4 || branch.y == room.min.y + 1
            &&& branch.facing == (if along_x {
                if k % 2 == 0 {
                    BlockDirection::North
                } else {
                    BlockDirection::South
                }
            } else {
                if k % 2 == 0 {
                    BlockDirection::West
                } else {
                    BlockDirection::East
                }
            })
            &&& along_x ==> branch.x == other.x
            &&& !along_x ==> branch.z == other.z
        }),
{
    lemma_wall_branches(room, along_x, 0, rng, k);
}

/// A wall is opened at drawn places: the first draw says where, and so do the next, each four
/// blocks further on at least, as long as three blocks are left.
pub proof fn law_walls_are_opened_as_drawn<R: RandomSource>(
    room: BlockBox,
    along_x: bool,
    pos: int,
    rng: R,
)
    requires
        0 <= pos,
    ensures
        ({
            let span = if along_x {
                room.max.x - room.min.x
            } else {
                room.max.z - room.min.z
            };
            let at = pos + rng.bounded(span + 1);
            let r1 = rng.after_bounded(span + 1);
            let rise = room.max.y - room.min.y - 4;
            let space = if rise > 1 {
                rise
            } else {
                1
            };
            let r2 = r1.after_bounded(space);
            let r3 = r2.after_bounded(space);
            let (opened, after) = wall_children(room, along_x, pos, rng);
            &&& pos >= span ==> opened.len() == 0 && after == rng
            &&& pos < span && at + 3 > span ==> opened.len() == 0 && after == r1
            &&& pos < span && at + 3 <= span ==> {
                let (rest, last) = wall_children(room, along_x, at + 4, r3);
                &&& opened.len() == 2 + rest.len()
                &&& opened.skip(2) == rest
                &&& after == last
                &&& along_x ==> opened[0].x == (room.min.x + at) as i32 && opened[1].x == (
                room.min.x + at) as i32
                &&& !along_x ==> opened[0].z == (room.min.z + at) as i32 && opened[1].z == (
                room.min.z + at) as i32
                &&& opened[0].y == (room.min.y + r1.bounded(space) + 1) as i32
                &&& opened[1].y == (room.min.y + r2.bounded(space) + 1) as i32
            }
        }),
{
    let span = room_span(room, along_x);
    let at = pos + rng.bounded(span + 1);
    let r1 = rng.after_bounded(span + 1);
    let space = height_space(room);
    let r3 = r1.after_bounded(space).after_bounded(space);
    let opened = wall_children(room, along_x, pos, rng).0;
    if pos < span && at + 3 <= span {
        assert(opened.skip(2) =~= wall_children(room, along_x, at + 4, r3).0);
    }
}

/// All four walls of the room are opened: first those to the north and south, then those to the
/// west and east, drawn behind them.
pub proof fn law_all_walls_of_a_room_are_opened<R: RandomSource>(
    chunk_x: int,
    chunk_z: int,
    rng: R,
)
    ensures
        ({
            let start = started(chunk_x, chunk_z, rng);
            let room = start.pieces[0].bounding_box;
            let r1 = rng.after_double().after_bounded(6).after_bounded(6).after_bounded(6);
            let (a, r2) = wall_children(room, true, 0, r1);
            let (b, r3) = wall_children(room, false, 0, r2);
            start.pending == a + b && start.rng == r3
        }),
{
}

/// A piece is of the type of its kind.
pub proof fn law_pieces_are_of_their_type(kind: PieceKind)
    ensures
        kind is Room <==> piece_type(kind) == StructurePieceType::MineshaftRoom,
        kind is Corridor <==> piece_type(kind) == StructurePieceType::MineshaftCorridor,
        kind is Crossing <==> piece_type(kind) == StructurePieceType::MineshaftCrossing,
        kind is Stairs <==> piece_type(kind) == StructurePieceType::MineshaftStairs,
{
}

} // verus!
