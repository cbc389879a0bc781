//! Woodland mansions: a grid of rooms with walls around it.

use super::geometry::{fits, BlockBox, BlockPos};
use super::piece::{StructurePiece, StructurePieceType};
use vstd::prelude::*;

verus! {

/// How many rooms a mansion has along each axis.
pub const GRID_SIZE: i32 = 4;

/// How far a room is from the next: its own size and a corridor's.
pub const ROOM_STEP: i32 = 11;

/// The width of a corridor.
pub const CORRIDOR_WIDTH: i32 = 3;

/// How high a mansion is.
pub const MANSION_HEIGHT: i32 = 20;

/// How wide a mansion is, with the walls around it.
pub const MANSION_SPAN: i32 = 57;

/// Generates woodland mansions.
#[derive(Clone, Copy, Debug, PartialEq, Eq, Structural)]
pub struct WoodlandMansionGenerator;

impl WoodlandMansionGenerator {
    /// Where the mansion of a chunk starts: above the middle of the chunk.
    pub fn get_structure_position(&self, chunk_x: i32, chunk_z: i32, sea_level: i32) -> (r: BlockPos)
        requires
            fits(chunk_x * 16),
            fits(chunk_x * 16 + 8),
            fits(chunk_z * 16),
            fits(chunk_z * 16 + 8),
            fits(sea_level + 4),
        ensures
            r.x == chunk_x * 16 + 8,
            r.y == sea_level + 4,
            r.z == chunk_z * 16 + 8,
    {
        BlockPos::new(chunk_x * 16 + 8, sea_level + 4, chunk_z * 16 + 8)
    }
}

/// A room in its place of the grid.
#[derive(Debug)]
pub struct MansionRoom {
    pub x: i32,
    pub z: i32,
    pub template: String,
}

/// What a room is.
pub struct RoomModel {
    pub x: int,
    pub z: int,
    pub template: Seq<char>,
}

impl View for MansionRoom {
    type V = RoomModel;

    open spec fn view(&self) -> RoomModel {
        RoomModel { x: self.x as int, z: self.z as int, template: self.template@ }
    }
}

impl MansionRoom {
    fn at(x: i32, z: i32, template: &str) -> (r: Self)
        ensures
            r@ == (RoomModel { x: x as int, z: z as int, template: template@ }),
    {
        MansionRoom { x, z, template: template.to_owned() }
    }
}

/// The templates of a mansion's rooms, one row of the grid after the other.
pub open spec fn room_templates() -> Seq<Seq<char>> {
    seq![
        "woodland_mansion/2x2_a1"@,
        "woodland_mansion/1x2_a1"@,
        "woodland_mansion/1x2_a2"@,
        "woodland_mansion/1x1_a1"@,
        "woodland_mansion/1x2_a3"@,
        "woodland_mansion/2x2_a2"@,
        "woodland_mansion/1x2_a4"@,
        "woodland_mansion/1x1_a2"@,
        "woodland_mansion/1x2_a5"@,
        "woodland_mansion/1x2_a6"@,
        "woodland_mansion/2x2_a3"@,
        "woodland_mansion/1x1_a3"@,
        "woodland_mansion/1x1_a4"@,
        "woodland_mansion/1x2_a7"@,
        "woodland_mansion/1x2_a8"@,
        "woodland_mansion/2x2_a4"@,
    ]
}

/// The rooms of a mansion: one in each place of the grid.
pub open spec fn mansion_rooms() -> Seq<RoomModel> {
    Seq::new(
        16,
        |i: int| RoomModel { x: i / 4, z: i % 4, template: room_templates()[i] },
    )
}

/// A woodland mansion.
#[derive(Debug)]
pub struct WoodlandMansionPiece {
    pub piece: StructurePiece,
    pub rooms: Vec<MansionRoom>,
}

/// What rooms are.
pub open spec fn room_models(rooms: Seq<MansionRoom>) -> Seq<RoomModel> {
    rooms.map_values(|r: MansionRoom| r@)
}

/// A template at a place.
#[derive(Debug)]
pub struct PlannedTemplate {
    pub name: String,
    pub pos: BlockPos,
}

/// What a template at a place is.
pub struct PlanModel {
    pub name: Seq<char>,
    pub x: int,
    pub y: int,
    pub z: int,
}

impl View for PlannedTemplate {
    type V = PlanModel;

    open spec fn view(&self) -> PlanModel {
        PlanModel {
            name: self.name@,
            x: self.pos.x as int,
            y: self.pos.y as int,
            z: self.pos.z as int,
        }
    }
}

/// What a plan is.
pub open spec fn plan_models(plan: Seq<PlannedTemplate>) -> Seq<PlanModel> {
    plan.map_values(|p: PlannedTemplate| p@)
}

/// The corner that the grid is laid out from.
pub open spec fn grid_corner(bounds: BlockBox) -> (int, int, int) {
    (bounds.min.x + 5, bounds.min.y as int, bounds.min.z + 5)
}

/// The block of a place of the grid, along one axis.
pub open spec fn grid_block(corner: int, place: int) -> int {
    corner + place * ROOM_STEP + CORRIDOR_WIDTH
}

/// The entrance: before the middle of the grid.
pub open spec fn planned_entrance(bounds: BlockBox) -> PlanModel {
    let (x, y, z) = grid_corner(bounds);
    PlanModel { name: "woodland_mansion/entrance"@, x: x + GRID_SIZE * ROOM_STEP / 2, y, z }
}

/// A room in its place.
pub open spec fn planned_room(bounds: BlockBox, room: RoomModel) -> PlanModel {
    let (x, y, z) = grid_corner(bounds);
    PlanModel {
        name: room.template,
        x: grid_block(x, room.x),
        y: y + 1,
        z: grid_block(z, room.z),
    }
}

/// Whether a place lies just outside the grid along an axis.
pub open spec fn outside(place: int) -> bool {
    place == -1 || place == GRID_SIZE
}

/// The wall of a place around the grid: a corner where the place is outside along both
/// axes.
pub open spec fn planned_wall(bounds: BlockBox, gx: int, gz: int) -> PlanModel {
    let (x, y, z) = grid_corner(bounds);
    PlanModel {
        name: if outside(gx) && outside(gz) {
            "woodland_mansion/wall_corner"@
        } else {
            "woodland_mansion/wall_flat"@
        },
        x: grid_block(x, gx),
        y: y + 1,
        z: grid_block(z, gz),
    }
}

/// The walls of the first `n` places of a row.
pub open spec fn wall_row(bounds: BlockBox, gx: int, n: nat) -> Seq<PlanModel>
    decreases n,
{
    if n == 0 {
        Seq::empty()
    } else {
        let gz = n - 2;
        let before = wall_row(bounds, gx, (n - 1) as nat);
        if outside(gx) || outside(gz) {
            before.push(planned_wall(bounds, gx, gz))
        } else {
            before
        }
    }
}

/// The walls of the first `n` rows.
pub open spec fn wall_rows(bounds: BlockBox, n: nat) -> Seq<PlanModel>
    decreases n,
{
    if n == 0 {
        Seq::empty()
    } else {
        wall_rows(bounds, (n - 1) as nat) + wall_row(bounds, n - 2, 6)
    }
}

/// What a mansion is built of, in order: the entrance, the rooms, and the walls.
pub open spec fn mansion_plan(bounds: BlockBox, rooms: Seq<RoomModel>) -> Seq<PlanModel> {
    seq![planned_entrance(bounds)] + rooms.map_values(|r: RoomModel| planned_room(bounds, r))
        + wall_rows(bounds, 6)
}

/// Whether all blocks of the grid and around it are coordinates.
pub open spec fn grid_fits(bounds: BlockBox) -> bool {
    &&& fits(bounds.min.x - 16)
    &&& fits(bounds.min.x + MANSION_SPAN)
    &&& fits(bounds.min.y + 1)
    &&& fits(bounds.min.z - 16)
    &&& fits(bounds.min.z + MANSION_SPAN)
}

fn push_plan(plan: &mut Vec<PlannedTemplate>, name: &str, x: i32, y: i32, z: i32)
    ensures
        plan_models(final(plan)@) == plan_models(old(plan)@).push(
            (PlanModel { name: name@, x: x as int, y: y as int, z: z as int }),
        ),
{
    plan.push(PlannedTemplate { name: name.to_owned(), pos: BlockPos::new(x, y, z) });
    assert(plan_models(plan@) =~= plan_models(old(plan)@).push(
        PlanModel { name: name@, x: x as int, y: y as int, z: z as int },
    ));
}

impl WoodlandMansionPiece {
    /// A mansion at a place. Its layout does not depend on the seed.
    pub fn new(origin: BlockPos, _seed: i64) -> (r: Self)
        requires
            fits(origin.x + MANSION_SPAN),
            fits(origin.y + MANSION_HEIGHT),
            fits(origin.z + MANSION_SPAN),
        ensures
            r.piece.bounding_box.min == origin,
            r.piece.bounding_box.max.x == origin.x + MANSION_SPAN,
            r.piece.bounding_box.max.y == origin.y + MANSION_HEIGHT,
            r.piece.bounding_box.max.z == origin.z + MANSION_SPAN,
            r.piece.piece_type == StructurePieceType::WoodlandMansion,
            r.piece.chain_length == 0,
            room_models(r.rooms@) == mansion_rooms(),
    {
        let bounding_box = BlockBox::new(
            origin.x,
            origin.y,
            origin.z,
            origin.x + MANSION_SPAN,
            origin.y + MANSION_HEIGHT,
            origin.z + MANSION_SPAN,
        );
        let mut rooms: Vec<MansionRoom> = Vec::new();
        rooms.push(MansionRoom::at(0, 0, "woodland_mansion/2x2_a1"));
        rooms.push(MansionRoom::at(0, 1, "woodland_mansion/1x2_a1"));
        rooms.push(MansionRoom::at(0, 2, "woodland_mansion/1x2_a2"));
        rooms.push(MansionRoom::at(0, 3, "woodland_mansion/1x1_a1"));
        rooms.push(MansionRoom::at(1, 0, "woodland_mansion/1x2_a3"));
        rooms.push(MansionRoom::at(1, 1, "woodland_mansion/2x2_a2"));
        rooms.push(MansionRoom::at(1, 2, "woodland_mansion/1x2_a4"));
        rooms.push(MansionRoom::at(1, 3, "woodland_mansion/1x1_a2"));
        rooms.push(MansionRoom::at(2, 0, "woodland_mansion/1x2_a5"));
        rooms.push(MansionRoom::at(2, 1, "woodland_mansion/1x2_a6"));
        rooms.push(MansionRoom::at(2, 2, "woodland_mansion/2x2_a3"));
        rooms.push(MansionRoom::at(2, 3, "woodland_mansion/1x1_a3"));
        rooms.push(MansionRoom::at(3, 0, "woodland_mansion/1x1_a4"));
        rooms.push(MansionRoom::at(3, 1, "woodland_mansion/1x2_a7"));
        rooms.push(MansionRoom::at(3, 2, "woodland_mansion/1x2_a8"));
        rooms.push(MansionRoom::at(3, 3, "woodland_mansion/2x2_a4"));
        assert(room_models(rooms@) =~= mansion_rooms());
        let piece = StructurePiece {
            piece_type: StructurePieceType::WoodlandMansion,
            bounding_box,
            chain_length: 0,
        };
        WoodlandMansionPiece { piece, rooms }
    }

    /// The piece as one of any structure.
    pub fn get_structure_piece(&self) -> (r: &StructurePiece)
        ensures
            *r == self.piece,
    {
        &self.piece
    }

    /// Lists the templates that the mansion is built of, in order.
    pub fn place(&self) -> (r: Vec<PlannedTemplate>)
        requires
            grid_fits(self.piece.bounding_box),
            forall|i: int|
                0 <= i < self.rooms@.len() ==> 0 <= (#[trigger] self.rooms@[i]).x < GRID_SIZE && 0
                    <= self.rooms@[i].z < GRID_SIZE,
        ensures
            plan_models(r@) == mansion_plan(self.piece.bounding_box, room_models(self.rooms@)),
    {
        let ghost bounds = self.piece.bounding_box;
        let x: i32 = self.piece.bounding_box.min.x + 5;
        let y: i32 = self.piece.bounding_box.min.y;
        let z: i32 = self.piece.bounding_box.min.z + 5;
        let mut plan: Vec<PlannedTemplate> = Vec::new();
        push_plan(&mut plan, "woodland_mansion/entrance", x + GRID_SIZE * ROOM_STEP / 2, y, z);
        let ghost start = seq![planned_entrance(bounds)];
        let ghost all = room_models(self.rooms@).map_values(|r: RoomModel| planned_room(bounds, r));
        assert(plan_models(plan@) =~= start + all.take(0));
        let mut i: usize = 0;
        while i < self.rooms.len()
            invariant
                i <= self.rooms@.len(),
                bounds == self.piece.bounding_box,
                grid_fits(bounds),
                x == bounds.min.x + 5,
                y == bounds.min.y,
                z == bounds.min.z + 5,
                forall|i: int|
                    0 <= i < self.rooms@.len() ==> 0 <= (#[trigger] self.rooms@[i]).x < GRID_SIZE
                        && 0 <= self.rooms@[i].z < GRID_SIZE,
                all == room_models(self.rooms@).map_values(
                    |r: RoomModel| planned_room(bounds, r),
                ),
                plan_models(plan@) == start + all.take(i as int),
            decreases self.rooms.len() - i,
        {
            let room = &self.rooms[i];
            assert(*room == self.rooms@[i as int]);
            push_plan(
                &mut plan,
                room.template.as_str(),
                x + room.x * ROOM_STEP + CORRIDOR_WIDTH,
                y + 1,
                z + room.z * ROOM_STEP + CORRIDOR_WIDTH,
            );
            assert(all[i as int] == planned_room(bounds, room@));
            assert(plan_models(plan@) =~= start + all.take(i + 1));
            i = i + 1;
        }
        assert(all.take(i as int) =~= all);
        let ghost inner = start + all;
        assert(plan_models(plan@) =~= inner + wall_rows(bounds, 0));
        let mut gx: i32 = -1;
        while gx <= GRID_SIZE
            invariant
                -1 <= gx <= GRID_SIZE + 1,
                bounds == self.piece.bounding_box,
                grid_fits(bounds),
                x == bounds.min.x + 5,
                y == bounds.min.y,
                z == bounds.min.z + 5,
                plan_models(plan@) == inner + wall_rows(bounds, (gx + 1) as nat),
            decreases GRID_SIZE + 1 - gx,
        {
            let ghost rows = inner + wall_rows(bounds, (gx + 1) as nat);
            assert(plan_models(plan@) =~= rows + wall_row(bounds, gx as int, 0));
            let mut gz: i32 = -1;
            while gz <= GRID_SIZE
                invariant
                    -1 <= gx <= GRID_SIZE,
                    -1 <= gz <= GRID_SIZE + 1,
                    grid_fits(bounds),
                    x == bounds.min.x + 5,
                    y == bounds.min.y,
                    z == bounds.min.z + 5,
                    plan_models(plan@) == rows + wall_row(bounds, gx as int, (gz + 1) as nat),
                decreases GRID_SIZE + 1 - gz,
            {
                let edge_x = gx == -1 || gx == GRID_SIZE;
                let edge_z = gz == -1 || gz == GRID_SIZE;
                if edge_x || edge_z {
                    let name = if edge_x && edge_z {
                        "woodland_mansion/wall_corner"
                    } else {
                        "woodland_mansion/wall_flat"
                    };
                    let ghost before = wall_row(bounds, gx as int, (gz + 1) as nat);
                    push_plan(
                        &mut plan,
                        name,
                        x + gx * ROOM_STEP + CORRIDOR_WIDTH,
                        y + 1,
                        z + gz * ROOM_STEP + CORRIDOR_WIDTH,
                    );
                    assert(plan_models(plan@) =~= rows + before.push(
                        planned_wall(bounds, gx as int, gz as int),
                    ));
                }
                gz = gz + 1;
            }
            assert(plan_models(plan@) =~= inner + wall_rows(bounds, (gx + 2) as nat));
            gx = gx + 1;
        }
        plan
    }
}

/// Every place of the grid has exactly one room.
pub proof fn law_one_room_in_each_place(x: int, z: int)
    requires
        0 <= x < GRID_SIZE,
        0 <= z < GRID_SIZE,
    ensures
        mansion_rooms()[4 * x + z].x == x,
        mansion_rooms()[4 * x + z].z == z,
        forall|i: int|
            0 <= i < mansion_rooms().len() && (#[trigger] mansion_rooms()[i]).x == x
                && mansion_rooms()[i].z == z ==> i == 4 * x + z,
{
}

/// The rooms of a mansion lie within its box, and no two start in the same place.
pub proof fn law_rooms_lie_apart(bounds: BlockBox, i: int, j: int)
    requires
        0 <= i < j < 16,
    ensures
        ({
            let a = planned_room(bounds, mansion_rooms()[i]);
            let b = planned_room(bounds, mansion_rooms()[j]);
            &&& a.x >= b.x + ROOM_STEP || b.x >= a.x + ROOM_STEP || a.z >= b.z + ROOM_STEP || b.z
                >= a.z + ROOM_STEP
            &&& bounds.min.x <= a.x <= bounds.min.x + MANSION_SPAN
            &&& bounds.min.z <= a.z <= bounds.min.z + MANSION_SPAN
        }),
{
    let a = mansion_rooms()[i];
    let b = mansion_rooms()[j];
    assert(a.x == i / 4 && a.z == i % 4 && b.x == j / 4 && b.z == j % 4);
    assert(a.x != b.x || a.z != b.z);
}

proof fn lemma_wall_in_row(bounds: BlockBox, gx: int, gz: int, n: nat)
    requires
        -1 <= gz < n - 1,
        outside(gx) || outside(gz),
    ensures
        wall_row(bounds, gx, n).contains(planned_wall(bounds, gx, gz)),
    decreases n,
{
    let row = wall_row(bounds, gx, n);
    let before = wall_row(bounds, gx, (n - 1) as nat);
    if gz == n - 2 {
        assert(row[row.len() - 1] == planned_wall(bounds, gx, gz));
    } else {
        lemma_wall_in_row(bounds, gx, gz, (n - 1) as nat);
        let k = choose|k: int|
            0 <= k < before.len() && before[k] == planned_wall(bounds, gx, gz);
        assert(row[k] == before[k]);
    }
}

proof fn lemma_wall_in_rows(bounds: BlockBox, gx: int, gz: int, n: nat)
    requires
        -1 <= gx < n - 1,
        -1 <= gz <= 4,
        outside(gx) || outside(gz),
    ensures
        wall_rows(bounds, n).contains(planned_wall(bounds, gx, gz)),
    decreases n,
{
    let before = wall_rows(bounds, (n - 1) as nat);
    let row = wall_row(bounds, n - 2, 6);
    if gx == n - 2 {
        lemma_wall_in_row(bounds, gx, gz, 6);
        let k = choose|k: int| 0 <= k < row.len() && row[k] == planned_wall(bounds, gx, gz);
        assert((before + row)[before.len() + k] == row[k]);
    } else {
        lemma_wall_in_rows(bounds, gx, gz, (n - 1) as nat);
        let k = choose|k: int| 0 <= k < before.len() && before[k] == planned_wall(bounds, gx, gz);
        assert((before + row)[k] == before[k]);
    }
}

proof fn lemma_row_lengths(bounds: BlockBox)
    ensures
        forall|gx: int| #[trigger]
            wall_row(bounds, gx, 6).len() == if outside(gx) {
                6nat
            } else {
                2
            },
{
    assert forall|gx: int| #[trigger]
        wall_row(bounds, gx, 6).len() == if outside(gx) {
            6nat
        } else {
            2
        } by {
        reveal_with_fuel(wall_row, 7);
    }
}

/// A mansion is walled in all round: each of the twenty places around the grid has one wall,
/// a corner piece where the place is outside along both axes and a flat one elsewhere, eleven
/// blocks from the next and a block above the floor.
pub proof fn law_a_mansion_is_walled_in(bounds: BlockBox, rooms: Seq<RoomModel>, gx: int, gz: int)
    requires
        -1 <= gx <= 4 && -1 <= gz <= 4,
        gx == -1 || gx == 4 || gz == -1 || gz == 4,
    ensures
        mansion_plan(bounds, rooms).len() == 1 + rooms.len() + 20,
        mansion_plan(bounds, rooms).contains(
            PlanModel {
                name: if (gx == -1 || gx == 4) && (gz == -1 || gz == 4) {
                    "woodland_mansion/wall_corner"@
                } else {
                    "woodland_mansion/wall_flat"@
                },
                x: bounds.min.x + 8 + 11 * gx,
                y: bounds.min.y + 1,
                z: bounds.min.z + 8 + 11 * gz,
            },
        ),
{
    lemma_wall_in_rows(bounds, gx, gz, 6);
    lemma_row_lengths(bounds);
    reveal_with_fuel(wall_rows, 7);
    let walls = wall_rows(bounds, 6);
    let front = seq![planned_entrance(bounds)] + rooms.map_values(
        |r: RoomModel| planned_room(bounds, r),
    );
    let k = choose|k: int| 0 <= k < walls.len() && walls[k] == planned_wall(bounds, gx, gz);
    assert((front + walls)[front.len() + k] == walls[k]);
}

/// The entrance stands first, on the floor and in the middle of one side of the grid; then comes
/// each room in its place, eleven blocks from the next and a block above the floor.
pub proof fn law_rooms_stand_in_their_places(bounds: BlockBox, rooms: Seq<RoomModel>, k: int)
    requires
        0 <= k < rooms.len(),
    ensures
        mansion_plan(bounds, rooms)[0] == (PlanModel {
            name: "woodland_mansion/entrance"@,
            x: bounds.min.x + 27,
            y: bounds.min.y as int,
            z: bounds.min.z + 5,
        }),
        mansion_plan(bounds, rooms)[1 + k] == (PlanModel {
            name: rooms[k].template,
            x: bounds.min.x + 8 + 11 * rooms[k].x,
            y: bounds.min.y + 1,
            z: bounds.min.z + 8 + 11 * rooms[k].z,
        }),
{
}

/// The large rooms stand on the diagonal of the grid, and the last row of three columns and the
/// first of the last column are small ones.
pub proof fn law_large_rooms_stand_on_the_diagonal()
    ensures
        mansion_rooms().len() == 16,
        mansion_rooms()[0].template == "woodland_mansion/2x2_a1"@,
        mansion_rooms()[5].template == "woodland_mansion/2x2_a2"@,
        mansion_rooms()[10].template == "woodland_mansion/2x2_a3"@,
        mansion_rooms()[15].template == "woodland_mansion/2x2_a4"@,
        mansion_rooms()[3].template == "woodland_mansion/1x1_a1"@,
        mansion_rooms()[7].template == "woodland_mansion/1x1_a2"@,
        mansion_rooms()[11].template == "woodland_mansion/1x1_a3"@,
        mansion_rooms()[12].template == "woodland_mansion/1x1_a4"@,
        mansion_rooms()[1].template == "woodland_mansion/1x2_a1"@,
        mansion_rooms()[2].template == "woodland_mansion/1x2_a2"@,
        mansion_rooms()[4].template == "woodland_mansion/1x2_a3"@,
        mansion_rooms()[6].template == "woodland_mansion/1x2_a4"@,
        mansion_rooms()[8].template == "woodland_mansion/1x2_a5"@,
        mansion_rooms()[9].template == "woodland_mansion/1x2_a6"@,
        mansion_rooms()[13].template == "woodland_mansion/1x2_a7"@,
        mansion_rooms()[14].template == "woodland_mansion/1x2_a8"@,
{
}

} // verus!
