//! Finding the structure that is nearest to a place.

use super::geometry::{fits, floor_div, BlockPos};
use super::jigsaw::{
    contains_zombie_template, request_of, start_request, uses_zombies, PoolElementKind,
    StartRequest, StructureSettings,
};
use crate::random::{ListedDraws, RandomSource};
use vstd::prelude::*;

verus! {

/// A structure that was found, and its squared distance from where the search started.
#[derive(Clone, Copy, Debug, PartialEq, Eq, Structural)]
pub struct FoundStructure {
    pub pos: BlockPos,
    pub distance_sq: i128,
}

/// How the places of structures in their regions are spread.
#[derive(Clone, Copy, Debug, PartialEq, Eq, Structural)]
pub enum SpreadType {
    Linear,
    Triangular,
}

/// Structures that stand one in each region, at a drawn chunk.
#[derive(Clone, Copy, Debug, PartialEq, Eq, Structural)]
pub struct RandomSpreadStructurePlacement {
    pub spacing: i32,
    pub separation: i32,
    pub spread_type: SpreadType,
}

/// How structures are placed.
#[derive(Clone, Copy, Debug, PartialEq, Eq, Structural)]
pub enum StructurePlacementType {
    ConcentricRings,
    RandomSpread(RandomSpreadStructurePlacement),
}

/// The placement of a set of structures.
#[derive(Clone, Copy, Debug, PartialEq, Eq, Structural)]
pub struct StructurePlacement {
    pub placement_type: StructurePlacementType,
    pub salt: u32,
}

/// A chunk.
#[derive(Clone, Copy, Debug, PartialEq, Eq, Structural)]
pub struct ChunkPos {
    pub x: i32,
    pub z: i32,
}

/// Where in its regions a world puts structures.
pub trait RegionLayout {
    /// The chunk of a region's structure.
    spec fn chunk_of(
        &self,
        placement: RandomSpreadStructurePlacement,
        region_x: i32,
        region_z: i32,
        salt: u32,
    ) -> ChunkPos;

    fn get_structure_chunk_in_region(
        &self,
        placement: &RandomSpreadStructurePlacement,
        region_x: i32,
        region_z: i32,
        salt: u32,
    ) -> (r: ChunkPos)
        ensures
            r == self.chunk_of(*placement, region_x, region_z, salt),
    ;
}

/// A world whose regions are one chunk each.
#[derive(Clone, Copy, Debug, PartialEq, Eq, Structural)]
pub struct SingleChunkRegions;

impl RegionLayout for SingleChunkRegions {
    open spec fn chunk_of(
        &self,
        placement: RandomSpreadStructurePlacement,
        region_x: i32,
        region_z: i32,
        salt: u32,
    ) -> ChunkPos {
        ChunkPos { x: region_x, z: region_z }
    }

    fn get_structure_chunk_in_region(
        &self,
        placement: &RandomSpreadStructurePlacement,
        region_x: i32,
        region_z: i32,
        salt: u32,
    ) -> (r: ChunkPos) {
        ChunkPos { x: region_x, z: region_z }
    }
}

/// The block in the middle of a chunk, along one axis. Chunks that lie outside the world
/// wrap around.
pub open spec fn middle_of(chunk: i32) -> int {
    (chunk << 4) + 8
}

fn middle_block(chunk: i32) -> (r: i32)
    ensures
        r == middle_of(chunk),
{
    assert((chunk << 4) <= 0x7fff_fff0) by (bit_vector);
    (chunk << 4) + 8
}

/// The squared distance of two places, without their heights.
pub open spec fn distance_sq(a: BlockPos, x: int, z: int) -> int {
    (x - a.x) * (x - a.x) + (z - a.z) * (z - a.z)
}

/// The squared distance of two places, without their heights.
pub fn horizontal_distance_sq(a: BlockPos, b: BlockPos) -> (r: i128)
    ensures
        r == distance_sq(a, b.x as int, b.z as int),
        r >= 0,
{
    let dx: i128 = b.x as i128 - a.x as i128;
    let dz: i128 = b.z as i128 - a.z as i128;
    assert(0 <= dx * dx <= 0x1_0000_0000 * 0x1_0000_0000) by (nonlinear_arith)
        requires
            -0x1_0000_0000 <= dx <= 0x1_0000_0000,
    ;
    assert(0 <= dz * dz <= 0x1_0000_0000 * 0x1_0000_0000) by (nonlinear_arith)
        requires
            -0x1_0000_0000 <= dz <= 0x1_0000_0000,
    ;
    dx * dx + dz * dz
}

/// A structure in the middle of a chunk.
pub open spec fn found_in(origin: BlockPos, chunk: ChunkPos) -> FoundStructure {
    FoundStructure {
        pos: BlockPos { x: middle_of(chunk.x) as i32, y: 0, z: middle_of(chunk.z) as i32 },
        distance_sq: distance_sq(origin, middle_of(chunk.x), middle_of(chunk.z)) as i128,
    }
}

fn find_in(origin: BlockPos, chunk: ChunkPos) -> (r: FoundStructure)
    ensures
        r == found_in(origin, chunk),
{
    let pos = BlockPos::new(middle_block(chunk.x), 0, middle_block(chunk.z));
    FoundStructure { pos, distance_sq: horizontal_distance_sq(origin, pos) }
}

/// The nearer of what was found before and another: the earlier one where they are equally
/// near.
pub open spec fn nearer(best: Option<FoundStructure>, other: FoundStructure) -> Option<
    FoundStructure,
> {
    match best {
        None => Some(other),
        Some(b) => if other.distance_sq < b.distance_sq {
            Some(other)
        } else {
            Some(b)
        },
    }
}

fn keep_nearer(best: Option<FoundStructure>, other: FoundStructure) -> (r: Option<FoundStructure>)
    ensures
        r == nearer(best, other),
{
    match best {
        None => Some(other),
        Some(b) => if other.distance_sq < b.distance_sq {
            Some(other)
        } else {
            Some(b)
        },
    }
}

/// The nearest of the first `n` strongholds.
pub open spec fn nearest_stronghold(origin: BlockPos, chunks: Seq<ChunkPos>, n: nat) -> Option<
    FoundStructure,
>
    decreases n,
{
    if n == 0 {
        None
    } else {
        nearer(
            nearest_stronghold(origin, chunks, (n - 1) as nat),
            found_in(origin, chunks[n - 1]),
        )
    }
}

fn find_nearest_concentric(origin: BlockPos, strongholds: &Vec<ChunkPos>) -> (r: Option<
    FoundStructure,
>)
    ensures
        r == nearest_stronghold(origin, strongholds@, strongholds@.len()),
{
    let mut best: Option<FoundStructure> = None;
    let mut i: usize = 0;
    while i < strongholds.len()
        invariant
            i <= strongholds@.len(),
            best == nearest_stronghold(origin, strongholds@, i as nat),
        decreases strongholds.len() - i,
    {
        best = keep_nearer(best, find_in(origin, strongholds[i]));
        i = i + 1;
    }
    best
}

/// The nearest stronghold, where one of the first `n` placements is in rings.
pub open spec fn ringed(
    origin: BlockPos,
    placements: Seq<StructurePlacement>,
    n: nat,
    strongholds: Seq<ChunkPos>,
) -> Option<FoundStructure>
    decreases n,
{
    if n == 0 {
        None
    } else {
        let before = ringed(origin, placements, (n - 1) as nat, strongholds);
        match placements[n - 1].placement_type {
            StructurePlacementType::RandomSpread(_) => before,
            StructurePlacementType::ConcentricRings => match nearest_stronghold(
                origin,
                strongholds,
                strongholds.len(),
            ) {
                None => before,
                Some(found) => nearer(before, found),
            },
        }
    }
}

/// Whether an offset lies on the ring of a radius.
pub open spec fn on_ring(x: int, z: int, radius: int) -> bool {
    x == radius || x == -radius || z == radius || z == -radius
}

/// The region of a block, along one axis.
pub open spec fn region_of(block: i32, spacing: i32) -> int {
    (block as int / 16) / spacing as int
}

/// The structure of a region at an offset from that of the origin.
pub open spec fn found_at<L: RegionLayout>(
    layout: &L,
    origin: BlockPos,
    placement: RandomSpreadStructurePlacement,
    salt: u32,
    x: int,
    z: int,
) -> FoundStructure {
    found_in(
        origin,
        layout.chunk_of(
            placement,
            (region_of(origin.x, placement.spacing) + x) as i32,
            (region_of(origin.z, placement.spacing) + z) as i32,
            salt,
        ),
    )
}

/// The nearest structure of the first `n` regions of a column of a ring, or one that was
/// found before.
pub open spec fn column_best<L: RegionLayout>(
    layout: &L,
    origin: BlockPos,
    placement: RandomSpreadStructurePlacement,
    salt: u32,
    radius: int,
    x: int,
    n: nat,
    best: Option<FoundStructure>,
) -> Option<FoundStructure>
    decreases n,
{
    if n == 0 {
        best
    } else {
        let before = column_best(layout, origin, placement, salt, radius, x, (n - 1) as nat, best);
        let z = n - 1 - radius;
        if on_ring(x, z, radius) {
            nearer(before, found_at(layout, origin, placement, salt, x, z))
        } else {
            before
        }
    }
}

/// The nearest structure of the first `n` columns of a ring.
pub open spec fn columns_best<L: RegionLayout>(
    layout: &L,
    origin: BlockPos,
    placement: RandomSpreadStructurePlacement,
    salt: u32,
    radius: int,
    n: nat,
) -> Option<FoundStructure>
    decreases n,
{
    if n == 0 {
        None
    } else {
        column_best(
            layout,
            origin,
            placement,
            salt,
            radius,
            n - 1 - radius,
            (2 * radius + 1) as nat,
            columns_best(layout, origin, placement, salt, radius, (n - 1) as nat),
        )
    }
}

/// The nearest structure of a ring of regions.
pub open spec fn ring_best<L: RegionLayout>(
    layout: &L,
    origin: BlockPos,
    placement: RandomSpreadStructurePlacement,
    salt: u32,
    radius: int,
) -> Option<FoundStructure> {
    columns_best(layout, origin, placement, salt, radius, (2 * radius + 1) as nat)
}

/// Whether all regions of the rings up to a radius have coordinates.
pub open spec fn regions_fit(origin: BlockPos, spacing: i32, radius: int) -> bool {
    &&& spacing > 0
    &&& fits(region_of(origin.x, spacing) - radius)
    &&& fits(region_of(origin.x, spacing) + radius)
    &&& fits(region_of(origin.z, spacing) - radius)
    &&& fits(region_of(origin.z, spacing) + radius)
}

fn region(block: i32, spacing: i32) -> (r: i32)
    requires
        spacing > 0,
    ensures
        r == region_of(block, spacing),
{
    floor_div(floor_div(block, 16), spacing)
}

fn find_nearest_random_spread_at_radius<L: RegionLayout>(
    layout: &L,
    origin: BlockPos,
    radius: i32,
    placement: &RandomSpreadStructurePlacement,
    salt: u32,
) -> (r: Option<FoundStructure>)
    requires
        0 <= radius < i32::MAX,
        regions_fit(origin, placement.spacing, radius as int),
    ensures
        r == ring_best(layout, origin, *placement, salt, radius as int),
{
    let region_x: i32 = region(origin.x, placement.spacing);
    let region_z: i32 = region(origin.z, placement.spacing);
    let mut best: Option<FoundStructure> = None;
    let mut x: i32 = -radius;
    while x <= radius
        invariant
            0 <= radius < i32::MAX,
            -radius <= x <= radius + 1,
            regions_fit(origin, placement.spacing, radius as int),
            region_x == region_of(origin.x, placement.spacing),
            region_z == region_of(origin.z, placement.spacing),
            best == columns_best(
                layout,
                origin,
                *placement,
                salt,
                radius as int,
                (x + radius) as nat,
            ),
        decreases radius + 1 - x,
    {
        let ghost before = best;
        let mut z: i32 = -radius;
        while z <= radius
            invariant
                0 <= radius < i32::MAX,
                -radius <= x <= radius,
                -radius <= z <= radius + 1,
                regions_fit(origin, placement.spacing, radius as int),
                region_x == region_of(origin.x, placement.spacing),
                region_z == region_of(origin.z, placement.spacing),
                best == column_best(
                    layout,
                    origin,
                    *placement,
                    salt,
                    radius as int,
                    x as int,
                    (z + radius) as nat,
                    before,
                ),
            decreases radius + 1 - z,
        {
            if x == radius || x == -radius || z == radius || z == -radius {
                let chunk = layout.get_structure_chunk_in_region(
                    placement,
                    region_x + x,
                    region_z + z,
                    salt,
                );
                best = keep_nearer(best, find_in(origin, chunk));
            }
            z = z + 1;
        }
        x = x + 1;
    }
    best
}

/// The nearest structure on a ring of all of the first `n` placements.
pub open spec fn spread_best<L: RegionLayout>(
    layout: &L,
    origin: BlockPos,
    placements: Seq<StructurePlacement>,
    n: nat,
    radius: int,
) -> Option<FoundStructure>
    decreases n,
{
    if n == 0 {
        None
    } else {
        let before = spread_best(layout, origin, placements, (n - 1) as nat, radius);
        match placements[n - 1].placement_type {
            StructurePlacementType::ConcentricRings => before,
            StructurePlacementType::RandomSpread(spread) => match ring_best(
                layout,
                origin,
                spread,
                placements[n - 1].salt,
                radius,
            ) {
                Some(found) => nearer(before, found),
                None => before,
            },
        }
    }
}

/// What the rings from a radius on hold, ring by ring: the first ring with anything ends
/// the search.
pub open spec fn ring_search<L: RegionLayout>(
    layout: &L,
    origin: BlockPos,
    placements: Seq<StructurePlacement>,
    radius: int,
    max_radius: int,
) -> Option<FoundStructure>
    decreases max_radius + 1 - radius,
{
    if radius > max_radius {
        None
    } else {
        match spread_best(layout, origin, placements, placements.len(), radius) {
            Some(found) => Some(found),
            None => ring_search(layout, origin, placements, radius + 1, max_radius),
        }
    }
}

/// What a search finds: the nearer of the nearest stronghold, where a placement is in rings,
/// and of what the ring search finds.
pub open spec fn nearest_structure<L: RegionLayout>(
    layout: &L,
    origin: BlockPos,
    placements: Seq<StructurePlacement>,
    max_radius: int,
    strongholds: Seq<ChunkPos>,
) -> Option<FoundStructure> {
    let first = ringed(origin, placements, placements.len(), strongholds);
    match ring_search(layout, origin, placements, 0, max_radius) {
        None => first,
        Some(found) => nearer(first, found),
    }
}

fn search_placements<L: RegionLayout>(
    layout: &L,
    origin: BlockPos,
    placements: &Vec<StructurePlacement>,
    radius: i32,
) -> (r: Option<FoundStructure>)
    requires
        0 <= radius < i32::MAX,
        forall|i: int|
            0 <= i < placements@.len() ==> ((
            #[trigger] placements@[i]).placement_type matches StructurePlacementType::RandomSpread(
                spread,
            ) ==> regions_fit(origin, spread.spacing, radius as int)),
    ensures
        r == spread_best(layout, origin, placements@, placements@.len(), radius as int),
{
    let mut nearest: Option<FoundStructure> = None;
    let mut i: usize = 0;
    while i < placements.len()
        invariant
            i <= placements@.len(),
            0 <= radius < i32::MAX,
            forall|i: int|
                0 <= i < placements@.len() ==> ((
                #[trigger] placements@[i]).placement_type matches StructurePlacementType::RandomSpread(
                    spread,
                ) ==> regions_fit(origin, spread.spacing, radius as int)),
            nearest == spread_best(layout, origin, placements@, i as nat, radius as int),
        decreases placements.len() - i,
    {
        let placement = &placements[i];
        assert(*placement == placements@[i as int]);
        if let StructurePlacementType::RandomSpread(spread) = placement.placement_type {
            if let Some(found) = find_nearest_random_spread_at_radius(
                layout,
                origin,
                radius,
                &spread,
                placement.salt,
            ) {
                nearest = keep_nearer(nearest, found);
            }
        }
        i = i + 1;
    }
    nearest
}

/// Whether one of some placements is spread.
fn any_spread(placements: &Vec<StructurePlacement>) -> (r: bool)
    ensures
        r == exists|i: int|
            0 <= i < placements@.len() && (
            #[trigger] placements@[i]).placement_type is RandomSpread,
{
    let mut i: usize = 0;
    while i < placements.len()
        invariant
            i <= placements@.len(),
            forall|k: int|
                0 <= k < i ==> !((#[trigger] placements@[k]).placement_type is RandomSpread),
        decreases placements.len() - i,
    {
        if let StructurePlacementType::RandomSpread(_) = placements[i].placement_type {
            assert(placements@[i as int].placement_type is RandomSpread);
            return true;
        }
        i = i + 1;
    }
    false
}

/// Finds the structure that is nearest to a place. Strongholds stand in rings and are all
/// known; the others are searched ring by ring of regions, up to a radius, and the first ring
/// with anything ends the search with the nearest on it, of whichever placement. Every region
/// has a structure of every spread placement, so that is the origin's own region.
pub fn find_nearest_structure<L: RegionLayout>(
    layout: &L,
    origin: BlockPos,
    placements: &Vec<StructurePlacement>,
    max_search_radius: i32,
    strongholds: &Vec<ChunkPos>,
) -> (r: Option<BlockPos>)
    requires
        forall|i: int|
            0 <= i < placements@.len() ==> ((
            #[trigger] placements@[i]).placement_type matches StructurePlacementType::RandomSpread(
                spread,
            ) ==> spread.spacing > 0),
    ensures
        r == match nearest_structure(
            layout,
            origin,
            placements@,
            max_search_radius as int,
            strongholds@,
        ) {
            Some(found) => Some(found.pos),
            None => None,
        },
{
    let mut nearest: Option<FoundStructure> = None;
    let mut i: usize = 0;
    while i < placements.len()
        invariant
            i <= placements@.len(),
            nearest == ringed(origin, placements@, i as nat, strongholds@),
        decreases placements.len() - i,
    {
        if let StructurePlacementType::ConcentricRings = placements[i].placement_type {
            if let Some(found) = find_nearest_concentric(origin, strongholds) {
                nearest = keep_nearer(nearest, found);
            }
        }
        i = i + 1;
    }
    if any_spread(placements) {
        let ghost k = choose|k: int|
            0 <= k < placements@.len() && (
            #[trigger] placements@[k]).placement_type is RandomSpread;
        let ghost first = nearest;
        let mut radius: i32 = 0;
        while radius <= max_search_radius
            invariant_except_break
                nearest == first,
                radius == 0,
            invariant
                0 <= k < placements@.len(),
                placements@[k].placement_type is RandomSpread,
                forall|i: int|
                    0 <= i < placements@.len() ==> ((
                    #[trigger] placements@[i]).placement_type matches StructurePlacementType::RandomSpread(
                        spread,
                    ) ==> spread.spacing > 0),
            ensures
                nearest == match ring_search(
                    layout,
                    origin,
                    placements@,
                    0,
                    max_search_radius as int,
                ) {
                    None => first,
                    Some(found) => nearer(first, found),
                },
            decreases max_search_radius + 1 - radius,
        {
            proof {
                assert forall|i: int| 0 <= i < placements@.len() implies ((
                #[trigger] placements@[i]).placement_type matches StructurePlacementType::RandomSpread(
                    spread,
                ) ==> regions_fit(origin, spread.spacing, 0)) by {
                    if let StructurePlacementType::RandomSpread(spread) =
                        placements@[i].placement_type {
                        lemma_region_fits(origin.x, spread.spacing);
                        lemma_region_fits(origin.z, spread.spacing);
                    }
                }
                law_no_placement_is_nearer_on_a_ring(
                    layout,
                    origin,
                    placements@,
                    0,
                    k,
                    placements@[k].placement_type->RandomSpread_0,
                    0,
                    0,
                );
            }
            if let Some(found) = search_placements(layout, origin, placements, radius) {
                nearest = keep_nearer(nearest, found);
                break;
            }
            radius = radius + 1;
        }
    } else {
        proof {
            lemma_nothing_spread(layout, origin, placements@, 0, max_search_radius as int);
        }
    }
    match nearest {
        Some(found) => Some(found.pos),
        None => None,
    }
}

/// A block's own region has coordinates.
proof fn lemma_region_fits(block: i32, spacing: i32)
    requires
        spacing > 0,
    ensures
        fits(region_of(block, spacing)),
{
    let chunk = block as int / 16;
    assert(-0x800_0000 <= chunk < 0x800_0000);
    assert(-0x800_0000 <= chunk / (spacing as int) < 0x800_0000) by (nonlinear_arith)
        requires
            -0x800_0000 <= chunk < 0x800_0000,
            spacing > 0,
    ;
}

proof fn lemma_nothing_spread_on_ring<L: RegionLayout>(
    layout: &L,
    origin: BlockPos,
    placements: Seq<StructurePlacement>,
    n: nat,
    radius: int,
)
    requires
        n <= placements.len(),
        forall|i: int|
            0 <= i < placements.len() ==> !((
            #[trigger] placements[i]).placement_type is RandomSpread),
    ensures
        spread_best(layout, origin, placements, n, radius) is None,
    decreases n,
{
    if n > 0 {
        assert(!(placements[n - 1].placement_type is RandomSpread));
        lemma_nothing_spread_on_ring(layout, origin, placements, (n - 1) as nat, radius);
    }
}

proof fn lemma_nothing_spread<L: RegionLayout>(
    layout: &L,
    origin: BlockPos,
    placements: Seq<StructurePlacement>,
    radius: int,
    max_radius: int,
)
    requires
        forall|i: int|
            0 <= i < placements.len() ==> !((
            #[trigger] placements[i]).placement_type is RandomSpread),
    ensures
        ring_search(layout, origin, placements, radius, max_radius) is None,
    decreases max_radius + 1 - radius,
{
    if radius <= max_radius {
        lemma_nothing_spread_on_ring(layout, origin, placements, placements.len(), radius);
        lemma_nothing_spread(layout, origin, placements, radius + 1, max_radius);
    }
}

/// A structure of the set of villages.
#[derive(Debug)]
pub struct VillageStructure {
    pub structure: u16,
    pub weight: u32,
    /// Whether the structure has a pool to start from.
    pub has_start_pool: bool,
    pub settings: StructureSettings,
    /// The biomes that the structure stands in, where its tag is known.
    pub allowed_biomes: Option<Vec<u16>>,
}

/// The set of villages.
#[derive(Debug)]
pub struct VillageSet {
    pub placement: StructurePlacement,
    pub structures: Vec<VillageStructure>,
}

/// How a village starts.
#[derive(Debug)]
pub struct VillageStart {
    pub start_pos: BlockPos,
    pub element: PoolElementKind,
}

/// The world that villages are looked for in.
pub trait VillageWorld {
    /// Where the draws for a chunk come from.
    type Random: RandomSource;

    /// The source of the draws for a chunk.
    spec fn chunk_random(&self, chunk: ChunkPos) -> Self::Random;

    /// How a structure would start in a chunk.
    spec fn start_of(&self, structure: u16, chunk: ChunkPos, request: StartRequest) -> Option<
        VillageStart,
    >;

    /// The biome of a place, in quarters of blocks' coordinates.
    spec fn biome_at(&self, x: i32, y: i32, z: i32) -> u16;

    fn random_for_chunk(&self, chunk: ChunkPos) -> (r: Self::Random)
        ensures
            r == self.chunk_random(chunk),
    ;

    fn create_start(&self, structure: u16, chunk: ChunkPos, request: StartRequest) -> (r: Option<
        &VillageStart,
    >)
        ensures
            match self.start_of(structure, chunk, request) {
                Some(start) => r is Some && *(r->0) == start,
                None => r is None,
            },
    ;

    fn biome(&self, x: i32, y: i32, z: i32) -> (r: u16)
        ensures
            r == self.biome_at(x, y, z),
    ;
}

/// A start that is known.
#[derive(Debug)]
pub struct ListedStart {
    pub structure: u16,
    pub chunk: ChunkPos,
    pub start: VillageStart,
}

/// A world of one biome whose village starts are listed, with the same draws in every
/// chunk.
pub struct ListedVillages<'a> {
    pub starts: &'a [ListedStart],
    pub biome: u16,
    pub draws: &'a [u32],
}

/// The first listed start of a structure in a chunk, from the `from`th on.
pub open spec fn listed_start(starts: Seq<ListedStart>, structure: u16, chunk: ChunkPos, from: int) -> Option<
    VillageStart,
>
    decreases starts.len() - from,
{
    if from < 0 || from >= starts.len() {
        None
    } else if starts[from].structure == structure && starts[from].chunk == chunk {
        Some(starts[from].start)
    } else {
        listed_start(starts, structure, chunk, from + 1)
    }
}

impl<'a> VillageWorld for ListedVillages<'a> {
    type Random = ListedDraws<'a>;

    open spec fn chunk_random(&self, chunk: ChunkPos) -> ListedDraws<'a> {
        ListedDraws { numbers: self.draws, next: 0 }
    }

    open spec fn start_of(&self, structure: u16, chunk: ChunkPos, request: StartRequest) -> Option<
        VillageStart,
    > {
        listed_start(self.starts@, structure, chunk, 0)
    }

    open spec fn biome_at(&self, x: i32, y: i32, z: i32) -> u16 {
        self.biome
    }

    fn random_for_chunk(&self, chunk: ChunkPos) -> (r: ListedDraws<'a>) {
        ListedDraws::new(self.draws)
    }

    fn create_start(&self, structure: u16, chunk: ChunkPos, request: StartRequest) -> (r: Option<
        &VillageStart,
    >) {
        let mut i: usize = 0;
        while i < self.starts.len()
            invariant
                i <= self.starts@.len(),
                listed_start(self.starts@, structure, chunk, 0) == listed_start(
                    self.starts@,
                    structure,
                    chunk,
                    i as int,
                ),
            decreases self.starts.len() - i,
        {
            if self.starts[i].structure == structure && self.starts[i].chunk == chunk {
                return Some(&self.starts[i].start);
            }
            i = i + 1;
        }
        None
    }

    fn biome(&self, x: i32, y: i32, z: i32) -> (r: u16) {
        self.biome
    }
}

/// A biome's coordinate: a quarter of a block's.
pub open spec fn biome_coordinate(block: i32) -> i32 {
    (block as int / 4) as i32
}

/// Where a village starts in a chunk, and whether it is abandoned: only where it has a pool
/// to start from, can start, and stands in one of its biomes.
pub open spec fn village_start<W: VillageWorld>(
    world: &W,
    village: VillageStructure,
    chunk: ChunkPos,
    sea_level: i32,
) -> Option<(BlockPos, bool)> {
    if !village.has_start_pool {
        None
    } else {
        match world.start_of(
            village.structure,
            chunk,
            request_of(Some(&village.settings), chunk.x, chunk.z, sea_level),
        ) {
            None => None,
            Some(start) => match village.allowed_biomes {
                None => None,
                Some(biomes) => if biomes@.contains(
                    world.biome_at(
                        biome_coordinate(start.start_pos.x),
                        biome_coordinate(start.start_pos.y),
                        biome_coordinate(start.start_pos.z),
                    ),
                ) {
                    Some((start.start_pos, uses_zombies(start.element)))
                } else {
                    None
                },
            },
        }
    }
}

fn holds_biome(biomes: &Vec<u16>, biome: u16) -> (r: bool)
    ensures
        r == biomes@.contains(biome),
{
    let mut i: usize = 0;
    while i < biomes.len()
        invariant
            i <= biomes@.len(),
            forall|k: int| 0 <= k < i ==> biomes@[k] != biome,
        decreases biomes.len() - i,
    {
        if biomes[i] == biome {
            assert(biomes@.contains(biome));
            return true;
        }
        i = i + 1;
    }
    false
}

/// Whether a chunk's blocks have coordinates.
pub open spec fn chunk_has_blocks(chunk: ChunkPos) -> bool {
    fits(chunk.x * 16) && fits(chunk.z * 16)
}

/// Tries to start a village in a chunk.
pub fn try_village_start<W: VillageWorld>(
    world: &W,
    village: &VillageStructure,
    chunk: ChunkPos,
    sea_level: i32,
) -> (r: Option<(BlockPos, bool)>)
    requires
        chunk_has_blocks(chunk),
    ensures
        r == village_start(world, *village, chunk, sea_level),
{
    if !village.has_start_pool {
        return None;
    }
    let request = start_request(Some(&village.settings), chunk.x, chunk.z, sea_level);
    match world.create_start(village.structure, chunk, request) {
        None => None,
        Some(start) => match &village.allowed_biomes {
            None => None,
            Some(biomes) => {
                let biome: u16 = world.biome(
                    floor_div(start.start_pos.x, 4),
                    floor_div(start.start_pos.y, 4),
                    floor_div(start.start_pos.z, 4),
                );
                if holds_biome(biomes, biome) {
                    Some((start.start_pos, contains_zombie_template(&start.element)))
                } else {
                    None
                }
            },
        },
    }
}

/// A village that generates.
#[derive(Clone, Copy, Debug, PartialEq, Eq, Structural)]
pub struct GeneratedVillage {
    pub variant: u16,
    pub abandoned: bool,
    pub pos: BlockPos,
}

/// The weights of the structures at some places, together.
pub open spec fn weight_at(structures: Seq<VillageStructure>, places: Seq<usize>) -> int
    decreases places.len(),
{
    if places.len() == 0 {
        0
    } else {
        weight_at(structures, places.drop_last()) + structures[places.last() as int].weight
    }
}

/// The place in a list that a roll falls on: each takes as many rolls as its structure
/// weighs. A roll beyond them all falls on the first.
pub open spec fn picked(
    structures: Seq<VillageStructure>,
    places: Seq<usize>,
    roll: int,
    from: nat,
) -> int
    decreases places.len() - from,
{
    if from >= places.len() {
        0
    } else if roll < structures[places[from as int] as int].weight {
        from as int
    } else {
        picked(structures, places, roll - structures[places[from as int] as int].weight, from + 1)
    }
}

/// The village that generates in a chunk: structures are drawn by weight until one can
/// start there.
pub open spec fn village_of<W: VillageWorld>(
    world: &W,
    structures: Seq<VillageStructure>,
    places: Seq<usize>,
    chunk: ChunkPos,
    sea_level: i32,
    rng: W::Random,
) -> Option<GeneratedVillage>
    decreases places.len(),
{
    if places.len() == 0 {
        None
    } else {
        let total = weight_at(structures, places);
        let at = picked(structures, places, rng.bounded(total), 0);
        let village = structures[places[at] as int];
        match village_start(world, village, chunk, sea_level) {
            Some((pos, abandoned)) => Some(
                GeneratedVillage { variant: village.structure, abandoned, pos },
            ),
            None => if 0 <= at < places.len() {
                village_of(
                    world,
                    structures,
                    places.remove(at),
                    chunk,
                    sea_level,
                    rng.after_bounded(total),
                )
            } else {
                None
            },
        }
    }
}

/// Whether some places are places of structures, all of which weigh something.
pub open spec fn places_fit(structures: Seq<VillageStructure>, places: Seq<usize>) -> bool {
    forall|i: int|
        0 <= i < places.len() ==> (#[trigger] places[i]) < structures.len()
            && structures[places[i] as int].weight > 0
}

proof fn lemma_weight_take(structures: Seq<VillageStructure>, places: Seq<usize>, n: int)
    requires
        0 <= n < places.len(),
    ensures
        weight_at(structures, places.take(n + 1)) == weight_at(structures, places.take(n))
            + structures[places[n] as int].weight,
{
    assert(places.take(n + 1).drop_last() =~= places.take(n));
}

proof fn lemma_weight_split(structures: Seq<VillageStructure>, a: Seq<usize>, b: Seq<usize>)
    ensures
        weight_at(structures, a + b) == weight_at(structures, a) + weight_at(structures, b),
        weight_at(structures, a) >= 0,
        weight_at(structures, b) >= 0,
    decreases a.len() + b.len(),
{
    if b.len() == 0 {
        assert(a + b =~= a);
        if a.len() > 0 {
            lemma_weight_split(structures, a.drop_last(), b);
        }
    } else {
        lemma_weight_split(structures, a, b.drop_last());
        assert((a + b).drop_last() =~= a + b.drop_last());
    }
}

proof fn lemma_weight_remove(structures: Seq<VillageStructure>, places: Seq<usize>, at: int)
    requires
        0 <= at < places.len(),
    ensures
        weight_at(structures, places.remove(at)) == weight_at(structures, places)
            - structures[places[at] as int].weight,
{
    let a = places.take(at);
    let b = places.skip(at + 1);
    let one = seq![places[at]];
    assert(places.remove(at) =~= a + b);
    assert(places =~= (a + one) + b);
    lemma_weight_split(structures, a, b);
    lemma_weight_split(structures, a + one, b);
    lemma_weight_split(structures, a, one);
    assert(one.drop_last() =~= Seq::<usize>::empty());
    assert(weight_at(structures, one) == structures[places[at] as int].weight) by {
        assert(weight_at(structures, one.drop_last()) == 0);
        assert(one.last() == places[at]);
    }
}

fn pick(structures: &Vec<VillageStructure>, places: &Vec<usize>, roll: i32) -> (r: usize)
    requires
        0 <= roll,
        places@.len() > 0,
        places_fit(structures@, places@),
    ensures
        r == picked(structures@, places@, roll as int, 0),
        r < places@.len(),
{
    let mut left: u32 = roll as u32;
    let mut i: usize = 0;
    while i < places.len()
        invariant
            i <= places@.len(),
            places_fit(structures@, places@),
            picked(structures@, places@, roll as int, 0) == picked(
                structures@,
                places@,
                left as int,
                i as nat,
            ),
        decreases places.len() - i,
    {
        assert(places@[i as int] < structures@.len());
        let weight: u32 = structures[places[i]].weight;
        if left < weight {
            return i;
        }
        left = left - weight;
        i = i + 1;
    }
    0
}

/// All places of a list.
pub open spec fn all_places(n: nat) -> Seq<usize> {
    Seq::new(n, |i: int| i as usize)
}

/// Whether the structures of a set weigh something, and no more than can be drawn below.
pub open spec fn weights_fit(structures: Seq<VillageStructure>) -> bool {
    &&& places_fit(structures, all_places(structures.len()))
    &&& weight_at(structures, all_places(structures.len())) <= i32::MAX
}

/// The village that generates in a chunk.
pub open spec fn generated_village<W: VillageWorld>(
    world: &W,
    structures: Seq<VillageStructure>,
    chunk: ChunkPos,
    sea_level: i32,
) -> Option<GeneratedVillage> {
    village_of(
        world,
        structures,
        all_places(structures.len()),
        chunk,
        sea_level,
        world.chunk_random(chunk),
    )
}

/// Settles which village generates in a chunk.
pub fn generated_village_at_chunk<W: VillageWorld>(
    world: &W,
    structures: &Vec<VillageStructure>,
    chunk: ChunkPos,
    sea_level: i32,
) -> (r: Option<GeneratedVillage>)
    requires
        chunk_has_blocks(chunk),
        weights_fit(structures@),
    ensures
        r == generated_village(world, structures@, chunk, sea_level),
{
    let mut places: Vec<usize> = Vec::new();
    let mut total: i32 = 0;
    let mut i: usize = 0;
    let ghost all = all_places(structures@.len());
    while i < structures.len()
        invariant
            i <= structures@.len(),
            all == all_places(structures@.len()),
            weights_fit(structures@),
            places@ == all.take(i as int),
            total == weight_at(structures@, all.take(i as int)),
        decreases structures.len() - i,
    {
        proof {
            lemma_weight_take(structures@, all, i as int);
            assert(all =~= all.take(i + 1) + all.skip(i + 1));
            lemma_weight_split(structures@, all.take(i + 1), all.skip(i + 1));
            lemma_weight_split(structures@, all.take(i as int), all.skip(i as int));
            assert(all[i as int] == i);
        }
        places.push(i);
        total = total + structures[i].weight as i32;
        assert(places@ =~= all.take(i + 1));
        i = i + 1;
    }
    assert(all.take(i as int) =~= all);
    let mut random = world.random_for_chunk(chunk);
    while places.len() > 0
        invariant
            chunk_has_blocks(chunk),
            places_fit(structures@, places@),
            total == weight_at(structures@, places@),
            generated_village(world, structures@, chunk, sea_level) == village_of(
                world,
                structures@,
                places@,
                chunk,
                sea_level,
                random,
            ),
        decreases places.len(),
    {
        proof {
            let n = places@.len() - 1;
            assert(places@[n] < structures@.len());
            let rest = places@.drop_last();
            lemma_weight_split(structures@, rest, Seq::<usize>::empty());
        }
        let at: usize = pick(structures, &places, random.next_bounded_i32(total));
        assert(places@[at as int] < structures@.len());
        let village = &structures[places[at]];
        if let Some((pos, abandoned)) = try_village_start(world, village, chunk, sea_level) {
            return Some(GeneratedVillage { variant: village.structure, abandoned, pos });
        }
        proof {
            lemma_weight_remove(structures@, places@, at as int);
            lemma_weight_split(structures@, places@.remove(at as int), Seq::<usize>::empty());
        }
        total = total - village.weight as i32;
        let ghost before = places@;
        let _ = places.remove(at);
        assert(places_fit(structures@, places@)) by {
            assert forall|k: int| 0 <= k < places@.len() implies (#[trigger] places@[k])
                < structures@.len() && structures@[places@[k] as int].weight > 0 by {
                if k < at {
                    assert(places@[k] == before[k]);
                } else {
                    assert(places@[k] == before[k + 1]);
                }
            }
        }
    }
    None
}

/// What a region adds to a search for an abandoned village of a variant.
pub open spec fn with_village(
    best: Option<FoundStructure>,
    origin: BlockPos,
    village: Option<GeneratedVillage>,
    variant: u16,
) -> Option<FoundStructure> {
    match village {
        None => best,
        Some(v) => if v.variant == variant && v.abandoned {
            nearer(
                best,
                FoundStructure {
                    pos: v.pos,
                    distance_sq: distance_sq(origin, v.pos.x as int, v.pos.z as int) as i128,
                },
            )
        } else {
            best
        },
    }
}

/// What is looked for: where from, in which layout, and which variant.
pub struct VillageSearch {
    pub origin: BlockPos,
    pub placement: RandomSpreadStructurePlacement,
    pub salt: u32,
    pub variant: u16,
    pub sea_level: i32,
}

/// The chunk of the village of a region at an offset from that of the origin.
pub open spec fn village_chunk<L: RegionLayout>(layout: &L, s: VillageSearch, x: int, z: int) -> ChunkPos {
    layout.chunk_of(
        s.placement,
        (region_of(s.origin.x, s.placement.spacing) + x) as i32,
        (region_of(s.origin.z, s.placement.spacing) + z) as i32,
        s.salt,
    )
}

/// The nearest abandoned village of the first `n` regions of a column of a ring, or one
/// that was found before.
pub open spec fn village_column<L: RegionLayout, W: VillageWorld>(
    layout: &L,
    world: &W,
    structures: Seq<VillageStructure>,
    s: VillageSearch,
    radius: int,
    x: int,
    n: nat,
    best: Option<FoundStructure>,
) -> Option<FoundStructure>
    decreases n,
{
    if n == 0 {
        best
    } else {
        let before = village_column(
            layout,
            world,
            structures,
            s,
            radius,
            x,
            (n - 1) as nat,
            best,
        );
        let z = n - 1 - radius;
        if on_ring(x, z, radius) {
            with_village(
                before,
                s.origin,
                generated_village(world, structures, village_chunk(layout, s, x, z), s.sea_level),
                s.variant,
            )
        } else {
            before
        }
    }
}

/// The nearest abandoned village of the first `n` columns of a ring.
pub open spec fn village_columns<L: RegionLayout, W: VillageWorld>(
    layout: &L,
    world: &W,
    structures: Seq<VillageStructure>,
    s: VillageSearch,
    radius: int,
    n: nat,
) -> Option<FoundStructure>
    decreases n,
{
    if n == 0 {
        None
    } else {
        village_column(
            layout,
            world,
            structures,
            s,
            radius,
            n - 1 - radius,
            (2 * radius + 1) as nat,
            village_columns(layout, world, structures, s, radius, (n - 1) as nat),
        )
    }
}

/// The nearest abandoned village of a ring of regions.
pub open spec fn village_ring<L: RegionLayout, W: VillageWorld>(
    layout: &L,
    world: &W,
    structures: Seq<VillageStructure>,
    s: VillageSearch,
    radius: int,
) -> Option<FoundStructure> {
    village_columns(layout, world, structures, s, radius, (2 * radius + 1) as nat)
}

/// The nearest abandoned village of the first ring from a radius on that has one.
pub open spec fn village_search<L: RegionLayout, W: VillageWorld>(
    layout: &L,
    world: &W,
    structures: Seq<VillageStructure>,
    s: VillageSearch,
    radius: int,
    max_radius: int,
) -> Option<FoundStructure>
    decreases max_radius + 1 - radius,
{
    if radius > max_radius {
        None
    } else {
        match village_ring(layout, world, structures, s, radius) {
            Some(found) => Some(found),
            None => village_search(layout, world, structures, s, radius + 1, max_radius),
        }
    }
}

/// Whether a variant is one of a set's.
pub open spec fn is_variant(structures: Seq<VillageStructure>, variant: u16) -> bool {
    exists|i: int| 0 <= i < structures.len() && (#[trigger] structures[i]).structure == variant
}

fn has_variant(structures: &Vec<VillageStructure>, variant: u16) -> (r: bool)
    ensures
        r == is_variant(structures@, variant),
{
    let mut i: usize = 0;
    while i < structures.len()
        invariant
            i <= structures@.len(),
            forall|k: int| 0 <= k < i ==> (#[trigger] structures@[k]).structure != variant,
        decreases structures.len() - i,
    {
        if structures[i].structure == variant {
            return true;
        }
        i = i + 1;
    }
    false
}

/// Whether all blocks of the villages' chunks up to a radius have coordinates.
pub open spec fn village_chunks_fit<L: RegionLayout>(layout: &L, s: VillageSearch, radius: int) -> bool {
    forall|x: int, z: int|
        -radius <= x <= radius && -radius <= z <= radius ==> chunk_has_blocks(
            #[trigger] village_chunk(layout, s, x, z),
        )
}

fn search_village_ring<L: RegionLayout, W: VillageWorld>(
    layout: &L,
    world: &W,
    structures: &Vec<VillageStructure>,
    s: &VillageSearch,
    radius: i32,
) -> (r: Option<FoundStructure>)
    requires
        0 <= radius < i32::MAX,
        regions_fit(s.origin, s.placement.spacing, radius as int),
        village_chunks_fit(layout, *s, radius as int),
        weights_fit(structures@),
    ensures
        r == village_ring(layout, world, structures@, *s, radius as int),
{
    let region_x: i32 = region(s.origin.x, s.placement.spacing);
    let region_z: i32 = region(s.origin.z, s.placement.spacing);
    let mut best: Option<FoundStructure> = None;
    let mut x: i32 = -radius;
    while x <= radius
        invariant
            0 <= radius < i32::MAX,
            -radius <= x <= radius + 1,
            regions_fit(s.origin, s.placement.spacing, radius as int),
            village_chunks_fit(layout, *s, radius as int),
            weights_fit(structures@),
            region_x == region_of(s.origin.x, s.placement.spacing),
            region_z == region_of(s.origin.z, s.placement.spacing),
            best == village_columns(
                layout,
                world,
                structures@,
                *s,
                radius as int,
                (x + radius) as nat,
            ),
        decreases radius + 1 - x,
    {
        let ghost before = best;
        let mut z: i32 = -radius;
        while z <= radius
            invariant
                0 <= radius < i32::MAX,
                -radius <= x <= radius,
                -radius <= z <= radius + 1,
                regions_fit(s.origin, s.placement.spacing, radius as int),
                village_chunks_fit(layout, *s, radius as int),
                weights_fit(structures@),
                region_x == region_of(s.origin.x, s.placement.spacing),
                region_z == region_of(s.origin.z, s.placement.spacing),
                best == village_column(
                    layout,
                    world,
                    structures@,
                    *s,
                    radius as int,
                    x as int,
                    (z + radius) as nat,
                    before,
                ),
            decreases radius + 1 - z,
        {
            if x == radius || x == -radius || z == radius || z == -radius {
                let chunk = layout.get_structure_chunk_in_region(
                    &s.placement,
                    region_x + x,
                    region_z + z,
                    s.salt,
                );
                assert(chunk == village_chunk(layout, *s, x as int, z as int));
                if let Some(village) = generated_village_at_chunk(
                    world,
                    structures,
                    chunk,
                    s.sea_level,
                ) {
                    if village.variant == s.variant && village.abandoned {
                        let found = FoundStructure {
                            pos: village.pos,
                            distance_sq: horizontal_distance_sq(s.origin, village.pos),
                        };
                        best = keep_nearer(best, found);
                    }
                }
            }
            z = z + 1;
        }
        x = x + 1;
    }
    best
}

/// The search that a set of villages gives.
pub open spec fn search_of(
    origin: BlockPos,
    spread: RandomSpreadStructurePlacement,
    salt: u32,
    variant: u16,
    sea_level: i32,
) -> VillageSearch {
    VillageSearch { origin, placement: spread, salt, variant, sea_level }
}

/// The nearest abandoned village of a variant: there is none outside the overworld, none of
/// a variant that is not a village's, and none of a set that is not spread.
pub open spec fn nearest_abandoned_village<L: RegionLayout, W: VillageWorld>(
    layout: &L,
    world: &W,
    origin: BlockPos,
    variant: u16,
    max_radius: int,
    overworld: bool,
    villages: VillageSet,
    sea_level: i32,
) -> Option<FoundStructure> {
    if !overworld || !is_variant(villages.structures@, variant) {
        None
    } else {
        match villages.placement.placement_type {
            StructurePlacementType::ConcentricRings => None,
            StructurePlacementType::RandomSpread(spread) => village_search(
                layout,
                world,
                villages.structures@,
                search_of(origin, spread, villages.placement.salt, variant, sea_level),
                0,
                max_radius,
            ),
        }
    }
}

/// Finds the abandoned village of a variant that is nearest to a place: it replays which
/// village generates in each region, ring by ring, and takes the nearest of the first ring
/// that has one.
pub fn find_nearest_abandoned_village<L: RegionLayout, W: VillageWorld>(
    layout: &L,
    world: &W,
    origin: BlockPos,
    variant: u16,
    max_search_radius: i32,
    overworld: bool,
    villages: &VillageSet,
    sea_level: i32,
) -> (r: Option<BlockPos>)
    requires
        max_search_radius < i32::MAX,
        weights_fit(villages.structures@),
        villages.placement.placement_type matches StructurePlacementType::RandomSpread(spread)
            ==> spread.spacing > 0 && (max_search_radius >= 0 ==> regions_fit(
            origin,
            spread.spacing,
            max_search_radius as int,
        ) && village_chunks_fit(
            layout,
            search_of(origin, spread, villages.placement.salt, variant, sea_level),
            max_search_radius as int,
        )),
    ensures
        r == match nearest_abandoned_village(
            layout,
            world,
            origin,
            variant,
            max_search_radius as int,
            overworld,
            *villages,
            sea_level,
        ) {
            Some(found) => Some(found.pos),
            None => None,
        },
{
    if !overworld || !has_variant(&villages.structures, variant) {
        return None;
    }
    match villages.placement.placement_type {
        StructurePlacementType::ConcentricRings => None,
        StructurePlacementType::RandomSpread(spread) => {
            let s = VillageSearch {
                origin,
                placement: spread,
                salt: villages.placement.salt,
                variant,
                sea_level,
            };
            let mut radius: i32 = 0;
            while radius <= max_search_radius
                invariant
                    0 <= radius,
                    max_search_radius < i32::MAX,
                    weights_fit(villages.structures@),
                    max_search_radius >= 0 ==> regions_fit(
                        s.origin,
                        s.placement.spacing,
                        max_search_radius as int,
                    ) && village_chunks_fit(layout, s, max_search_radius as int),
                    s.placement.spacing > 0,
                    nearest_abandoned_village(
                        layout,
                        world,
                        origin,
                        variant,
                        max_search_radius as int,
                        overworld,
                        *villages,
                        sea_level,
                    ) == village_search(
                        layout,
                        world,
                        villages.structures@,
                        s,
                        radius as int,
                        max_search_radius as int,
                    ),
                decreases max_search_radius + 1 - radius,
            {
                if let Some(found) = search_village_ring(
                    layout,
                    world,
                    &villages.structures,
                    &s,
                    radius,
                ) {
                    return Some(found.pos);
                }
                radius = radius + 1;
            }
            None
        },
    }
}

proof fn lemma_column_keeps<L: RegionLayout>(
    layout: &L,
    origin: BlockPos,
    placement: RandomSpreadStructurePlacement,
    salt: u32,
    radius: int,
    x: int,
    n: nat,
    best: FoundStructure,
)
    ensures
        column_best(layout, origin, placement, salt, radius, x, n, Some(best)) is Some,
        column_best(layout, origin, placement, salt, radius, x, n, Some(best))->0.distance_sq
            <= best.distance_sq,
    decreases n,
{
    if n > 0 {
        lemma_column_keeps(layout, origin, placement, salt, radius, x, (n - 1) as nat, best);
    }
}

proof fn lemma_column_is_nearest<L: RegionLayout>(
    layout: &L,
    origin: BlockPos,
    placement: RandomSpreadStructurePlacement,
    salt: u32,
    radius: int,
    x: int,
    n: nat,
    best: Option<FoundStructure>,
    z: int,
)
    requires
        -radius <= z < n - radius,
        on_ring(x, z, radius),
    ensures
        column_best(layout, origin, placement, salt, radius, x, n, best) is Some,
        column_best(layout, origin, placement, salt, radius, x, n, best)->0.distance_sq <= found_at(
            layout,
            origin,
            placement,
            salt,
            x,
            z,
        ).distance_sq,
    decreases n,
{
    if z < n - 1 - radius {
        lemma_column_is_nearest(
            layout,
            origin,
            placement,
            salt,
            radius,
            x,
            (n - 1) as nat,
            best,
            z,
        );
    }
}

proof fn lemma_columns_are_nearest<L: RegionLayout>(
    layout: &L,
    origin: BlockPos,
    placement: RandomSpreadStructurePlacement,
    salt: u32,
    radius: int,
    n: nat,
    x: int,
    z: int,
)
    requires
        -radius <= x < n - radius,
        -radius <= z <= radius,
        on_ring(x, z, radius),
    ensures
        columns_best(layout, origin, placement, salt, radius, n) is Some,
        columns_best(layout, origin, placement, salt, radius, n)->0.distance_sq <= found_at(
            layout,
            origin,
            placement,
            salt,
            x,
            z,
        ).distance_sq,
    decreases n,
{
    let before = columns_best(layout, origin, placement, salt, radius, (n - 1) as nat);
    let last = n - 1 - radius;
    let height = (2 * radius + 1) as nat;
    if x < last {
        lemma_columns_are_nearest(
            layout,
            origin,
            placement,
            salt,
            radius,
            (n - 1) as nat,
            x,
            z,
        );
        lemma_column_keeps(layout, origin, placement, salt, radius, last, height, before->0);
    } else {
        lemma_column_is_nearest(
            layout,
            origin,
            placement,
            salt,
            radius,
            last,
            height,
            before,
            z,
        );
    }
}

/// What is found on a ring is the nearest on it, and on every ring something is found.
pub proof fn law_ring_finds_the_nearest<L: RegionLayout>(
    layout: &L,
    origin: BlockPos,
    placement: RandomSpreadStructurePlacement,
    salt: u32,
    radius: int,
    x: int,
    z: int,
)
    requires
        -radius <= x <= radius,
        -radius <= z <= radius,
        on_ring(x, z, radius),
    ensures
        ring_best(layout, origin, placement, salt, radius) is Some,
        ring_best(layout, origin, placement, salt, radius)->0.distance_sq <= found_at(
            layout,
            origin,
            placement,
            salt,
            x,
            z,
        ).distance_sq,
{
    lemma_columns_are_nearest(
        layout,
        origin,
        placement,
        salt,
        radius,
        (2 * radius + 1) as nat,
        x,
        z,
    );
}

proof fn lemma_nearest_stronghold(origin: BlockPos, chunks: Seq<ChunkPos>, n: nat, k: int)
    requires
        0 <= k < n <= chunks.len(),
    ensures
        nearest_stronghold(origin, chunks, n) is Some,
        nearest_stronghold(origin, chunks, n)->0.distance_sq <= found_in(
            origin,
            chunks[k],
        ).distance_sq,
    decreases n,
{
    if k < n - 1 {
        lemma_nearest_stronghold(origin, chunks, (n - 1) as nat, k);
    }
}

/// No stronghold is nearer than the one that is found.
pub proof fn law_nearest_stronghold(origin: BlockPos, chunks: Seq<ChunkPos>, k: int)
    requires
        0 <= k < chunks.len(),
    ensures
        nearest_stronghold(origin, chunks, chunks.len()) is Some,
        nearest_stronghold(origin, chunks, chunks.len())->0.distance_sq <= found_in(
            origin,
            chunks[k],
        ).distance_sq,
{
    lemma_nearest_stronghold(origin, chunks, chunks.len(), k);
}

proof fn lemma_spread_is_nearest<L: RegionLayout>(
    layout: &L,
    origin: BlockPos,
    placements: Seq<StructurePlacement>,
    n: nat,
    radius: int,
    i: int,
    spread: RandomSpreadStructurePlacement,
    x: int,
    z: int,
)
    requires
        0 <= i < n <= placements.len(),
        placements[i].placement_type == StructurePlacementType::RandomSpread(spread),
        -radius <= x <= radius,
        -radius <= z <= radius,
        on_ring(x, z, radius),
    ensures
        spread_best(layout, origin, placements, n, radius) is Some,
        spread_best(layout, origin, placements, n, radius)->0.distance_sq <= found_at(
            layout,
            origin,
            spread,
            placements[i].salt,
            x,
            z,
        ).distance_sq,
    decreases n,
{
    if i < n - 1 {
        lemma_spread_is_nearest(
            layout,
            origin,
            placements,
            (n - 1) as nat,
            radius,
            i,
            spread,
            x,
            z,
        );
    } else {
        law_ring_finds_the_nearest(layout, origin, spread, placements[i].salt, radius, x, z);
    }
}

/// No placement has a nearer structure on a ring than the one that is found there, whatever
/// the order of the placements.
pub proof fn law_no_placement_is_nearer_on_a_ring<L: RegionLayout>(
    layout: &L,
    origin: BlockPos,
    placements: Seq<StructurePlacement>,
    radius: int,
    i: int,
    spread: RandomSpreadStructurePlacement,
    x: int,
    z: int,
)
    requires
        0 <= i < placements.len(),
        placements[i].placement_type == StructurePlacementType::RandomSpread(spread),
        -radius <= x <= radius,
        -radius <= z <= radius,
        on_ring(x, z, radius),
    ensures
        spread_best(layout, origin, placements, placements.len(), radius) is Some,
        spread_best(layout, origin, placements, placements.len(), radius)->0.distance_sq
            <= found_at(layout, origin, spread, placements[i].salt, x, z).distance_sq,
{
    lemma_spread_is_nearest(
        layout,
        origin,
        placements,
        placements.len(),
        radius,
        i,
        spread,
        x,
        z,
    );
}

/// A search for spread structures ends with its first ring, the origin's own region: what is
/// found is as near as the structure that any of the placements has there.
pub proof fn law_the_nearest_of_the_own_region_is_found<L: RegionLayout>(
    layout: &L,
    origin: BlockPos,
    placements: Seq<StructurePlacement>,
    max_radius: int,
    strongholds: Seq<ChunkPos>,
    i: int,
    spread: RandomSpreadStructurePlacement,
)
    requires
        max_radius >= 0,
        0 <= i < placements.len(),
        placements[i].placement_type == StructurePlacementType::RandomSpread(spread),
    ensures
        nearest_structure(layout, origin, placements, max_radius, strongholds) is Some,
        nearest_structure(layout, origin, placements, max_radius, strongholds)->0.distance_sq
            <= found_at(layout, origin, spread, placements[i].salt, 0, 0).distance_sq,
{
    law_no_placement_is_nearer_on_a_ring(layout, origin, placements, 0, i, spread, 0, 0);
}

proof fn lemma_ringed_is_nearest(
    origin: BlockPos,
    placements: Seq<StructurePlacement>,
    n: nat,
    strongholds: Seq<ChunkPos>,
    i: int,
    k: int,
)
    requires
        0 <= i < n <= placements.len(),
        placements[i].placement_type is ConcentricRings,
        0 <= k < strongholds.len(),
    ensures
        ringed(origin, placements, n, strongholds) is Some,
        ringed(origin, placements, n, strongholds)->0.distance_sq <= found_in(
            origin,
            strongholds[k],
        ).distance_sq,
    decreases n,
{
    law_nearest_stronghold(origin, strongholds, k);
    if i < n - 1 {
        lemma_ringed_is_nearest(origin, placements, (n - 1) as nat, strongholds, i, k);
    }
}

/// Where strongholds are looked for, none is nearer than what is found.
pub proof fn law_no_stronghold_is_nearer<L: RegionLayout>(
    layout: &L,
    origin: BlockPos,
    placements: Seq<StructurePlacement>,
    max_radius: int,
    strongholds: Seq<ChunkPos>,
    i: int,
    k: int,
)
    requires
        0 <= i < placements.len(),
        placements[i].placement_type is ConcentricRings,
        0 <= k < strongholds.len(),
    ensures
        nearest_structure(layout, origin, placements, max_radius, strongholds) is Some,
        nearest_structure(layout, origin, placements, max_radius, strongholds)->0.distance_sq
            <= found_in(origin, strongholds[k]).distance_sq,
{
    lemma_ringed_is_nearest(origin, placements, placements.len(), strongholds, i, k);
}

/// Whether what was found is the abandoned village of a variant that generates in a region
/// of a ring.
pub open spec fn is_village_of<L: RegionLayout, W: VillageWorld>(
    found: FoundStructure,
    layout: &L,
    world: &W,
    structures: Seq<VillageStructure>,
    s: VillageSearch,
    radius: int,
    x: int,
    z: int,
) -> bool {
    &&& on_ring(x, z, radius)
    &&& generated_village(world, structures, village_chunk(layout, s, x, z), s.sea_level) == Some(
        GeneratedVillage { variant: s.variant, abandoned: true, pos: found.pos },
    )
}

/// Whether what was found is an abandoned village of a variant on a ring.
pub open spec fn is_village_on_ring<L: RegionLayout, W: VillageWorld>(
    found: Option<FoundStructure>,
    layout: &L,
    world: &W,
    structures: Seq<VillageStructure>,
    s: VillageSearch,
    radius: int,
) -> bool {
    found is Some ==> exists|x: int, z: int|
        #[trigger] is_village_of(found->0, layout, world, structures, s, radius, x, z)
}

proof fn lemma_village_column<L: RegionLayout, W: VillageWorld>(
    layout: &L,
    world: &W,
    structures: Seq<VillageStructure>,
    s: VillageSearch,
    radius: int,
    x: int,
    n: nat,
    best: Option<FoundStructure>,
)
    requires
        is_village_on_ring(best, layout, world, structures, s, radius),
    ensures
        is_village_on_ring(
            village_column(layout, world, structures, s, radius, x, n, best),
            layout,
            world,
            structures,
            s,
            radius,
        ),
    decreases n,
{
    if n > 0 {
        lemma_village_column(layout, world, structures, s, radius, x, (n - 1) as nat, best);
        let z = n - 1 - radius;
        let r = village_column(layout, world, structures, s, radius, x, n, best);
        let before = village_column(
            layout,
            world,
            structures,
            s,
            radius,
            x,
            (n - 1) as nat,
            best,
        );
        if r != before {
            let v = generated_village(
                world,
                structures,
                village_chunk(layout, s, x, z),
                s.sea_level,
            );
            assert(v is Some && r is Some && r->0.pos == v->0.pos);
            assert(is_village_of(r->0, layout, world, structures, s, radius, x, z));
        }
    }
}

proof fn lemma_village_columns<L: RegionLayout, W: VillageWorld>(
    layout: &L,
    world: &W,
    structures: Seq<VillageStructure>,
    s: VillageSearch,
    radius: int,
    n: nat,
)
    ensures
        is_village_on_ring(
            village_columns(layout, world, structures, s, radius, n),
            layout,
            world,
            structures,
            s,
            radius,
        ),
    decreases n,
{
    if n > 0 {
        lemma_village_columns(layout, world, structures, s, radius, (n - 1) as nat);
        lemma_village_column(
            layout,
            world,
            structures,
            s,
            radius,
            n - 1 - radius,
            (2 * radius + 1) as nat,
            village_columns(layout, world, structures, s, radius, (n - 1) as nat),
        );
    }
}

/// What a search finds on a ring is an abandoned village of the variant that was asked for,
/// where it really generates.
pub proof fn law_found_village_is_abandoned<L: RegionLayout, W: VillageWorld>(
    layout: &L,
    world: &W,
    structures: Seq<VillageStructure>,
    s: VillageSearch,
    radius: int,
)
    ensures
        is_village_on_ring(
            village_ring(layout, world, structures, s, radius),
            layout,
            world,
            structures,
            s,
            radius,
        ),
{
    lemma_village_columns(layout, world, structures, s, radius, (2 * radius + 1) as nat);
}

/// The weights of several structures are the sum of their weights.
pub proof fn law_village_weights_add_up(
    structures: Seq<VillageStructure>,
    a: Seq<usize>,
    b: Seq<usize>,
    place: usize,
)
    ensures
        weight_at(structures, a + b) == weight_at(structures, a) + weight_at(structures, b),
        weight_at(structures, seq![place]) == structures[place as int].weight,
{
    lemma_weight_split(structures, a, b);
    let one = seq![place];
    assert(one.drop_last() =~= Seq::<usize>::empty());
    assert(weight_at(structures, one.drop_last()) == 0);
}

proof fn lemma_roll_falls(
    structures: Seq<VillageStructure>,
    places: Seq<usize>,
    roll: int,
    from: nat,
    k: int,
)
    requires
        from <= k < places.len(),
        weight_at(structures, places.take(k)) - weight_at(structures, places.take(from as int))
            <= roll,
        roll < weight_at(structures, places.take(k + 1)) - weight_at(
            structures,
            places.take(from as int),
        ),
    ensures
        picked(structures, places, roll, from) == k,
    decreases k - from,
{
    lemma_weight_take(structures, places, from as int);
    if from < k {
        let a = places.take(from as int + 1);
        let b = places.subrange(from as int + 1, k);
        assert(places.take(k) =~= a + b);
        lemma_weight_split(structures, a, b);
        lemma_roll_falls(
            structures,
            places,
            roll - structures[places[from as int] as int].weight,
            from + 1,
            k,
        );
    }
}

/// A roll falls on a structure exactly where it lies between the weights before it and those up
/// to it: out of all rolls each structure is hit by as many as it weighs.
pub proof fn law_a_roll_falls_by_weight(
    structures: Seq<VillageStructure>,
    places: Seq<usize>,
    roll: int,
    k: int,
)
    requires
        0 <= k < places.len(),
        0 <= roll < weight_at(structures, places),
    ensures
        picked(structures, places, roll, 0) == k <==> weight_at(structures, places.take(k)) <= roll
            < weight_at(structures, places.take(k + 1)),
{
    assert(places.take(0) =~= Seq::<usize>::empty());
    if weight_at(structures, places.take(k)) <= roll < weight_at(structures, places.take(k + 1)) {
        lemma_roll_falls(structures, places, roll, 0, k);
    } else {
        assert(places.take(places.len() as int) =~= places);
        let j = lemma_some_place_is_hit(structures, places, roll, places.len() as int);
        lemma_roll_falls(structures, places, roll, 0, j);
    }
}

proof fn lemma_some_place_is_hit(
    structures: Seq<VillageStructure>,
    places: Seq<usize>,
    roll: int,
    n: int,
) -> (j: int)
    requires
        0 <= n <= places.len(),
        0 <= roll < weight_at(structures, places.take(n)),
    ensures
        0 <= j < n,
        weight_at(structures, places.take(j)) <= roll < weight_at(structures, places.take(j + 1)),
    decreases n,
{
    assert(places.take(0) =~= Seq::<usize>::empty());
    if weight_at(structures, places.take(n - 1)) <= roll {
        n - 1
    } else {
        lemma_some_place_is_hit(structures, places, roll, n - 1)
    }
}

/// The structure that the draw of a chunk falls on generates where it can start. Where it
/// cannot, it is out, and the others are drawn from in the same way.
pub proof fn law_the_drawn_village_generates<W: VillageWorld>(
    world: &W,
    structures: Seq<VillageStructure>,
    places: Seq<usize>,
    chunk: ChunkPos,
    sea_level: i32,
    rng: W::Random,
    k: int,
)
    requires
        0 <= k < places.len(),
        ({
            let roll = rng.bounded(weight_at(structures, places));
            weight_at(structures, places.take(k)) <= roll < weight_at(
                structures,
                places.take(k + 1),
            )
        }),
    ensures
        ({
            let drawn = structures[places[k] as int];
            let started = village_start(world, drawn, chunk, sea_level);
            let generated = village_of(world, structures, places, chunk, sea_level, rng);
            &&& started matches Some((pos, abandoned)) ==> generated == Some(
                GeneratedVillage { variant: drawn.structure, abandoned, pos },
            )
            &&& started is None ==> generated == village_of(
                world,
                structures,
                places.take(k) + places.skip(k + 1),
                chunk,
                sea_level,
                rng.after_bounded(weight_at(structures, places)),
            )
        }),
{
    let roll = rng.bounded(weight_at(structures, places));
    assert(places.take(0) =~= Seq::<usize>::empty());
    lemma_roll_falls(structures, places, roll, 0, k);
    assert(places.remove(k) =~= places.take(k) + places.skip(k + 1));
}

/// In a chunk generates the village that its first draw falls on, where that can start.
pub proof fn law_the_first_draw_decides<W: VillageWorld>(
    world: &W,
    structures: Seq<VillageStructure>,
    chunk: ChunkPos,
    sea_level: i32,
    k: int,
)
    requires
        0 <= k < structures.len() <= usize::MAX,
        ({
            let all = Seq::new(structures.len(), |i: int| i as usize);
            let roll = world.chunk_random(chunk).bounded(weight_at(structures, all));
            weight_at(structures, all.take(k)) <= roll < weight_at(structures, all.take(k + 1))
        }),
        village_start(world, structures[k], chunk, sea_level) is Some,
    ensures
        ({
            let (pos, abandoned) = village_start(world, structures[k], chunk, sea_level)->0;
            generated_village(world, structures, chunk, sea_level) == Some(
                GeneratedVillage { variant: structures[k].structure, abandoned, pos },
            )
        }),
{
    let all = Seq::new(structures.len(), |i: int| i as usize);
    assert(all_places(structures.len()) =~= all);
    law_the_drawn_village_generates(
        world,
        structures,
        all,
        chunk,
        sea_level,
        world.chunk_random(chunk),
        k,
    );
}

/// Some village generates in a chunk exactly where one of the structures can start there, and
/// the one that generates can.
pub proof fn law_some_village_generates<W: VillageWorld>(
    world: &W,
    structures: Seq<VillageStructure>,
    places: Seq<usize>,
    chunk: ChunkPos,
    sea_level: i32,
    rng: W::Random,
)
    requires
        places_fit(structures, places),
    ensures
        ({
            let generated = village_of(world, structures, places, chunk, sea_level, rng);
            &&& generated is Some <==> exists|i: int|
                0 <= i < places.len() && village_start(
                    world,
                    structures[(#[trigger] places[i]) as int],
                    chunk,
                    sea_level,
                ) is Some
            &&& generated matches Some(g) ==> exists|i: int|
                0 <= i < places.len() && structures[(#[trigger] places[i]) as int].structure
                    == g.variant && village_start(
                    world,
                    structures[places[i] as int],
                    chunk,
                    sea_level,
                ) == Some((g.pos, g.abandoned))
        }),
    decreases places.len(),
{
    if places.len() > 0 {
        let total = weight_at(structures, places);
        let n = places.len() - 1;
        assert(places[n] < structures.len());
        lemma_weight_split(structures, places.drop_last(), Seq::<usize>::empty());
        rng.draws_below(total);
        assert(places.take(places.len() as int) =~= places);
        let at = lemma_some_place_is_hit(
            structures,
            places,
            rng.bounded(total),
            places.len() as int,
        );
        law_the_drawn_village_generates(world, structures, places, chunk, sea_level, rng, at);
        let drawn = structures[places[at] as int];
        let rest = places.take(at) + places.skip(at + 1);
        if village_start(world, drawn, chunk, sea_level) is None {
            assert forall|i: int| 0 <= i < rest.len() implies (#[trigger] rest[i])
                < structures.len() && structures[rest[i] as int].weight > 0 by {
                if i < at {
                    assert(rest[i] == places[i]);
                } else {
                    assert(rest[i] == places[i + 1]);
                }
            }
            law_some_village_generates(
                world,
                structures,
                rest,
                chunk,
                sea_level,
                rng.after_bounded(total),
            );
            assert forall|i: int|
                0 <= i < places.len() && village_start(
                    world,
                    structures[(#[trigger] places[i]) as int],
                    chunk,
                    sea_level,
                ) is Some implies exists|j: int|
                0 <= j < rest.len() && village_start(
                    world,
                    structures[(#[trigger] rest[j]) as int],
                    chunk,
                    sea_level,
                ) is Some by {
                if i < at {
                    assert(rest[i] == places[i]);
                } else {
                    assert(rest[i - 1] == places[i]);
                }
            }
            let generated = village_of(world, structures, places, chunk, sea_level, rng);
            if generated is Some {
                let g = generated->0;
                let j = choose|j: int|
                    0 <= j < rest.len() && structures[(#[trigger] rest[j]) as int].structure
                        == g.variant && village_start(
                        world,
                        structures[rest[j] as int],
                        chunk,
                        sea_level,
                    ) == Some((g.pos, g.abandoned));
                if j < at {
                    assert(places[j] == rest[j]);
                } else {
                    assert(places[j + 1] == rest[j]);
                }
            }
        } else {
            assert(structures[places[at] as int].structure == drawn.structure);
        }
    }
}

/// A village starts in a chunk exactly where it has a pool to start from, the world knows how
/// it would start from its settings, and the biome at that start, in quarters of blocks, is one
/// of its own. It starts there, and is abandoned where that start uses zombies.
pub proof fn law_villages_start_in_their_biomes<W: VillageWorld>(
    world: &W,
    village: VillageStructure,
    chunk: ChunkPos,
    sea_level: i32,
)
    ensures
        ({
            let request = request_of(Some(&village.settings), chunk.x, chunk.z, sea_level);
            let start = world.start_of(village.structure, chunk, request);
            let result = village_start(world, village, chunk, sea_level);
            &&& result is Some <==> village.has_start_pool && start is Some
                && village.allowed_biomes is Some && ({
                let at = start->0.start_pos;
                exists|i: int|
                    0 <= i < (village.allowed_biomes->0)@.len() && #[trigger] (
                    village.allowed_biomes->0)@[i] == world.biome_at(
                        (at.x as int / 4) as i32,
                        (at.y as int / 4) as i32,
                        (at.z as int / 4) as i32,
                    )
            })
            &&& result matches Some((pos, abandoned)) ==> pos == start->0.start_pos && (abandoned
                <==> uses_zombies(start->0.element))
        }),
{
}

proof fn lemma_village_column_keeps<L: RegionLayout, W: VillageWorld>(
    layout: &L,
    world: &W,
    structures: Seq<VillageStructure>,
    s: VillageSearch,
    radius: int,
    x: int,
    n: nat,
    best: Option<FoundStructure>,
    z: int,
)
    ensures
        best matches Some(b) ==> village_column(layout, world, structures, s, radius, x, n, best)
            is Some && village_column(
            layout,
            world,
            structures,
            s,
            radius,
            x,
            n,
            best,
        )->0.distance_sq <= b.distance_sq,
        (-radius <= z < n - radius && on_ring(x, z, radius)) ==> (generated_village(
            world,
            structures,
            village_chunk(layout, s, x, z),
            s.sea_level,
        ) matches Some(v) ==> v.variant == s.variant && v.abandoned ==> {
            let r = village_column(layout, world, structures, s, radius, x, n, best);
            &&& r is Some
            &&& r->0.distance_sq <= distance_sq(s.origin, v.pos.x as int, v.pos.z as int) as i128
        }),
    decreases n,
{
    if n > 0 {
        lemma_village_column_keeps(
            layout,
            world,
            structures,
            s,
            radius,
            x,
            (n - 1) as nat,
            best,
            z,
        );
    }
}

proof fn lemma_village_columns_keep<L: RegionLayout, W: VillageWorld>(
    layout: &L,
    world: &W,
    structures: Seq<VillageStructure>,
    s: VillageSearch,
    radius: int,
    n: nat,
    x: int,
    z: int,
)
    requires
        -radius <= x < n - radius,
        -radius <= z <= radius,
        on_ring(x, z, radius),
    ensures
        generated_village(world, structures, village_chunk(layout, s, x, z), s.sea_level) matches Some(
            v,
        ) ==> v.variant == s.variant && v.abandoned ==> {
            let r = village_columns(layout, world, structures, s, radius, n);
            &&& r is Some
            &&& r->0.distance_sq <= distance_sq(s.origin, v.pos.x as int, v.pos.z as int) as i128
        },
    decreases n,
{
    if n > 0 {
        let before = village_columns(layout, world, structures, s, radius, (n - 1) as nat);
        lemma_village_column_keeps(
            layout,
            world,
            structures,
            s,
            radius,
            n - 1 - radius,
            (2 * radius + 1) as nat,
            before,
            z,
        );
        if x < n - 1 - radius {
            lemma_village_columns_keep(
                layout,
                world,
                structures,
                s,
                radius,
                (n - 1) as nat,
                x,
                z,
            );
        }
    }
}

/// No abandoned village of the variant on a ring is nearer than the one that is found there: if
/// there is any, one is found.
pub proof fn law_no_village_on_a_ring_is_nearer<L: RegionLayout, W: VillageWorld>(
    layout: &L,
    world: &W,
    structures: Seq<VillageStructure>,
    s: VillageSearch,
    radius: int,
    x: int,
    z: int,
    v: GeneratedVillage,
)
    requires
        -radius <= x <= radius,
        -radius <= z <= radius,
        x == radius || x == -radius || z == radius || z == -radius,
        generated_village(world, structures, village_chunk(layout, s, x, z), s.sea_level) == Some(
            v,
        ),
        v.variant == s.variant,
        v.abandoned,
    ensures
        village_ring(layout, world, structures, s, radius) is Some,
        village_ring(layout, world, structures, s, radius)->0.distance_sq <= distance_sq(
            s.origin,
            v.pos.x as int,
            v.pos.z as int,
        ) as i128,
{
    lemma_village_columns_keep(
        layout,
        world,
        structures,
        s,
        radius,
        (2 * radius + 1) as nat,
        x,
        z,
    );
}

/// A search goes outward: it finds what the first ring with a village has, and nothing where no
/// ring up to the greatest has one.
pub proof fn law_village_rings_are_searched_outward<L: RegionLayout, W: VillageWorld>(
    layout: &L,
    world: &W,
    structures: Seq<VillageStructure>,
    s: VillageSearch,
    start: int,
    max_radius: int,
    r: int,
)
    requires
        start <= r <= max_radius,
        forall|q: int|
            start <= q < r ==> #[trigger] village_ring(layout, world, structures, s, q) is None,
    ensures
        village_ring(layout, world, structures, s, r) is Some ==> village_search(
            layout,
            world,
            structures,
            s,
            start,
            max_radius,
        ) == village_ring(layout, world, structures, s, r),
        village_ring(layout, world, structures, s, r) is None && r == max_radius ==> village_search(
            layout,
            world,
            structures,
            s,
            start,
            max_radius,
        ) is None,
    decreases r - start,
{
    if start < r {
        assert(village_ring(layout, world, structures, s, start) is None);
        law_village_rings_are_searched_outward(
            layout,
            world,
            structures,
            s,
            start + 1,
            max_radius,
            r,
        );
    } else if r == max_radius {
        assert(village_search(layout, world, structures, s, r + 1, max_radius) is None);
    }
}

/// A village's chunk is the one that the layout gives the region that lies the offset away from
/// the origin's; a region spans its spacing in chunks of sixteen blocks.
pub proof fn law_regions_span_their_spacing(block: i32, spacing: i32)
    requires
        spacing > 0,
    ensures
        region_of(block, spacing) * spacing * 16 <= block,
        block < (region_of(block, spacing) + 1) * spacing * 16,
{
    let chunk = block as int / 16;
    let region = region_of(block, spacing);
    assert(region * spacing <= chunk < (region + 1) * spacing) by (nonlinear_arith)
        requires
            region == chunk / (spacing as int),
            spacing > 0,
    ;
}

/// A structure is found in the middle of its chunk, and its distance is that of the columns: it
/// is zero only there, and the same from both ends.
pub proof fn law_structures_stand_in_the_middle(origin: BlockPos, chunk: ChunkPos)
    requires
        -0x800_0000 <= chunk.x < 0x800_0000,
        -0x800_0000 <= chunk.z < 0x800_0000,
    ensures
        ({
            let found = found_in(origin, chunk);
            let dx = found.pos.x - origin.x;
            let dz = found.pos.z - origin.z;
            &&& found.pos.x == chunk.x * 16 + 8
            &&& found.pos.z == chunk.z * 16 + 8
            &&& found.pos.y == 0
            &&& found.distance_sq == dx * dx + dz * dz
            &&& found.distance_sq == 0 <==> dx == 0 && dz == 0
        }),
{
    let x = chunk.x;
    let z = chunk.z;
    assert((x << 4) == x * 16) by (bit_vector)
        requires
            -0x800_0000 <= x < 0x800_0000,
    ;
    assert((z << 4) == z * 16) by (bit_vector)
        requires
            -0x800_0000 <= z < 0x800_0000,
    ;
    let dx = x * 16 + 8 - origin.x;
    let dz = z * 16 + 8 - origin.z;
    assert(0 <= dx * dx <= 0x1_0000_0000 * 0x1_0000_0000 && (dx * dx == 0 <==> dx == 0))
        by (nonlinear_arith)
        requires
            -0x1_0000_0000 <= dx <= 0x1_0000_0000,
    ;
    assert(0 <= dz * dz <= 0x1_0000_0000 * 0x1_0000_0000 && (dz * dz == 0 <==> dz == 0))
        by (nonlinear_arith)
        requires
            -0x1_0000_0000 <= dz <= 0x1_0000_0000,
    ;
}

/// Whether what was found is the structure of a spread placement in a region on a ring.
pub open spec fn is_structure_of<L: RegionLayout>(
    found: FoundStructure,
    layout: &L,
    origin: BlockPos,
    spread: RandomSpreadStructurePlacement,
    salt: u32,
    radius: int,
    x: int,
    z: int,
) -> bool {
    &&& -radius <= x <= radius
    &&& -radius <= z <= radius
    &&& x == radius || x == -radius || z == radius || z == -radius
    &&& found == found_in(
        origin,
        layout.chunk_of(
            spread,
            (region_of(origin.x, spread.spacing) + x) as i32,
            (region_of(origin.z, spread.spacing) + z) as i32,
            salt,
        ),
    )
}

spec fn from_ring<L: RegionLayout>(
    found: Option<FoundStructure>,
    layout: &L,
    origin: BlockPos,
    spread: RandomSpreadStructurePlacement,
    salt: u32,
    radius: int,
) -> bool {
    found matches Some(f) ==> exists|x: int, z: int|
        #[trigger] is_structure_of(f, layout, origin, spread, salt, radius, x, z)
}

proof fn lemma_column_from_ring<L: RegionLayout>(
    layout: &L,
    origin: BlockPos,
    spread: RandomSpreadStructurePlacement,
    salt: u32,
    radius: int,
    x: int,
    n: nat,
    best: Option<FoundStructure>,
)
    requires
        -radius <= x <= radius,
        n <= 2 * radius + 1,
        from_ring(best, layout, origin, spread, salt, radius),
    ensures
        from_ring(
            column_best(layout, origin, spread, salt, radius, x, n, best),
            layout,
            origin,
            spread,
            salt,
            radius,
        ),
    decreases n,
{
    if n > 0 {
        lemma_column_from_ring(layout, origin, spread, salt, radius, x, (n - 1) as nat, best);
        let before = column_best(layout, origin, spread, salt, radius, x, (n - 1) as nat, best);
        let after = column_best(layout, origin, spread, salt, radius, x, n, best);
        let z = n - 1 - radius;
        if after != before {
            assert(is_structure_of(after->0, layout, origin, spread, salt, radius, x, z));
        }
    }
}

proof fn lemma_columns_from_ring<L: RegionLayout>(
    layout: &L,
    origin: BlockPos,
    spread: RandomSpreadStructurePlacement,
    salt: u32,
    radius: int,
    n: nat,
)
    requires
        n <= 2 * radius + 1,
    ensures
        from_ring(
            columns_best(layout, origin, spread, salt, radius, n),
            layout,
            origin,
            spread,
            salt,
            radius,
        ),
    decreases n,
{
    if n > 0 {
        lemma_columns_from_ring(layout, origin, spread, salt, radius, (n - 1) as nat);
        lemma_column_from_ring(
            layout,
            origin,
            spread,
            salt,
            radius,
            n - 1 - radius,
            (2 * radius + 1) as nat,
            columns_best(layout, origin, spread, salt, radius, (n - 1) as nat),
        );
    }
}

/// What is found on a ring really stands there: it is the structure of one of its regions.
pub proof fn law_found_structures_stand_there<L: RegionLayout>(
    layout: &L,
    origin: BlockPos,
    spread: RandomSpreadStructurePlacement,
    salt: u32,
    radius: int,
)
    requires
        radius >= 0,
    ensures
        ring_best(layout, origin, spread, salt, radius) matches Some(f) ==> exists|x: int, z: int|
            #[trigger] is_structure_of(f, layout, origin, spread, salt, radius, x, z),
{
    lemma_columns_from_ring(layout, origin, spread, salt, radius, (2 * radius + 1) as nat);
}

/// What a search finds is either a stronghold, where strongholds are looked for, or what a
/// spread placement has in the origin's own region.
pub proof fn law_found_structures_were_looked_for<L: RegionLayout>(
    layout: &L,
    origin: BlockPos,
    placements: Seq<StructurePlacement>,
    n: nat,
    strongholds: Seq<ChunkPos>,
)
    requires
        n <= placements.len(),
    ensures
        ringed(origin, placements, n, strongholds) matches Some(f) ==> exists|i: int, k: int|
            0 <= i < n && 0 <= k < strongholds.len() && (#[trigger] placements[i]).placement_type
                is ConcentricRings && f == found_in(origin, #[trigger] strongholds[k]),
        spread_best(layout, origin, placements, n, 0) matches Some(f) ==> exists|i: int|
            0 <= i < n && ((#[trigger] placements[i]).placement_type matches StructurePlacementType::RandomSpread(
                spread,
            ) && is_structure_of(f, layout, origin, spread, placements[i].salt, 0, 0, 0)),
    decreases n,
{
    if n > 0 {
        let m = (n - 1) as nat;
        law_found_structures_were_looked_for(layout, origin, placements, m, strongholds);
        match placements[m as int].placement_type {
            StructurePlacementType::ConcentricRings => {
                lemma_stronghold_is_listed(origin, strongholds, strongholds.len());
                let before = ringed(origin, placements, m, strongholds);
                let after = ringed(origin, placements, n, strongholds);
                if after is Some && after != before {
                    let k = choose|k: int|
                        0 <= k < strongholds.len() && after->0 == found_in(
                            origin,
                            #[trigger] strongholds[k],
                        );
                    assert(placements[m as int].placement_type is ConcentricRings);
                    assert(after->0 == found_in(origin, strongholds[k]));
                }
            },
            StructurePlacementType::RandomSpread(spread) => {
                let salt = placements[m as int].salt;
                law_found_structures_stand_there(layout, origin, spread, salt, 0);
                let before = spread_best(layout, origin, placements, m, 0);
                let after = spread_best(layout, origin, placements, n, 0);
                if after is Some && after != before {
                    let (x, z) = choose|x: int, z: int|
                        #[trigger] is_structure_of(
                            after->0,
                            layout,
                            origin,
                            spread,
                            salt,
                            0,
                            x,
                            z,
                        );
                    assert(is_structure_of(after->0, layout, origin, spread, salt, 0, 0, 0));
                    assert(placements[m as int].placement_type
                        == StructurePlacementType::RandomSpread(spread));
                }
            },
        }
    }
}

proof fn lemma_stronghold_is_listed(origin: BlockPos, chunks: Seq<ChunkPos>, n: nat)
    requires
        n <= chunks.len(),
    ensures
        nearest_stronghold(origin, chunks, n) matches Some(f) ==> exists|k: int|
            0 <= k < chunks.len() && f == found_in(origin, #[trigger] chunks[k]),
    decreases n,
{
    if n > 0 {
        lemma_stronghold_is_listed(origin, chunks, (n - 1) as nat);
        let before = nearest_stronghold(origin, chunks, (n - 1) as nat);
        let after = nearest_stronghold(origin, chunks, n);
        if after != before {
            assert(after->0 == found_in(origin, chunks[n - 1]));
        }
    }
}

/// Abandoned villages are looked for in the overworld alone, of a variant that the set has, and
/// only where the set is spread.
pub proof fn law_villages_are_looked_for_in_the_overworld<L: RegionLayout, W: VillageWorld>(
    layout: &L,
    world: &W,
    origin: BlockPos,
    variant: u16,
    max_radius: int,
    overworld: bool,
    villages: VillageSet,
    sea_level: i32,
    spread: RandomSpreadStructurePlacement,
)
    requires
        villages.placement.placement_type == StructurePlacementType::RandomSpread(spread),
    ensures
        ({
            let known = exists|i: int|
                0 <= i < villages.structures@.len() && (
                #[trigger] villages.structures@[i]).structure == variant;
            let s = VillageSearch {
                origin,
                placement: spread,
                salt: villages.placement.salt,
                variant,
                sea_level,
            };
            nearest_abandoned_village(
                layout,
                world,
                origin,
                variant,
                max_radius,
                overworld,
                villages,
                sea_level,
            ) == (if overworld && known {
                village_search(layout, world, villages.structures@, s, 0, max_radius)
            } else {
                None
            })
        }),
{
}

/// The nearer of two finds is kept, whichever came first, and of equally near ones the earlier.
pub proof fn law_the_nearer_find_is_kept(best: Option<FoundStructure>, other: FoundStructure)
    ensures
        nearer(best, other) is Some,
        best is None ==> nearer(best, other) == Some(other),
        best matches Some(b) ==> {
            &&& b.distance_sq <= other.distance_sq ==> nearer(best, other) == best
            &&& other.distance_sq < b.distance_sq ==> nearer(best, other) == Some(other)
        },
{
}

/// A village counts for a search just where it is abandoned and of the wanted variant: then its
/// own position and its distance from the start are taken, and else nothing changes.
pub proof fn law_only_wanted_villages_count(
    best: Option<FoundStructure>,
    origin: BlockPos,
    village: Option<GeneratedVillage>,
    variant: u16,
)
    ensures
        village is None ==> with_village(best, origin, village, variant) == best,
        village matches Some(v) ==> {
            &&& !v.abandoned || v.variant != variant ==> with_village(
                best,
                origin,
                village,
                variant,
            ) == best
            &&& v.abandoned && v.variant == variant && best is None ==> {
                &&& with_village(best, origin, village, variant) matches Some(found) && found.pos
                    == v.pos && found.distance_sq == distance_sq(
                    origin,
                    v.pos.x as int,
                    v.pos.z as int,
                ) as i128
            }
        },
{
}

/// Distances are those of the plane: they count how far a place lies along each axis, whichever
/// way, and not how high.
pub proof fn law_distances_are_those_of_the_plane(a: BlockPos, dx: int, dz: int, y: i32)
    ensures
        distance_sq(a, a.x + dx, a.z + dz) == dx * dx + dz * dz,
        distance_sq(a, a.x - dx, a.z + dz) == dx * dx + dz * dz,
        distance_sq(a, a.x + dz, a.z + dx) == dx * dx + dz * dz,
        distance_sq(a, a.x as int, a.z as int) == 0,
        distance_sq(BlockPos { x: a.x, y, z: a.z }, a.x + dx, a.z + dz) == dx * dx + dz * dz,
{
    assert((-dx) * (-dx) == dx * dx) by (nonlinear_arith);
    assert(a.x - dx - a.x == -dx);
}

} // verus!
