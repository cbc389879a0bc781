//! What the pieces of a mineshaft are built of.

use super::chunk::Chunk;
use super::geometry::{BlockBox, BlockDirection, BlockPos};
use super::mineshaft::{runs_north_south, MineshaftType};
use crate::random::{Chance, RandomSource};
use vstd::prelude::*;

verus! {

/// What a block is made of.
#[derive(Clone, Copy, Debug, PartialEq, Eq, Structural)]
pub enum Material {
    Air,
    Cobweb,
    OakPlanks,
    DarkOakPlanks,
    OakLog,
    DarkOakLog,
    OakFence,
    DarkOakFence,
    RailNorthSouth,
    RailEastWest,
}

/// The planks of a mineshaft.
pub open spec fn planks_of(t: MineshaftType) -> Material {
    match t {
        MineshaftType::Normal => Material::OakPlanks,
        MineshaftType::Mesa => Material::DarkOakPlanks,
    }
}

/// The logs of a mineshaft.
pub open spec fn log_of(t: MineshaftType) -> Material {
    match t {
        MineshaftType::Normal => Material::OakLog,
        MineshaftType::Mesa => Material::DarkOakLog,
    }
}

/// The fences of a mineshaft.
pub open spec fn fence_of(t: MineshaftType) -> Material {
    match t {
        MineshaftType::Normal => Material::OakFence,
        MineshaftType::Mesa => Material::DarkOakFence,
    }
}

impl MineshaftType {
    pub fn planks(self) -> (r: Material)
        ensures
            r == planks_of(self),
    {
        match self {
            MineshaftType::Normal => Material::OakPlanks,
            MineshaftType::Mesa => Material::DarkOakPlanks,
        }
    }

    pub fn log(self) -> (r: Material)
        ensures
            r == log_of(self),
    {
        match self {
            MineshaftType::Normal => Material::OakLog,
            MineshaftType::Mesa => Material::DarkOakLog,
        }
    }

    pub fn fence(self) -> (r: Material)
        ensures
            r == fence_of(self),
    {
        match self {
            MineshaftType::Normal => Material::OakFence,
            MineshaftType::Mesa => Material::DarkOakFence,
        }
    }
}

/// A change of blocks, in coordinates of the piece.
#[derive(Clone, Copy, Debug, PartialEq, Eq, Structural)]
pub enum Edit {
    /// One block.
    Block { material: Material, x: i32, y: i32, z: i32 },
    /// All blocks from one corner to another.
    Fill { material: Material, from: BlockPos, to: BlockPos },
    /// All blocks from one down to the ground.
    FillDown { material: Material, x: i32, y: i32, z: i32 },
    /// A chest of loot.
    Chest { x: i32, y: i32, z: i32 },
    /// A spawner of cave spiders.
    Spawner { x: i32, y: i32, z: i32 },
}

/// How often a block of a corridor's ceiling is cleared: four times in five.
pub const CLEAR_CHANCE: Chance = 13_421_773;

/// How often there are cobwebs in a spider's corridor: three times in five.
pub const SPIDER_WEB_CHANCE: Chance = 10_066_330;

/// How often there is a cobweb beside a support: once in ten times.
pub const WEB_CHANCE: Chance = 1_677_722;

/// Changes that were made, the source of the draws behind them, and whether a spawner was
/// placed.
pub struct Draft<R> {
    pub edits: Seq<Edit>,
    pub rng: R,
    pub has_placed_spider: bool,
}

/// A draft with one block more.
pub open spec fn put<R>(d: Draft<R>, material: Material, x: int, y: int, z: int) -> Draft<R> {
    Draft {
        edits: d.edits.push(
            Edit::Block { material, x: x as i32, y: y as i32, z: z as i32 },
        ),
        rng: d.rng,
        has_placed_spider: d.has_placed_spider,
    }
}

/// A draft behind a unit draw.
pub open spec fn behind_unit<R: RandomSource>(d: Draft<R>) -> Draft<R> {
    Draft { edits: d.edits, rng: d.rng.after_unit(), has_placed_spider: d.has_placed_spider }
}

/// A draft behind a draw below a bound.
pub open spec fn behind_bounded<R: RandomSource>(d: Draft<R>, bound: int) -> Draft<R> {
    Draft {
        edits: d.edits,
        rng: d.rng.after_bounded(bound),
        has_placed_spider: d.has_placed_spider,
    }
}

/// A draft with one block more by chance.
pub open spec fn maybe_put<R: RandomSource>(
    d: Draft<R>,
    chance: Chance,
    material: Material,
    x: int,
    y: int,
    z: int,
) -> Draft<R> {
    if d.rng.unit() < chance {
        put(behind_unit(d), material, x, y, z)
    } else {
        behind_unit(d)
    }
}

/// A draft with the first `n` columns of a corridor cleared: three to a row.
pub open spec fn cleared<R: RandomSource>(d: Draft<R>, n: nat) -> Draft<R>
    decreases n,
{
    if n == 0 {
        d
    } else {
        let before = cleared(d, (n - 1) as nat);
        let x = (n - 1) % 3;
        let z = (n - 1) / 3;
        maybe_put(
            put(put(before, Material::Air, x, 0, z), Material::Air, x, 1, z),
            CLEAR_CHANCE,
            Material::Air,
            x,
            2,
            z,
        )
    }
}

/// A draft with cobwebs in the first `n` columns of a spider's corridor.
pub open spec fn webbed<R: RandomSource>(d: Draft<R>, n: nat) -> Draft<R>
    decreases n,
{
    if n == 0 {
        d
    } else {
        let before = webbed(d, (n - 1) as nat);
        let x = (n - 1) % 3;
        let z = (n - 1) / 3;
        if before.rng.unit() < SPIDER_WEB_CHANCE {
            put(put(behind_unit(before), Material::Cobweb, x, 0, z), Material::Cobweb, x, 1, z)
        } else {
            behind_unit(before)
        }
    }
}

/// A draft with the support of a section: two posts and a beam, of which the middle is
/// missing in one of four draws.
pub open spec fn supported<R: RandomSource>(d: Draft<R>, t: MineshaftType, z: int) -> Draft<R> {
    let fence = fence_of(t);
    let planks = planks_of(t);
    let posts = put(
        put(put(put(d, fence, 0, 0, z), fence, 0, 1, z), fence, 2, 0, z),
        fence,
        2,
        1,
        z,
    );
    let drawn = behind_bounded(posts, 4);
    if posts.rng.bounded(4) == 0 {
        put(put(drawn, planks, 0, 2, z), planks, 2, 2, z)
    } else {
        put(put(put(drawn, planks, 0, 2, z), planks, 1, 2, z), planks, 2, 2, z)
    }
}

/// A draft with the cobwebs on one side of a support.
pub open spec fn webs_at<R: RandomSource>(d: Draft<R>, z: int, length: int) -> Draft<R> {
    if 0 <= z <= length {
        maybe_put(
            maybe_put(d, WEB_CHANCE, Material::Cobweb, 0, 2, z),
            WEB_CHANCE,
            Material::Cobweb,
            2,
            2,
            z,
        )
    } else {
        d
    }
}

/// A draft with a chest in one of a hundred draws.
pub open spec fn maybe_chest<R: RandomSource>(d: Draft<R>, x: int, z: int) -> Draft<R> {
    let drawn = behind_bounded(d, 100);
    if d.rng.bounded(100) == 0 {
        Draft {
            edits: drawn.edits.push(Edit::Chest { x: x as i32, y: 0, z: z as i32 }),
            rng: drawn.rng,
            has_placed_spider: drawn.has_placed_spider,
        }
    } else {
        drawn
    }
}

/// A draft with the spawner of a spider's corridor, where there is none yet.
pub open spec fn spawner_placed<R: RandomSource>(
    d: Draft<R>,
    spider_corridor: bool,
    z: int,
    length: int,
) -> Draft<R> {
    if spider_corridor && !d.has_placed_spider {
        let at = z - 1 + d.rng.bounded(3);
        let drawn = behind_bounded(d, 3);
        if 0 <= at <= length {
            Draft {
                edits: drawn.edits.push(Edit::Spawner { x: 1, y: 0, z: at as i32 }),
                rng: drawn.rng,
                has_placed_spider: true,
            }
        } else {
            drawn
        }
    } else {
        d
    }
}

/// A draft with the first `n` sections of a corridor.
pub open spec fn sections_built<R: RandomSource>(
    d: Draft<R>,
    t: MineshaftType,
    spider_corridor: bool,
    length: int,
    n: nat,
) -> Draft<R>
    decreases n,
{
    if n == 0 {
        d
    } else {
        let before = sections_built(d, t, spider_corridor, length, (n - 1) as nat);
        let z = 2 + (n - 1) * 5;
        let webs = webs_at(webs_at(supported(before, t, z), z - 1, length), z + 1, length);
        let chests = maybe_chest(maybe_chest(webs, 2, z - 1), 0, z + 1);
        spawner_placed(chests, spider_corridor, z, length)
    }
}

/// A draft with the first `n` blocks of a corridor's floor.
pub open spec fn floored<R>(d: Draft<R>, t: MineshaftType, n: nat) -> Draft<R>
    decreases n,
{
    if n == 0 {
        d
    } else {
        put(floored(d, t, (n - 1) as nat), planks_of(t), (n - 1) % 3, -1, (n - 1) / 3)
    }
}

/// A draft with a pillar down to the ground.
pub open spec fn pillar<R>(d: Draft<R>, t: MineshaftType, x: int, z: int) -> Draft<R> {
    Draft {
        edits: d.edits.push(
            Edit::FillDown { material: log_of(t), x: x as i32, y: -1i32, z: z as i32 },
        ),
        rng: d.rng,
        has_placed_spider: d.has_placed_spider,
    }
}

/// A draft with the pillars of a corridor: two near its start, and two near its end where
/// it is longer than one section.
pub open spec fn pillars<R>(d: Draft<R>, t: MineshaftType, sections: int, length: int) -> Draft<R> {
    let first = pillar(pillar(d, t, 0, 2), t, 2, 2);
    if sections > 1 {
        pillar(pillar(first, t, 0, length - 2), t, 2, length - 2)
    } else {
        first
    }
}

/// A draft with the first `n` rails of a corridor.
pub open spec fn railed<R>(d: Draft<R>, rail: Material, n: nat) -> Draft<R>
    decreases n,
{
    if n == 0 {
        d
    } else {
        put(railed(d, rail, (n - 1) as nat), rail, 1, 0, n - 1)
    }
}

/// The rails of a corridor.
pub open spec fn rail_of(facing: Option<BlockDirection>) -> Material {
    if runs_north_south(facing) {
        Material::RailNorthSouth
    } else {
        Material::RailEastWest
    }
}

/// A corridor.
#[derive(Clone, Copy, Debug, PartialEq, Eq, Structural)]
pub struct MineshaftCorridorPiece {
    pub mineshaft_type: MineshaftType,
    pub facing: Option<BlockDirection>,
    pub num_sections: i32,
    pub has_rails: bool,
    pub spider_corridor: bool,
    pub has_placed_spider: bool,
}

/// The most sections that a corridor can have, so that its length is a coordinate. As many
/// below zero are the least.
pub const MAX_SECTIONS: i32 = 429_496_729;

/// How many sections are built where a number of them is asked for.
pub open spec fn built_sections(num_sections: i32) -> nat {
    if num_sections > 0 {
        num_sections as nat
    } else {
        0
    }
}

/// The draft of a whole corridor: cleared, webbed where it is a spider's, with its
/// sections, its floor, its pillars, and its rails where it has any.
pub open spec fn corridor_draft<R: RandomSource>(c: MineshaftCorridorPiece, rng: R) -> Draft<R> {
    let length = c.num_sections * 5 - 1;
    let sections = built_sections(c.num_sections);
    let rows = sections * 5;
    let cells = 3 * rows;
    let empty = Draft {
        edits: Seq::empty(),
        rng,
        has_placed_spider: c.has_placed_spider,
    };
    let clear = cleared(empty, cells);
    let webs = if c.spider_corridor {
        webbed(clear, cells)
    } else {
        clear
    };
    let built = sections_built(
        webs,
        c.mineshaft_type,
        c.spider_corridor,
        length,
        sections,
    );
    let floor = floored(built, c.mineshaft_type, cells);
    let held = pillars(floor, c.mineshaft_type, c.num_sections as int, length);
    if c.has_rails {
        railed(held, rail_of(c.facing), rows)
    } else {
        held
    }
}

/// The draft that the given values are.
pub open spec fn draft<R>(edits: Seq<Edit>, rng: R, has_placed_spider: bool) -> Draft<R> {
    Draft { edits, rng, has_placed_spider }
}

fn push_block(out: &mut Vec<Edit>, material: Material, x: i32, y: i32, z: i32)
    ensures
        final(out)@ == old(out)@.push((Edit::Block { material, x, y, z })),
{
    out.push(Edit::Block { material, x, y, z });
}

fn maybe_push<R: RandomSource>(
    out: &mut Vec<Edit>,
    random: &mut R,
    chance: Chance,
    material: Material,
    x: i32,
    y: i32,
    z: i32,
    Ghost(spider): Ghost<bool>,
)
    ensures
        draft(final(out)@, *final(random), spider) == maybe_put(
            draft(old(out)@, *old(random), spider),
            chance,
            material,
            x as int,
            y as int,
            z as int,
        ),
{
    if random.next_unit() < chance {
        push_block(out, material, x, y, z);
    }
}

fn clear<R: RandomSource>(out: &mut Vec<Edit>, random: &mut R, cells: i64, Ghost(spider): Ghost<bool>)
    requires
        0 <= cells <= 15 * MAX_SECTIONS,
    ensures
        draft(final(out)@, *final(random), spider) == cleared(
            draft(old(out)@, *old(random), spider),
            cells as nat,
        ),
{
    let mut k: i64 = 0;
    while k < cells
        invariant
            0 <= k <= cells <= 15 * MAX_SECTIONS,
            draft(out@, *random, spider) == cleared(
                draft(old(out)@, *old(random), spider),
                k as nat,
            ),
        decreases cells - k,
    {
        let x: i32 = (k % 3) as i32;
        let z: i32 = (k / 3) as i32;
        push_block(out, Material::Air, x, 0, z);
        push_block(out, Material::Air, x, 1, z);
        maybe_push(out, random, CLEAR_CHANCE, Material::Air, x, 2, z, Ghost(spider));
        k = k + 1;
    }
}

fn web<R: RandomSource>(out: &mut Vec<Edit>, random: &mut R, cells: i64, Ghost(spider): Ghost<bool>)
    requires
        0 <= cells <= 15 * MAX_SECTIONS,
    ensures
        draft(final(out)@, *final(random), spider) == webbed(
            draft(old(out)@, *old(random), spider),
            cells as nat,
        ),
{
    let mut k: i64 = 0;
    while k < cells
        invariant
            0 <= k <= cells <= 15 * MAX_SECTIONS,
            draft(out@, *random, spider) == webbed(
                draft(old(out)@, *old(random), spider),
                k as nat,
            ),
        decreases cells - k,
    {
        let x: i32 = (k % 3) as i32;
        let z: i32 = (k / 3) as i32;
        if random.next_unit() < SPIDER_WEB_CHANCE {
            push_block(out, Material::Cobweb, x, 0, z);
            push_block(out, Material::Cobweb, x, 1, z);
        }
        k = k + 1;
    }
}

fn support<R: RandomSource>(
    out: &mut Vec<Edit>,
    random: &mut R,
    t: MineshaftType,
    z: i32,
    Ghost(spider): Ghost<bool>,
)
    ensures
        draft(final(out)@, *final(random), spider) == supported(
            draft(old(out)@, *old(random), spider),
            t,
            z as int,
        ),
{
    let fence = t.fence();
    let planks = t.planks();
    push_block(out, fence, 0, 0, z);
    push_block(out, fence, 0, 1, z);
    push_block(out, fence, 2, 0, z);
    push_block(out, fence, 2, 1, z);
    if random.next_bounded_i32(4) == 0 {
        push_block(out, planks, 0, 2, z);
        push_block(out, planks, 2, 2, z);
    } else {
        push_block(out, planks, 0, 2, z);
        push_block(out, planks, 1, 2, z);
        push_block(out, planks, 2, 2, z);
    }
}

fn hang_webs<R: RandomSource>(
    out: &mut Vec<Edit>,
    random: &mut R,
    z: i32,
    length: i32,
    Ghost(spider): Ghost<bool>,
)
    ensures
        draft(final(out)@, *final(random), spider) == webs_at(
            draft(old(out)@, *old(random), spider),
            z as int,
            length as int,
        ),
{
    if 0 <= z && z <= length {
        maybe_push(out, random, WEB_CHANCE, Material::Cobweb, 0, 2, z, Ghost(spider));
        maybe_push(out, random, WEB_CHANCE, Material::Cobweb, 2, 2, z, Ghost(spider));
    }
}

fn draw_chest<R: RandomSource>(
    out: &mut Vec<Edit>,
    random: &mut R,
    x: i32,
    z: i32,
    Ghost(spider): Ghost<bool>,
)
    ensures
        draft(final(out)@, *final(random), spider) == maybe_chest(
            draft(old(out)@, *old(random), spider),
            x as int,
            z as int,
        ),
{
    if random.next_bounded_i32(100) == 0 {
        out.push(Edit::Chest { x, y: 0, z });
    }
}

fn build_section<R: RandomSource>(
    c: &mut MineshaftCorridorPiece,
    out: &mut Vec<Edit>,
    random: &mut R,
    section: i32,
    length: i32,
)
    requires
        0 <= section < old(c).num_sections <= MAX_SECTIONS,
        length == old(c).num_sections * 5 - 1,
    ensures
        draft(final(out)@, *final(random), final(c).has_placed_spider) == ({
            let d = draft(old(out)@, *old(random), old(c).has_placed_spider);
            let z = 2 + section * 5;
            let webs = webs_at(
                webs_at(
                    supported(d, old(c).mineshaft_type, z),
                    z - 1,
                    length as int,
                ),
                z + 1,
                length as int,
            );
            let chests = maybe_chest(maybe_chest(webs, 2, z - 1), 0, z + 1);
            spawner_placed(chests, old(c).spider_corridor, z, length as int)
        }),
        final(c).mineshaft_type == old(c).mineshaft_type,
        final(c).facing == old(c).facing,
        final(c).num_sections == old(c).num_sections,
        final(c).has_rails == old(c).has_rails,
        final(c).spider_corridor == old(c).spider_corridor,
{
    let ghost spider = c.has_placed_spider;
    let z: i32 = 2 + section * 5;
    support(out, random, c.mineshaft_type, z, Ghost(spider));
    hang_webs(out, random, z - 1, length, Ghost(spider));
    hang_webs(out, random, z + 1, length, Ghost(spider));
    draw_chest(out, random, 2, z - 1, Ghost(spider));
    draw_chest(out, random, 0, z + 1, Ghost(spider));
    if c.spider_corridor && !c.has_placed_spider {
        let at: i32 = z - 1 + random.next_bounded_i32(3);
        if 0 <= at && at <= length {
            out.push(Edit::Spawner { x: 1, y: 0, z: at });
            c.has_placed_spider = true;
        }
    }
}

fn lay_floor(out: &mut Vec<Edit>, t: MineshaftType, cells: i64)
    requires
        0 <= cells <= 15 * MAX_SECTIONS,
    ensures
        forall|d: Draft<()>|
            d.edits == old(out)@ ==> final(out)@ == (#[trigger] floored(d, t, cells as nat)).edits,
{
    let planks = t.planks();
    let ghost unit = draft(out@, (), false);
    let mut k: i64 = 0;
    while k < cells
        invariant
            0 <= k <= cells <= 15 * MAX_SECTIONS,
            planks == planks_of(t),
            out@ == floored(unit, t, k as nat).edits,
        decreases cells - k,
    {
        push_block(out, planks, (k % 3) as i32, -1, (k / 3) as i32);
        k = k + 1;
    }
    proof {
        assert forall|d: Draft<()>| d.edits == old(out)@ implies out@ == (#[trigger] floored(
            d,
            t,
            cells as nat,
        )).edits by {
            lemma_floored(unit, d, t, cells as nat);
        }
    }
}

/// What a floor adds does not depend on the draws.
proof fn lemma_floored<A, B>(a: Draft<A>, b: Draft<B>, t: MineshaftType, n: nat)
    requires
        a.edits == b.edits,
    ensures
        floored(a, t, n).edits == floored(b, t, n).edits,
        floored(b, t, n).rng == b.rng,
        floored(b, t, n).has_placed_spider == b.has_placed_spider,
    decreases n,
{
    if n > 0 {
        lemma_floored(a, b, t, (n - 1) as nat);
    }
}

/// What rails add does not depend on the draws.
proof fn lemma_railed<A, B>(a: Draft<A>, b: Draft<B>, rail: Material, n: nat)
    requires
        a.edits == b.edits,
    ensures
        railed(a, rail, n).edits == railed(b, rail, n).edits,
        railed(b, rail, n).rng == b.rng,
        railed(b, rail, n).has_placed_spider == b.has_placed_spider,
    decreases n,
{
    if n > 0 {
        lemma_railed(a, b, rail, (n - 1) as nat);
    }
}

fn push_pillar(out: &mut Vec<Edit>, t: MineshaftType, x: i32, z: i32)
    ensures
        final(out)@ == old(out)@.push(
            (Edit::FillDown { material: log_of(t), x, y: -1i32, z }),
        ),
{
    out.push(Edit::FillDown { material: t.log(), x, y: -1, z });
}

impl MineshaftCorridorPiece {
    /// Lists what the corridor changes, in order: nothing where it lies in liquid.
    pub fn place<C: Chunk, R: RandomSource>(
        &mut self,
        chunk: &C,
        bounds: &BlockBox,
        chunk_box: &BlockBox,
        random: &mut R,
    ) -> (r: Vec<Edit>)
        requires
            -MAX_SECTIONS <= old(self).num_sections <= MAX_SECTIONS,
        ensures
            draft(r@, *final(random), final(self).has_placed_spider) == (if in_liquid(
                chunk,
                *bounds,
                *chunk_box,
            ) {
                draft(Seq::empty(), *old(random), old(self).has_placed_spider)
            } else {
                corridor_draft(*old(self), *old(random))
            }),
            final(self).mineshaft_type == old(self).mineshaft_type,
            final(self).facing == old(self).facing,
            final(self).num_sections == old(self).num_sections,
            final(self).has_rails == old(self).has_rails,
            final(self).spider_corridor == old(self).spider_corridor,
    {
        if is_in_liquid(chunk, bounds, chunk_box) {
            return Vec::new();
        }
        let t = self.mineshaft_type;
        let length: i32 = self.num_sections * 5 - 1;
        let rows: i64 = if self.num_sections > 0 {
            length as i64 + 1
        } else {
            0
        };
        let cells: i64 = 3 * rows;
        let ghost spider = self.has_placed_spider;
        let mut out: Vec<Edit> = Vec::new();
        clear(&mut out, random, cells, Ghost(spider));
        if self.spider_corridor {
            web(&mut out, random, cells, Ghost(spider));
        }
        let ghost webs = draft(out@, *random, spider);
        let sections: i32 = if self.num_sections > 0 {
            self.num_sections
        } else {
            0
        };
        let mut section: i32 = 0;
        while section < sections
            invariant
                0 <= section <= sections <= MAX_SECTIONS,
                sections == built_sections(self.num_sections),
                self.num_sections == old(self).num_sections,
                length == self.num_sections * 5 - 1,
                t == self.mineshaft_type,
                self.mineshaft_type == old(self).mineshaft_type,
                self.facing == old(self).facing,
                self.has_rails == old(self).has_rails,
                self.spider_corridor == old(self).spider_corridor,
                draft(out@, *random, self.has_placed_spider) == sections_built(
                    webs,
                    t,
                    self.spider_corridor,
                    length as int,
                    section as nat,
                ),
            decreases sections - section,
        {
            build_section(self, &mut out, random, section, length);
            section = section + 1;
        }
        let ghost built = draft(out@, *random, self.has_placed_spider);
        lay_floor(&mut out, t, cells);
        proof {
            let unit = draft(built.edits, (), false);
            assert(out@ == floored(unit, t, cells as nat).edits);
            lemma_floored(unit, built, t, cells as nat);
        }
        push_pillar(&mut out, t, 0, 2);
        push_pillar(&mut out, t, 2, 2);
        if sections > 1 {
            push_pillar(&mut out, t, 0, length - 2);
            push_pillar(&mut out, t, 2, length - 2);
        }
        if self.has_rails {
            let rail = match self.facing {
                Some(BlockDirection::North) => Material::RailNorthSouth,
                Some(BlockDirection::South) => Material::RailNorthSouth,
                _ => Material::RailEastWest,
            };
            let ghost held = draft(out@, *random, self.has_placed_spider);
            let mut z: i32 = 0;
            while z <= length
                invariant
                    0 <= z <= rows <= i32::MAX,
                    rows == if length >= 0 {
                        length + 1
                    } else {
                        0
                    },
                    out@ == railed(held, rail, z as nat).edits,
                decreases rows - z,
            {
                push_block(&mut out, rail, 1, 0, z);
                z = z + 1;
            }
            proof {
                lemma_railed(held, held, rail, rows as nat);
            }
        }
        out
    }
}

/// What a crossing changes, in order: it is cleared, gets a pillar in each corner, and a
/// floor.
pub open spec fn crossing_edits(t: MineshaftType) -> Seq<Edit> {
    Seq::new(
        125,
        |k: int|
            Edit::Block {
                material: Material::Air,
                x: (k / 25) as i32,
                y: (k / 5 % 5) as i32,
                z: (k % 5) as i32,
            },
    ) + Seq::new(
        20,
        |k: int|
            Edit::Block {
                material: log_of(t),
                x: (k / 5 % 2 * 4) as i32,
                y: (k % 5) as i32,
                z: (k / 10 * 4) as i32,
            },
    ) + Seq::new(
        25,
        |k: int|
            Edit::Block {
                material: planks_of(t),
                x: (k / 5) as i32,
                y: -1i32,
                z: (k % 5) as i32,
            },
    )
}

/// Lists what a crossing changes: nothing where it lies in liquid.
pub fn place_crossing<C: Chunk>(
    t: MineshaftType,
    chunk: &C,
    bounds: &BlockBox,
    chunk_box: &BlockBox,
) -> (r: Vec<Edit>)
    ensures
        r@ == (if in_liquid(chunk, *bounds, *chunk_box) {
            Seq::empty()
        } else {
            crossing_edits(t)
        }),
{
    if is_in_liquid(chunk, bounds, chunk_box) {
        return Vec::new();
    }
    let planks = t.planks();
    let log = t.log();
    let mut out: Vec<Edit> = Vec::new();
    let ghost all = crossing_edits(t);
    let mut k: i32 = 0;
    while k < 125
        invariant
            0 <= k <= 125,
            all == crossing_edits(t),
            out@.len() == k,
            forall|i: int| 0 <= i < k ==> out@[i] == all[i],
        decreases 125 - k,
    {
        push_block(&mut out, Material::Air, k / 25, k / 5 % 5, k % 5);
        k = k + 1;
    }
    let mut k: i32 = 0;
    while k < 20
        invariant
            0 <= k <= 20,
            log == log_of(t),
            all == crossing_edits(t),
            out@.len() == 125 + k,
            forall|i: int| 0 <= i < 125 + k ==> out@[i] == all[i],
        decreases 20 - k,
    {
        push_block(&mut out, log, k / 5 % 2 * 4, k % 5, k / 10 * 4);
        k = k + 1;
    }
    let mut k: i32 = 0;
    while k < 25
        invariant
            0 <= k <= 25,
            planks == planks_of(t),
            all == crossing_edits(t),
            out@.len() == 145 + k,
            forall|i: int| 0 <= i < 145 + k ==> out@[i] == all[i],
        decreases 25 - k,
    {
        push_block(&mut out, planks, k / 5, -1, k % 5);
        k = k + 1;
    }
    assert(out@ =~= all);
    out
}

/// A cleared box.
pub open spec fn cleared_box(x1: int, y1: int, z1: int, x2: int, y2: int, z2: int) -> Edit {
    Edit::Fill {
        material: Material::Air,
        from: BlockPos { x: x1 as i32, y: y1 as i32, z: z1 as i32 },
        to: BlockPos { x: x2 as i32, y: y2 as i32, z: z2 as i32 },
    }
}

/// What stairs change, in order: the upper landing, the lower one, and the steps between
/// them are cleared.
pub open spec fn stairs_edits() -> Seq<Edit> {
    seq![cleared_box(0, 5, 0, 2, 7, 1), cleared_box(0, 0, 7, 2, 2, 8)] + Seq::new(
        5,
        |i: int|
            cleared_box(
                0,
                5 - i - if i < 4 {
                    1int
                } else {
                    0
                },
                2 + i,
                2,
                7 - i,
                2 + i,
            ),
    )
}

/// Lists what stairs change: nothing where they lie in liquid.
pub fn place_stairs<C: Chunk>(chunk: &C, bounds: &BlockBox, chunk_box: &BlockBox) -> (r: Vec<Edit>)
    ensures
        r@ == (if in_liquid(chunk, *bounds, *chunk_box) {
            Seq::empty()
        } else {
            stairs_edits()
        }),
{
    if is_in_liquid(chunk, bounds, chunk_box) {
        return Vec::new();
    }
    let mut out: Vec<Edit> = Vec::new();
    out.push(
        Edit::Fill {
            material: Material::Air,
            from: BlockPos::new(0, 5, 0),
            to: BlockPos::new(2, 7, 1),
        },
    );
    out.push(
        Edit::Fill {
            material: Material::Air,
            from: BlockPos::new(0, 0, 7),
            to: BlockPos::new(2, 2, 8),
        },
    );
    let ghost all = stairs_edits();
    let mut i: i32 = 0;
    while i < 5
        invariant
            0 <= i <= 5,
            all == stairs_edits(),
            out@.len() == 2 + i,
            forall|k: int| 0 <= k < 2 + i ==> out@[k] == all[k],
        decreases 5 - i,
    {
        let y: i32 = 5 - i - if i < 4 {
            1
        } else {
            0
        };
        out.push(
            Edit::Fill {
                material: Material::Air,
                from: BlockPos::new(0, y, 2 + i),
                to: BlockPos::new(2, 7 - i, 2 + i),
            },
        );
        i = i + 1;
    }
    assert(out@ =~= all);
    out
}

/// How many numbers lie between two, both of them among these.
pub open spec fn span(least: i32, most: i32) -> nat {
    if least <= most {
        (most - least + 1) as nat
    } else {
        0
    }
}

/// The world with the first `n` blocks of one column of a room cleared, where that may be
/// changed.
pub open spec fn column_cleared<C: Chunk>(
    chunk: C,
    room: BlockBox,
    chunk_box: BlockBox,
    air: u16,
    x: int,
    y: int,
    n: nat,
) -> C
    decreases n,
{
    if n == 0 {
        chunk
    } else {
        let before = column_cleared(chunk, room, chunk_box, air, x, y, (n - 1) as nat);
        let z = room.min.z + n - 1;
        if chunk_box.holds(x, y, z) {
            before.with_block(BlockPos { x: x as i32, y: y as i32, z: z as i32 }, air)
        } else {
            before
        }
    }
}

/// The world with the first `n` columns of one slice of a room cleared. The lowest layer
/// stays.
pub open spec fn slice_cleared<C: Chunk>(
    chunk: C,
    room: BlockBox,
    chunk_box: BlockBox,
    air: u16,
    x: int,
    n: nat,
) -> C
    decreases n,
{
    if n == 0 {
        chunk
    } else {
        column_cleared(
            slice_cleared(chunk, room, chunk_box, air, x, (n - 1) as nat),
            room,
            chunk_box,
            air,
            x,
            room.min.y + n,
            span(room.min.z, room.max.z),
        )
    }
}

/// The world with the first `n` slices of a room cleared.
pub open spec fn slices_cleared<C: Chunk>(
    chunk: C,
    room: BlockBox,
    chunk_box: BlockBox,
    air: u16,
    n: nat,
) -> C
    decreases n,
{
    if n == 0 {
        chunk
    } else {
        slice_cleared(
            slices_cleared(chunk, room, chunk_box, air, (n - 1) as nat),
            room,
            chunk_box,
            air,
            room.min.x + n - 1,
            (span(room.min.y, room.max.y) - 1) as nat,
        )
    }
}

/// The world with a room carved out, all but its lowest layer.
pub open spec fn room_cleared<C: Chunk>(
    chunk: C,
    room: BlockBox,
    chunk_box: BlockBox,
    air: u16,
) -> C {
    if room.min.y <= room.max.y {
        slices_cleared(chunk, room, chunk_box, air, span(room.min.x, room.max.x))
    } else {
        chunk
    }
}

fn clear_column<C: Chunk>(
    chunk: &mut C,
    room: &BlockBox,
    chunk_box: &BlockBox,
    air: u16,
    x: i32,
    y: i32,
)
    ensures
        *final(chunk) == column_cleared(
            *old(chunk),
            *room,
            *chunk_box,
            air,
            x as int,
            y as int,
            span(room.min.z, room.max.z),
        ),
{
    let ghost start = *chunk;
    let mut z: i64 = room.min.z as i64;
    while z <= room.max.z as i64
        invariant
            room.min.z <= z,
            z <= room.max.z + 1 || z == room.min.z,
            *chunk == column_cleared(
                start,
                *room,
                *chunk_box,
                air,
                x as int,
                y as int,
                (z - room.min.z) as nat,
            ),
        decreases room.max.z + 1 - z,
    {
        if chunk_box.contains(x, y, z as i32) {
            chunk.set_block_state(BlockPos::new(x, y, z as i32), air);
        }
        z = z + 1;
    }
}

fn clear_slice<C: Chunk>(
    chunk: &mut C,
    room: &BlockBox,
    chunk_box: &BlockBox,
    air: u16,
    x: i32,
)
    requires
        room.min.y <= room.max.y,
    ensures
        *final(chunk) == slice_cleared(
            *old(chunk),
            *room,
            *chunk_box,
            air,
            x as int,
            (span(room.min.y, room.max.y) - 1) as nat,
        ),
{
    let ghost start = *chunk;
    let mut y: i64 = room.min.y as i64 + 1;
    while y <= room.max.y as i64
        invariant
            room.min.y < y <= room.max.y + 1,
            *chunk == slice_cleared(
                start,
                *room,
                *chunk_box,
                air,
                x as int,
                (y - room.min.y - 1) as nat,
            ),
        decreases room.max.y + 1 - y,
    {
        clear_column(chunk, room, chunk_box, air, x, y as i32);
        y = y + 1;
    }
}

/// Carves out a room, where that may be changed: nothing where it lies in liquid.
pub fn place_room<C: Chunk>(chunk: &mut C, room: &BlockBox, chunk_box: &BlockBox, air: u16)
    ensures
        *final(chunk) == (if in_liquid(&*old(chunk), *room, *chunk_box) {
            *old(chunk)
        } else {
            room_cleared(*old(chunk), *room, *chunk_box, air)
        }),
{
    if is_in_liquid(&*chunk, room, chunk_box) {
        return ;
    }
    if room.min.y > room.max.y {
        return ;
    }
    let ghost start = *chunk;
    let mut x: i64 = room.min.x as i64;
    while x <= room.max.x as i64
        invariant
            room.min.y <= room.max.y,
            room.min.x <= x,
            x <= room.max.x + 1 || x == room.min.x,
            *chunk == slices_cleared(
                start,
                *room,
                *chunk_box,
                air,
                (x - room.min.x) as nat,
            ),
        decreases room.max.x + 1 - x,
    {
        clear_slice(chunk, room, chunk_box, air, x as i32);
        x = x + 1;
    }
}

/// Half of a number, rounded towards zero.
pub open spec fn halved(n: int) -> int {
    if n >= 0 {
        n / 2
    } else {
        -(-n / 2)
    }
}

/// The places on a piece's floor that are looked at for liquid: two corners and the middle.
pub open spec fn probe(b: BlockBox, i: int) -> (int, int) {
    if i == 0 {
        (b.min.x as int, b.min.z as int)
    } else if i == 1 {
        (b.max.x as int, b.max.z as int)
    } else {
        (halved(b.min.x + b.max.x), halved(b.min.z + b.max.z))
    }
}

/// The middle of two coordinates.
fn middle(a: i32, b: i32) -> (r: i32)
    ensures
        r == halved(a + b),
{
    let sum: i64 = a as i64 + b as i64;
    let half: i64 = if sum >= 0 {
        sum / 2
    } else {
        -(-sum / 2)
    };
    half as i32
}

/// The places on a piece's floor that are looked at for liquid.
pub fn liquid_probes(b: &BlockBox) -> (r: [BlockPos; 3])
    ensures
        forall|i: int|
            0 <= i < 3 ==> (#[trigger] r[i]).y == b.min.y && (r[i].x as int, r[i].z as int) == probe(
                *b,
                i,
            ),
{
    [
        BlockPos::new(b.min.x, b.min.y, b.min.z),
        BlockPos::new(b.max.x, b.min.y, b.max.z),
        BlockPos::new(middle(b.min.x, b.max.x), b.min.y, middle(b.min.z, b.max.z)),
    ]
}

/// Whether one of the places on a piece's floor lies in liquid, where that may be changed.
pub open spec fn wet_probe<C: Chunk>(chunk: &C, b: BlockBox, chunk_box: BlockBox, i: int) -> bool {
    let (x, z) = probe(b, i);
    &&& chunk_box.holds(x, b.min.y as int, z)
    &&& chunk.liquid(chunk.state_at(BlockPos { x: x as i32, y: b.min.y, z: z as i32 }))
}

/// Whether a piece lies in liquid: one of the places that are looked at does.
pub open spec fn in_liquid<C: Chunk>(chunk: &C, b: BlockBox, chunk_box: BlockBox) -> bool {
    exists|i: int| 0 <= i < 3 && #[trigger] wet_probe(chunk, b, chunk_box, i)
}

/// Whether a piece lies in liquid. A piece in liquid is not placed.
pub fn is_in_liquid<C: Chunk>(chunk: &C, b: &BlockBox, chunk_box: &BlockBox) -> (r: bool)
    ensures
        r == in_liquid(chunk, *b, *chunk_box),
{
    let probes = liquid_probes(b);
    let mut i: usize = 0;
    while i < 3
        invariant
            i <= 3,
            forall|k: int|
                0 <= k < 3 ==> (#[trigger] probes[k]).y == b.min.y && (
                    probes[k].x as int,
                    probes[k].z as int,
                ) == probe(*b, k),
            forall|k: int| 0 <= k < i ==> !#[trigger] wet_probe(chunk, *b, *chunk_box, k),
        decreases 3 - i,
    {
        let at = probes[i];
        assert(at == probes[i as int]);
        if chunk_box.contains(at.x, at.y, at.z) {
            let there: u16 = chunk.get_block_state(at);
            if chunk.is_liquid(there) {
                assert(wet_probe(chunk, *b, *chunk_box, i as int));
                return true;
            }
        }
        i = i + 1;
    }
    false
}

/// The chest of loot that is placed at a position.
#[derive(Debug)]
pub struct ChestEntity {
    pub id: String,
    pub pos: BlockPos,
    pub loot_table: String,
    pub loot_table_seed: i64,
}

/// A number with its bits rotated to the left.
pub open spec fn rotated_left(n: i32, by: u64) -> i64 {
    let bits = (n as i64) as u64;
    ((bits << by) | (bits >> ((64 - by) as u64))) as i64
}

fn rotate_left(n: i32, by: u64) -> (r: i64)
    requires
        0 < by < 64,
    ensures
        r == rotated_left(n, by),
{
    let bits: u64 = #[verifier::truncate] ((n as i64) as u64);
    #[verifier::truncate] (((bits << by) | (bits >> (64 - by))) as i64)
}

/// The seed of the loot at a position.
pub open spec fn chest_seed(seed: i64, pos: BlockPos) -> i64 {
    seed ^ rotated_left(pos.x, 13) ^ rotated_left(pos.z, 7)
}

/// Places a chest of loot, where that may be changed, and returns its entity.
pub fn place_loot_chest<C: Chunk>(
    chunk: &mut C,
    pos: BlockPos,
    chunk_box: &BlockBox,
    chest: u16,
    seed: i64,
    loot_table: &str,
) -> (r: Option<ChestEntity>)
    ensures
        *final(chunk) == (if r is Some {
            (*old(chunk)).with_block(pos, chest)
        } else {
            *old(chunk)
        }),
        r is Some <==> chunk_box.holds(pos.x as int, pos.y as int, pos.z as int),
        r is Some ==> r->0.id@ == "minecraft:chest"@ && r->0.pos == pos && r->0.loot_table@
            == loot_table@ && r->0.loot_table_seed == chest_seed(seed, pos),
{
    if !chunk_box.contains(pos.x, pos.y, pos.z) {
        return None;
    }
    chunk.set_block_state(pos, chest);
    Some(
        ChestEntity {
            id: "minecraft:chest".to_owned(),
            pos,
            loot_table: loot_table.to_owned(),
            loot_table_seed: seed ^ rotate_left(pos.x, 13) ^ rotate_left(pos.z, 7),
        },
    )
}

/// The spawner that is placed at a position.
#[derive(Debug)]
pub struct SpawnerEntity {
    pub id: String,
    pub pos: BlockPos,
    /// The id of the entity that it spawns.
    pub entity_id: String,
}

/// Places a spawner, where that may be changed, and returns its entity.
pub fn place_spawner<C: Chunk>(
    chunk: &mut C,
    pos: BlockPos,
    chunk_box: &BlockBox,
    spawner: u16,
    entity_id: &str,
) -> (r: Option<SpawnerEntity>)
    ensures
        *final(chunk) == (if r is Some {
            (*old(chunk)).with_block(pos, spawner)
        } else {
            *old(chunk)
        }),
        r is Some <==> chunk_box.holds(pos.x as int, pos.y as int, pos.z as int),
        r is Some ==> r->0.id@ == "minecraft:mob_spawner"@ && r->0.pos == pos && r->0.entity_id@
            == entity_id@,
{
    if !chunk_box.contains(pos.x, pos.y, pos.z) {
        return None;
    }
    chunk.set_block_state(pos, spawner);
    Some(
        SpawnerEntity {
            id: "minecraft:mob_spawner".to_owned(),
            pos,
            entity_id: entity_id.to_owned(),
        },
    )
}

/// What a corridor's change leaves behind besides its block.
#[derive(Debug)]
pub enum CorridorEntity {
    Chest(ChestEntity),
    Spawner(SpawnerEntity),
}

/// What that is.
pub enum CorridorEntityModel {
    Chest { id: Seq<char>, pos: BlockPos, loot_table: Seq<char>, loot_table_seed: i64 },
    Spawner { id: Seq<char>, pos: BlockPos, entity_id: Seq<char> },
}

impl View for CorridorEntity {
    type V = CorridorEntityModel;

    open spec fn view(&self) -> CorridorEntityModel {
        match self {
            CorridorEntity::Chest(chest) => CorridorEntityModel::Chest {
                id: chest.id@,
                pos: chest.pos,
                loot_table: chest.loot_table@,
                loot_table_seed: chest.loot_table_seed,
            },
            CorridorEntity::Spawner(spawner) => CorridorEntityModel::Spawner {
                id: spawner.id@,
                pos: spawner.pos,
                entity_id: spawner.entity_id@,
            },
        }
    }
}

/// The entity that a change of a corridor leaves at a position, where that may be changed:
/// a chest holds the loot of abandoned mineshafts, and a spawner spawns cave spiders.
pub open spec fn corridor_entity(
    edit: Edit,
    pos: BlockPos,
    chunk_box: BlockBox,
    seed: i64,
) -> Option<CorridorEntityModel> {
    if !chunk_box.holds(pos.x as int, pos.y as int, pos.z as int) {
        None
    } else {
        match edit {
            Edit::Chest { .. } => Some(
                CorridorEntityModel::Chest {
                    id: "minecraft:chest"@,
                    pos,
                    loot_table: "minecraft:chests/abandoned_mineshaft"@,
                    loot_table_seed: chest_seed(seed, pos),
                },
            ),
            Edit::Spawner { .. } => Some(
                CorridorEntityModel::Spawner {
                    id: "minecraft:mob_spawner"@,
                    pos,
                    entity_id: "minecraft:cave_spider"@,
                },
            ),
            _ => None,
        }
    }
}

/// Makes the change of a chest or a spawner of a corridor at its position in the world, and
/// returns its entity. Other changes leave no entity, and are not made here.
pub fn place_corridor_entity<C: Chunk>(
    chunk: &mut C,
    edit: &Edit,
    pos: BlockPos,
    chunk_box: &BlockBox,
    chest: u16,
    spawner: u16,
    seed: i64,
) -> (r: Option<CorridorEntity>)
    ensures
        (match r {
            Some(entity) => Some(entity@),
            None => None::<CorridorEntityModel>,
        }) == corridor_entity(*edit, pos, *chunk_box, seed),
        *final(chunk) == (match corridor_entity(*edit, pos, *chunk_box, seed) {
            Some(CorridorEntityModel::Chest { .. }) => (*old(chunk)).with_block(pos, chest),
            Some(CorridorEntityModel::Spawner { .. }) => (*old(chunk)).with_block(pos, spawner),
            None => *old(chunk),
        }),
{
    match edit {
        Edit::Chest { .. } => match place_loot_chest(
            chunk,
            pos,
            chunk_box,
            chest,
            seed,
            "minecraft:chests/abandoned_mineshaft",
        ) {
            Some(entity) => Some(CorridorEntity::Chest(entity)),
            None => None,
        },
        Edit::Spawner { .. } => match place_spawner(
            chunk,
            pos,
            chunk_box,
            spawner,
            "minecraft:cave_spider",
        ) {
            Some(entity) => Some(CorridorEntity::Spawner(entity)),
            None => None,
        },
        _ => None,
    }
}

/// How many spawners some changes place.
pub open spec fn spawners(edits: Seq<Edit>) -> nat
    decreases edits.len(),
{
    if edits.len() == 0 {
        0
    } else {
        spawners(edits.drop_last()) + if edits.last() is Spawner {
            1nat
        } else {
            0
        }
    }
}

proof fn lemma_spawners_push(edits: Seq<Edit>, e: Edit)
    ensures
        spawners(edits.push(e)) == spawners(edits) + if e is Spawner {
            1nat
        } else {
            0
        },
{
    assert(edits.push(e).drop_last() =~= edits);
}

/// How many spawners a draft may still place.
spec fn spare<R>(d: Draft<R>) -> nat {
    spawners(d.edits) + if d.has_placed_spider {
        0nat
    } else {
        1
    }
}

proof fn lemma_put_spare<R>(d: Draft<R>, material: Material, x: int, y: int, z: int)
    ensures
        spare(put(d, material, x, y, z)) == spare(d),
{
    lemma_spawners_push(
        d.edits,
        Edit::Block { material, x: x as i32, y: y as i32, z: z as i32 },
    );
}

proof fn lemma_maybe_spare<R: RandomSource>(
    d: Draft<R>,
    chance: Chance,
    material: Material,
    x: int,
    y: int,
    z: int,
)
    ensures
        spare(maybe_put(d, chance, material, x, y, z)) == spare(d),
{
    lemma_put_spare(behind_unit(d), material, x, y, z);
}

proof fn lemma_cleared_spare<R: RandomSource>(d: Draft<R>, n: nat)
    ensures
        spare(cleared(d, n)) == spare(d),
    decreases n,
{
    if n > 0 {
        lemma_cleared_spare(d, (n - 1) as nat);
        let before = cleared(d, (n - 1) as nat);
        let x = (n - 1) % 3;
        let z = (n - 1) / 3;
        lemma_put_spare(before, Material::Air, x, 0, z);
        let once = put(before, Material::Air, x, 0, z);
        lemma_put_spare(once, Material::Air, x, 1, z);
        lemma_maybe_spare(put(once, Material::Air, x, 1, z), CLEAR_CHANCE, Material::Air, x, 2, z);
    }
}

proof fn lemma_webbed_spare<R: RandomSource>(d: Draft<R>, n: nat)
    ensures
        spare(webbed(d, n)) == spare(d),
    decreases n,
{
    if n > 0 {
        lemma_webbed_spare(d, (n - 1) as nat);
        let before = behind_unit(webbed(d, (n - 1) as nat));
        let x = (n - 1) % 3;
        let z = (n - 1) / 3;
        lemma_put_spare(before, Material::Cobweb, x, 0, z);
        lemma_put_spare(put(before, Material::Cobweb, x, 0, z), Material::Cobweb, x, 1, z);
    }
}

proof fn lemma_supported_spare<R: RandomSource>(d: Draft<R>, t: MineshaftType, z: int)
    ensures
        spare(supported(d, t, z)) == spare(d),
{
    let fence = fence_of(t);
    let planks = planks_of(t);
    let a = put(d, fence, 0, 0, z);
    let b = put(a, fence, 0, 1, z);
    let c = put(b, fence, 2, 0, z);
    let e = put(c, fence, 2, 1, z);
    lemma_put_spare(d, fence, 0, 0, z);
    lemma_put_spare(a, fence, 0, 1, z);
    lemma_put_spare(b, fence, 2, 0, z);
    lemma_put_spare(c, fence, 2, 1, z);
    let drawn = behind_bounded(e, 4);
    let one = put(drawn, planks, 0, 2, z);
    lemma_put_spare(drawn, planks, 0, 2, z);
    lemma_put_spare(one, planks, 2, 2, z);
    lemma_put_spare(one, planks, 1, 2, z);
    lemma_put_spare(put(one, planks, 1, 2, z), planks, 2, 2, z);
}

proof fn lemma_webs_spare<R: RandomSource>(d: Draft<R>, z: int, length: int)
    ensures
        spare(webs_at(d, z, length)) == spare(d),
{
    lemma_maybe_spare(d, WEB_CHANCE, Material::Cobweb, 0, 2, z);
    lemma_maybe_spare(
        maybe_put(d, WEB_CHANCE, Material::Cobweb, 0, 2, z),
        WEB_CHANCE,
        Material::Cobweb,
        2,
        2,
        z,
    );
}

proof fn lemma_sections_spare<R: RandomSource>(
    d: Draft<R>,
    t: MineshaftType,
    spider_corridor: bool,
    length: int,
    n: nat,
)
    ensures
        spare(sections_built(d, t, spider_corridor, length, n)) == spare(d),
    decreases n,
{
    if n > 0 {
        lemma_sections_spare(d, t, spider_corridor, length, (n - 1) as nat);
        let before = sections_built(d, t, spider_corridor, length, (n - 1) as nat);
        let z = 2 + (n - 1) * 5;
        lemma_supported_spare(before, t, z);
        let held = supported(before, t, z);
        lemma_webs_spare(held, z - 1, length);
        let one = webs_at(held, z - 1, length);
        lemma_webs_spare(one, z + 1, length);
        let webs = webs_at(one, z + 1, length);
        lemma_spawners_push(webs.edits, Edit::Chest { x: 2, y: 0, z: (z - 1) as i32 });
        let chest = maybe_chest(webs, 2, z - 1);
        lemma_spawners_push(chest.edits, Edit::Chest { x: 0, y: 0, z: (z + 1) as i32 });
        let chests = maybe_chest(chest, 0, z + 1);
        let at = z - 1 + chests.rng.bounded(3);
        lemma_spawners_push(chests.edits, Edit::Spawner { x: 1, y: 0, z: at as i32 });
    }
}

proof fn lemma_floored_spare<R>(d: Draft<R>, t: MineshaftType, n: nat)
    ensures
        spare(floored(d, t, n)) == spare(d),
    decreases n,
{
    if n > 0 {
        lemma_floored_spare(d, t, (n - 1) as nat);
        lemma_put_spare(
            floored(d, t, (n - 1) as nat),
            planks_of(t),
            (n - 1) % 3,
            -1,
            (n - 1) / 3,
        );
    }
}

proof fn lemma_pillar_spare<R>(d: Draft<R>, t: MineshaftType, x: int, z: int)
    ensures
        spare(pillar(d, t, x, z)) == spare(d),
{
    lemma_spawners_push(
        d.edits,
        Edit::FillDown { material: log_of(t), x: x as i32, y: -1i32, z: z as i32 },
    );
}

proof fn lemma_railed_spare<R>(d: Draft<R>, rail: Material, n: nat)
    ensures
        spare(railed(d, rail, n)) == spare(d),
    decreases n,
{
    if n > 0 {
        lemma_railed_spare(d, rail, (n - 1) as nat);
        lemma_put_spare(railed(d, rail, (n - 1) as nat), rail, 1, 0, n - 1);
    }
}

/// A corridor places at most one spawner, and none if it has placed one before.
pub proof fn law_one_spawner_per_corridor<R: RandomSource>(c: MineshaftCorridorPiece, rng: R)
    ensures
        spawners(corridor_draft(c, rng).edits) <= 1,
        c.has_placed_spider ==> spawners(corridor_draft(c, rng).edits) == 0,
{
    let t = c.mineshaft_type;
    let length = c.num_sections * 5 - 1;
    let sections = built_sections(c.num_sections);
    let rows = sections * 5;
    let cells = 3 * rows;
    let empty = draft(Seq::empty(), rng, c.has_placed_spider);
    lemma_cleared_spare(empty, cells);
    let clear = cleared(empty, cells);
    lemma_webbed_spare(clear, cells);
    let webs = if c.spider_corridor {
        webbed(clear, cells)
    } else {
        clear
    };
    lemma_sections_spare(webs, t, c.spider_corridor, length, sections);
    let built = sections_built(webs, t, c.spider_corridor, length, sections);
    lemma_floored_spare(built, t, cells);
    let floor = floored(built, t, cells);
    let a = pillar(floor, t, 0, 2);
    let b = pillar(a, t, 2, 2);
    let e = pillar(b, t, 0, length - 2);
    lemma_pillar_spare(floor, t, 0, 2);
    lemma_pillar_spare(a, t, 2, 2);
    lemma_pillar_spare(b, t, 0, length - 2);
    lemma_pillar_spare(e, t, 2, length - 2);
    let held = pillars(floor, t, c.num_sections as int, length);
    lemma_railed_spare(held, rail_of(c.facing), rows);
    assert(spare(corridor_draft(c, rng)) == spare(empty));
}

proof fn lemma_column_spares<C: Chunk>(
    chunk: C,
    room: BlockBox,
    chunk_box: BlockBox,
    air: u16,
    x: int,
    y: int,
    n: nat,
    pos: BlockPos,
)
    requires
        n <= span(room.min.z, room.max.z),
        room.min.x <= x <= room.max.x,
        room.min.y < y <= room.max.y,
        !(room.holds(pos.x as int, pos.y as int, pos.z as int) && pos.y > room.min.y
            && chunk_box.holds(pos.x as int, pos.y as int, pos.z as int)),
    ensures
        column_cleared(chunk, room, chunk_box, air, x, y, n).state_at(pos) == chunk.state_at(pos),
    decreases n,
{
    if n > 0 {
        let m = (n - 1) as nat;
        lemma_column_spares(chunk, room, chunk_box, air, x, y, m, pos);
        let z = room.min.z + m;
        column_cleared(chunk, room, chunk_box, air, x, y, m).others_stay(
            BlockPos { x: x as i32, y: y as i32, z: z as i32 },
            air,
            pos,
        );
    }
}

proof fn lemma_slice_spares<C: Chunk>(
    chunk: C,
    room: BlockBox,
    chunk_box: BlockBox,
    air: u16,
    x: int,
    n: nat,
    pos: BlockPos,
)
    requires
        n < span(room.min.y, room.max.y),
        room.min.x <= x <= room.max.x,
        !(room.holds(pos.x as int, pos.y as int, pos.z as int) && pos.y > room.min.y
            && chunk_box.holds(pos.x as int, pos.y as int, pos.z as int)),
    ensures
        slice_cleared(chunk, room, chunk_box, air, x, n).state_at(pos) == chunk.state_at(pos),
    decreases n,
{
    if n > 0 {
        let m = (n - 1) as nat;
        lemma_slice_spares(chunk, room, chunk_box, air, x, m, pos);
        lemma_column_spares(
            slice_cleared(chunk, room, chunk_box, air, x, m),
            room,
            chunk_box,
            air,
            x,
            room.min.y + n,
            span(room.min.z, room.max.z),
            pos,
        );
    }
}

proof fn lemma_slices_spare<C: Chunk>(
    chunk: C,
    room: BlockBox,
    chunk_box: BlockBox,
    air: u16,
    n: nat,
    pos: BlockPos,
)
    requires
        room.min.y <= room.max.y,
        n <= span(room.min.x, room.max.x),
        !(room.holds(pos.x as int, pos.y as int, pos.z as int) && pos.y > room.min.y
            && chunk_box.holds(pos.x as int, pos.y as int, pos.z as int)),
    ensures
        slices_cleared(chunk, room, chunk_box, air, n).state_at(pos) == chunk.state_at(pos),
    decreases n,
{
    if n > 0 {
        let m = (n - 1) as nat;
        lemma_slices_spare(chunk, room, chunk_box, air, m, pos);
        lemma_slice_spares(
            slices_cleared(chunk, room, chunk_box, air, m),
            room,
            chunk_box,
            air,
            room.min.x + m,
            (span(room.min.y, room.max.y) - 1) as nat,
            pos,
        );
    }
}

/// Carving out a room changes no block of its lowest layer, none outside it, and none that
/// may not be changed.
pub proof fn law_a_room_clears_only_itself<C: Chunk>(
    chunk: C,
    room: BlockBox,
    chunk_box: BlockBox,
    air: u16,
    pos: BlockPos,
)
    requires
        !(room.holds(pos.x as int, pos.y as int, pos.z as int) && pos.y > room.min.y
            && chunk_box.holds(pos.x as int, pos.y as int, pos.z as int)),
    ensures
        room_cleared(chunk, room, chunk_box, air).state_at(pos) == chunk.state_at(pos),
{
    if room.min.y <= room.max.y {
        lemma_slices_spare(chunk, room, chunk_box, air, span(room.min.x, room.max.x), pos);
    }
}

/// Each kind of mineshaft is built of one wood: oak, or dark oak in badlands.
pub proof fn law_mineshafts_are_built_of_one_wood(t: MineshaftType)
    ensures
        t == MineshaftType::Normal <==> planks_of(t) == Material::OakPlanks,
        t == MineshaftType::Normal <==> log_of(t) == Material::OakLog,
        t == MineshaftType::Normal <==> fence_of(t) == Material::OakFence,
        t == MineshaftType::Mesa <==> planks_of(t) == Material::DarkOakPlanks,
        t == MineshaftType::Mesa <==> log_of(t) == Material::DarkOakLog,
        t == MineshaftType::Mesa <==> fence_of(t) == Material::DarkOakFence,
{
}

/// Whether changes are those of a list and then others.
spec fn goes_on(before: Seq<Edit>, after: Seq<Edit>) -> bool {
    before.len() <= after.len() && forall|i: int|
        0 <= i < before.len() ==> after[i] == #[trigger] before[i]
}

proof fn lemma_goes_on(before: Seq<Edit>, after: Seq<Edit>, e: Edit)
    requires
        goes_on(before, after),
        before.contains(e),
    ensures
        after.contains(e),
{
    let i = choose|i: int| 0 <= i < before.len() && before[i] == e;
    assert(after[i] == before[i]);
}

proof fn lemma_cleared_goes_on<R: RandomSource>(d: Draft<R>, n: nat)
    ensures
        goes_on(d.edits, cleared(d, n).edits),
    decreases n,
{
    if n > 0 {
        lemma_cleared_goes_on(d, (n - 1) as nat);
    }
}

proof fn lemma_webbed_goes_on<R: RandomSource>(d: Draft<R>, n: nat)
    ensures
        goes_on(d.edits, webbed(d, n).edits),
    decreases n,
{
    if n > 0 {
        lemma_webbed_goes_on(d, (n - 1) as nat);
    }
}

proof fn lemma_sections_go_on<R: RandomSource>(
    d: Draft<R>,
    t: MineshaftType,
    spider_corridor: bool,
    length: int,
    n: nat,
)
    ensures
        goes_on(d.edits, sections_built(d, t, spider_corridor, length, n).edits),
    decreases n,
{
    if n > 0 {
        lemma_sections_go_on(d, t, spider_corridor, length, (n - 1) as nat);
    }
}

proof fn lemma_floored_goes_on<R>(d: Draft<R>, t: MineshaftType, n: nat)
    ensures
        goes_on(d.edits, floored(d, t, n).edits),
    decreases n,
{
    if n > 0 {
        lemma_floored_goes_on(d, t, (n - 1) as nat);
    }
}

proof fn lemma_railed_goes_on<R>(d: Draft<R>, rail: Material, n: nat)
    ensures
        goes_on(d.edits, railed(d, rail, n).edits),
    decreases n,
{
    if n > 0 {
        lemma_railed_goes_on(d, rail, (n - 1) as nat);
    }
}

proof fn lemma_cleared_there<R: RandomSource>(d: Draft<R>, n: nat, x: int, y: int, z: int)
    requires
        0 <= x < 3,
        y == 0 || y == 1,
        0 <= z,
        3 * z + x < n <= 0x7fff_ffff,
    ensures
        cleared(d, n).edits.contains(
            Edit::Block { material: Material::Air, x: x as i32, y: y as i32, z: z as i32 },
        ),
    decreases n,
{
    let e = Edit::Block { material: Material::Air, x: x as i32, y: y as i32, z: z as i32 };
    let before = cleared(d, (n - 1) as nat);
    let after = cleared(d, n);
    if 3 * z + x == n - 1 {
        let at = before.edits.len() + y;
        assert((n - 1) % 3 == x && (n - 1) / 3 == z);
        assert(after.edits[at] == e);
    } else {
        lemma_cleared_there(d, (n - 1) as nat, x, y, z);
        assert(goes_on(before.edits, after.edits));
        lemma_goes_on(before.edits, after.edits, e);
    }
}

proof fn lemma_floor_there<R>(d: Draft<R>, t: MineshaftType, n: nat, x: int, z: int)
    requires
        0 <= x < 3,
        0 <= z,
        3 * z + x < n <= 0x7fff_ffff,
    ensures
        floored(d, t, n).edits.contains(
            Edit::Block { material: planks_of(t), x: x as i32, y: -1i32, z: z as i32 },
        ),
    decreases n,
{
    let e = Edit::Block { material: planks_of(t), x: x as i32, y: -1i32, z: z as i32 };
    let before = floored(d, t, (n - 1) as nat);
    let after = floored(d, t, n);
    if 3 * z + x == n - 1 {
        assert((n - 1) % 3 == x && (n - 1) / 3 == z);
        assert(after.edits[before.edits.len() as int] == e);
    } else {
        lemma_floor_there(d, t, (n - 1) as nat, x, z);
        assert(goes_on(before.edits, after.edits));
        lemma_goes_on(before.edits, after.edits, e);
    }
}

proof fn lemma_rail_there<R>(d: Draft<R>, rail: Material, n: nat, z: int)
    requires
        0 <= z < n <= 0x7fff_ffff,
    ensures
        railed(d, rail, n).edits.contains(
            Edit::Block { material: rail, x: 1, y: 0, z: z as i32 },
        ),
    decreases n,
{
    let e = Edit::Block { material: rail, x: 1, y: 0, z: z as i32 };
    let before = railed(d, rail, (n - 1) as nat);
    let after = railed(d, rail, n);
    if z == n - 1 {
        assert(after.edits[before.edits.len() as int] == e);
    } else {
        lemma_rail_there(d, rail, (n - 1) as nat, z);
        assert(goes_on(before.edits, after.edits));
        lemma_goes_on(before.edits, after.edits, e);
    }
}

/// The support of a section: two fence posts of two blocks each, planks above both, and planks
/// between them in three of four draws.
pub proof fn law_supports_are_posts_and_a_beam<R: RandomSource>(
    d: Draft<R>,
    t: MineshaftType,
    z: i32,
    y: i32,
)
    ensures
        ({
            let after = supported(d, t, z as int);
            let added = after.edits.skip(d.edits.len() as int);
            let fence = fence_of(t);
            let planks = planks_of(t);
            &&& after.edits.take(d.edits.len() as int) == d.edits
            &&& after.rng == d.rng.after_bounded(4)
            &&& after.has_placed_spider == d.has_placed_spider
            &&& y == 0 || y == 1 ==> added.contains(Edit::Block { material: fence, x: 0, y, z })
                && added.contains(Edit::Block { material: fence, x: 2, y, z })
            &&& added.contains(Edit::Block { material: planks, x: 0, y: 2, z })
            &&& added.contains(Edit::Block { material: planks, x: 2, y: 2, z })
            &&& added.contains(Edit::Block { material: planks, x: 1, y: 2, z }) <==> d.rng.bounded(
                4,
            ) != 0
            &&& added.len() == if d.rng.bounded(4) == 0 {
                6nat
            } else {
                7
            }
        }),
{
    let after = supported(d, t, z as int);
    let n = d.edits.len() as int;
    let added = after.edits.skip(n);
    let fence = fence_of(t);
    let planks = planks_of(t);
    assert(after.edits.take(n) =~= d.edits);
    assert(added[0] == (Edit::Block { material: fence, x: 0, y: 0, z }));
    assert(added[1] == (Edit::Block { material: fence, x: 0, y: 1, z }));
    assert(added[2] == (Edit::Block { material: fence, x: 2, y: 0, z }));
    assert(added[3] == (Edit::Block { material: fence, x: 2, y: 1, z }));
    assert(added[4] == (Edit::Block { material: planks, x: 0, y: 2, z }));
    if d.rng.bounded(4) == 0 {
        assert(added[5] == (Edit::Block { material: planks, x: 2, y: 2, z }));
    } else {
        assert(added[5] == (Edit::Block { material: planks, x: 1, y: 2, z }));
        assert(added[6] == (Edit::Block { material: planks, x: 2, y: 2, z }));
    }
}

/// Beside a support cobwebs hang under the ceiling, on either side in one of ten draws, and only
/// within the corridor.
pub proof fn law_webs_hang_beside_supports<R: RandomSource>(d: Draft<R>, z: i32, length: int)
    ensures
        ({
            let after = webs_at(d, z as int, length);
            let left = d.rng.unit() < 1_677_722;
            let right = d.rng.after_unit().unit() < 1_677_722;
            let one = Edit::Block { material: Material::Cobweb, x: 0, y: 2, z };
            let other = Edit::Block { material: Material::Cobweb, x: 2, y: 2, z };
            &&& z < 0 || z > length ==> after == d
            &&& 0 <= z <= length ==> after.rng == d.rng.after_unit().after_unit()
            &&& 0 <= z <= length ==> after.edits == d.edits + (if left {
                seq![one]
            } else {
                seq![]
            }) + (if right {
                seq![other]
            } else {
                seq![]
            })
        }),
{
}

/// A chest stands in one of a hundred draws, and a draw is made for it either way; a spider's
/// corridor has its spawner in the middle, within one block of a support and within the
/// corridor, and draws for none once it has one.
pub proof fn law_chests_and_spawners_are_drawn<R: RandomSource>(
    d: Draft<R>,
    x: i32,
    z: i32,
    length: i32,
    spider_corridor: bool,
)
    requires
        0 <= z < 0x7fff_0000,
    ensures
        ({
            let after = maybe_chest(d, x as int, z as int);
            &&& after.rng == d.rng.after_bounded(100)
            &&& after.has_placed_spider == d.has_placed_spider
            &&& d.rng.bounded(100) == 0 ==> after.edits == d.edits.push(Edit::Chest { x, y: 0, z })
            &&& d.rng.bounded(100) != 0 ==> after.edits == d.edits
        }),
        ({
            let after = spawner_placed(d, spider_corridor, z as int, length as int);
            let at = z - 1 + d.rng.bounded(3);
            &&& !spider_corridor || d.has_placed_spider ==> after == d
            &&& spider_corridor && !d.has_placed_spider ==> {
                &&& after.rng == d.rng.after_bounded(3)
                &&& after.has_placed_spider <==> 0 <= at <= length
                &&& 0 <= at <= length ==> after.edits == d.edits.push(
                    Edit::Spawner { x: 1, y: 0, z: at as i32 },
                )
                &&& !(0 <= at <= length) ==> after.edits == d.edits
                &&& z - 1 <= at <= z + 1
            }
        }),
{
    d.rng.draws_below(3);
}

/// The columns of a corridor are cleared one by one: two blocks always, and the third in four
/// of five draws.
pub proof fn law_columns_are_cleared_one_by_one<R: RandomSource>(d: Draft<R>, z: i32, x: i32)
    requires
        0 <= x < 3,
        0 <= z < 0x0fff_ffff,
    ensures
        ({
            let before = cleared(d, (3 * z + x) as nat);
            let after = cleared(d, (3 * z + x + 1) as nat);
            let low = Edit::Block { material: Material::Air, x, y: 0, z };
            let middle = Edit::Block { material: Material::Air, x, y: 1, z };
            let high = Edit::Block { material: Material::Air, x, y: 2, z };
            &&& cleared(d, 0) == d
            &&& after.rng == before.rng.after_unit()
            &&& after.edits == before.edits + seq![low, middle] + (if before.rng.unit()
                < 13_421_773 {
                seq![high]
            } else {
                seq![]
            })
        }),
        ({
            let before = webbed(d, (3 * z + x) as nat);
            let after = webbed(d, (3 * z + x + 1) as nat);
            let low = Edit::Block { material: Material::Cobweb, x, y: 0, z };
            let middle = Edit::Block { material: Material::Cobweb, x, y: 1, z };
            &&& webbed(d, 0) == d
            &&& after.rng == before.rng.after_unit()
            &&& after.edits == before.edits + (if before.rng.unit() < 10_066_330 {
                seq![low, middle]
            } else {
                seq![]
            })
        }),
{
    assert((3 * z + x) % 3 == x && (3 * z + x) / 3 == z);
}

/// Sections are built one by one, five blocks apart and the first two blocks in: the support,
/// cobwebs before and behind it, a chest before it on the one side and behind it on the other,
/// and the spawner.
pub proof fn law_sections_are_five_blocks_apart<R: RandomSource>(
    d: Draft<R>,
    t: MineshaftType,
    spider_corridor: bool,
    length: int,
    n: nat,
)
    ensures
        sections_built(d, t, spider_corridor, length, 0) == d,
        ({
            let z = 5 * n as int + 2;
            let before = sections_built(d, t, spider_corridor, length, n);
            let held = supported(before, t, z);
            let webs = webs_at(webs_at(held, z - 1, length), z + 1, length);
            let chests = maybe_chest(maybe_chest(webs, 2, z - 1), 0, z + 1);
            sections_built(d, t, spider_corridor, length, n + 1) == spawner_placed(
                chests,
                spider_corridor,
                z,
                length,
            )
        }),
{
}

/// Every corridor is cleared to a height of two over its whole length, has a floor under all of
/// it, pillars near both ends, and rails along its whole middle where it has any.
pub proof fn law_corridors_are_whole<R: RandomSource>(
    c: MineshaftCorridorPiece,
    rng: R,
    x: i32,
    z: i32,
)
    requires
        0 < c.num_sections <= 1_000_000,
        0 <= x < 3,
        0 <= z < 5 * c.num_sections,
    ensures
        ({
            let all = corridor_draft(c, rng).edits;
            let log = log_of(c.mineshaft_type);
            let last = (5 * c.num_sections - 3) as i32;
            &&& all.contains(Edit::Block { material: Material::Air, x, y: 0, z })
            &&& all.contains(Edit::Block { material: Material::Air, x, y: 1, z })
            &&& all.contains(
                Edit::Block { material: planks_of(c.mineshaft_type), x, y: -1i32, z },
            )
            &&& all.contains(Edit::FillDown { material: log, x: 0, y: -1i32, z: 2 })
            &&& all.contains(Edit::FillDown { material: log, x: 2, y: -1i32, z: 2 })
            &&& c.num_sections > 1 ==> all.contains(
                Edit::FillDown { material: log, x: 0, y: -1i32, z: last },
            ) && all.contains(Edit::FillDown { material: log, x: 2, y: -1i32, z: last })
            &&& c.has_rails ==> all.contains(
                Edit::Block {
                    material: if c.facing == Some(BlockDirection::North) || c.facing == Some(
                        BlockDirection::South,
                    ) {
                        Material::RailNorthSouth
                    } else {
                        Material::RailEastWest
                    },
                    x: 1,
                    y: 0,
                    z,
                },
            )
        }),
{
    let t = c.mineshaft_type;
    let length = c.num_sections * 5 - 1;
    let sections = built_sections(c.num_sections);
    let rows = sections * 5;
    let cells = 3 * rows;
    let empty = Draft { edits: Seq::<Edit>::empty(), rng, has_placed_spider: c.has_placed_spider };
    let clear = cleared(empty, cells);
    let webs = if c.spider_corridor {
        webbed(clear, cells)
    } else {
        clear
    };
    let built = sections_built(webs, t, c.spider_corridor, length, sections);
    let floor = floored(built, t, cells);
    let held = pillars(floor, t, c.num_sections as int, length);
    let all = corridor_draft(c, rng).edits;
    let low = Edit::Block { material: Material::Air, x, y: 0, z };
    let high = Edit::Block { material: Material::Air, x, y: 1, z };
    let plank = Edit::Block { material: planks_of(t), x, y: -1i32, z };
    lemma_cleared_there(empty, cells, x as int, 0, z as int);
    lemma_cleared_there(empty, cells, x as int, 1, z as int);
    lemma_webbed_goes_on(clear, cells);
    lemma_sections_go_on(webs, t, c.spider_corridor, length, sections);
    lemma_floored_goes_on(built, t, cells);
    lemma_floor_there(built, t, cells, x as int, z as int);
    lemma_railed_goes_on(held, rail_of(c.facing), rows);
    assert(goes_on(clear.edits, built.edits));
    assert(goes_on(built.edits, floor.edits));
    assert(goes_on(floor.edits, held.edits));
    assert(goes_on(held.edits, all));
    lemma_goes_on(clear.edits, built.edits, low);
    lemma_goes_on(built.edits, floor.edits, low);
    lemma_goes_on(floor.edits, held.edits, low);
    lemma_goes_on(held.edits, all, low);
    lemma_goes_on(clear.edits, built.edits, high);
    lemma_goes_on(built.edits, floor.edits, high);
    lemma_goes_on(floor.edits, held.edits, high);
    lemma_goes_on(held.edits, all, high);
    lemma_goes_on(floor.edits, held.edits, plank);
    lemma_goes_on(held.edits, all, plank);
    let n = floor.edits.len() as int;
    let log = log_of(t);
    let last = (5 * c.num_sections - 3) as i32;
    assert(held.edits[n] == (Edit::FillDown { material: log, x: 0, y: -1i32, z: 2 }));
    assert(held.edits[n + 1] == (Edit::FillDown { material: log, x: 2, y: -1i32, z: 2 }));
    lemma_goes_on(held.edits, all, Edit::FillDown { material: log, x: 0, y: -1i32, z: 2 });
    lemma_goes_on(held.edits, all, Edit::FillDown { material: log, x: 2, y: -1i32, z: 2 });
    if c.num_sections > 1 {
        assert(held.edits[n + 2] == (Edit::FillDown { material: log, x: 0, y: -1i32, z: last }));
        assert(held.edits[n + 3] == (Edit::FillDown { material: log, x: 2, y: -1i32, z: last }));
        lemma_goes_on(held.edits, all, Edit::FillDown { material: log, x: 0, y: -1i32, z: last });
        lemma_goes_on(held.edits, all, Edit::FillDown { material: log, x: 2, y: -1i32, z: last });
    }
    if c.has_rails {
        lemma_rail_there(held, rail_of(c.facing), rows, z as int);
    }
}

/// What single blocks were set to last at a place.
pub open spec fn last_set(edits: Seq<Edit>, x: i32, y: i32, z: i32) -> Option<Material>
    decreases edits.len(),
{
    if edits.len() == 0 {
        None
    } else {
        match edits.last() {
            Edit::Block { material, x: ex, y: ey, z: ez } => if ex == x && ey == y && ez == z {
                Some(material)
            } else {
                last_set(edits.drop_last(), x, y, z)
            },
            _ => last_set(edits.drop_last(), x, y, z),
        }
    }
}

proof fn lemma_last_set(edits: Seq<Edit>, k: int, material: Material, x: i32, y: i32, z: i32)
    requires
        0 <= k < edits.len(),
        edits[k] == (Edit::Block { material, x, y, z }),
        forall|j: int|
            k < j < edits.len() ==> !((#[trigger] edits[j]) matches Edit::Block {
                x: ex,
                y: ey,
                z: ez,
                ..
            } && ex == x && ey == y && ez == z),
    ensures
        last_set(edits, x, y, z) == Some(material),
    decreases edits.len(),
{
    if k < edits.len() - 1 {
        let rest = edits.drop_last();
        assert(edits[edits.len() - 1] == edits.last());
        assert forall|j: int| k < j < rest.len() implies !((#[trigger] rest[j]) matches Edit::Block {
            x: ex,
            y: ey,
            z: ez,
            ..
        } && ex == x && ey == y && ez == z) by {
            assert(edits[j] == rest[j]);
        }
        lemma_last_set(rest, k, material, x, y, z);
    }
}

/// A crossing is a hall of five blocks each way: logs in its four corners from the floor to the
/// ceiling, air everywhere else, and planks below.
pub proof fn law_crossings_are_halls(t: MineshaftType, x: i32, y: i32, z: i32)
    requires
        0 <= x < 5,
        -1 <= y < 5,
        0 <= z < 5,
    ensures
        last_set(crossing_edits(t), x, y, z) == Some(
            if y == -1 {
                planks_of(t)
            } else if (x == 0 || x == 4) && (z == 0 || z == 4) {
                log_of(t)
            } else {
                Material::Air
            },
        ),
        crossing_edits(t).len() == 170,
{
    let all = crossing_edits(t);
    if y == -1 {
        let k = 5 * x + z;
        assert(k / 5 == x && k % 5 == z);
        assert(all[145 + k] == (Edit::Block { material: planks_of(t), x, y: -1i32, z }));
        assert forall|j: int| 145 + k < j < all.len() implies !((
        #[trigger] all[j]) matches Edit::Block { x: ex, y: ey, z: ez, .. } && ex == x && ey == y
            && ez == z) by {
            let i = j - 145;
            assert(i / 5 != x || i % 5 != z);
        }
        lemma_last_set(all, 145 + k, planks_of(t), x, y, z);
    } else if (x == 0 || x == 4) && (z == 0 || z == 4) {
        let k = z / 4 * 10 + x / 4 * 5 + y;
        assert(k / 5 % 2 * 4 == x && k % 5 == y && k / 10 * 4 == z);
        assert(all[125 + k] == (Edit::Block { material: log_of(t), x, y, z }));
        assert forall|j: int| 125 + k < j < all.len() implies !((
        #[trigger] all[j]) matches Edit::Block { x: ex, y: ey, z: ez, .. } && ex == x && ey == y
            && ez == z) by {
            if j < 145 {
                let i = j - 125;
                assert(i / 5 % 2 * 4 != x || i % 5 != y || i / 10 * 4 != z);
            }
        }
        lemma_last_set(all, 125 + k, log_of(t), x, y, z);
    } else {
        let k = 25 * x + 5 * y + z;
        assert(k / 25 == x && k / 5 % 5 == y && k % 5 == z);
        assert(all[k] == (Edit::Block { material: Material::Air, x, y, z }));
        assert forall|j: int| k < j < all.len() implies !((#[trigger] all[j]) matches Edit::Block {
            x: ex,
            y: ey,
            z: ez,
            ..
        } && ex == x && ey == y && ez == z) by {
            if j < 125 {
                assert(j / 25 != x || j / 5 % 5 != y || j % 5 != z);
            } else if j < 145 {
                let i = j - 125;
                assert(i / 5 % 2 == 0 || i / 5 % 2 == 1);
                assert(i / 10 == 0 || i / 10 == 1);
            }
        }
        lemma_last_set(all, k, Material::Air, x, y, z);
    }
}

/// Stairs clear two landings and one row of blocks for each step between them, three wide; each
/// step's ceiling lies one lower than the one before, and its floor too, down to the floor of
/// the lower part.
pub proof fn law_stairs_lead_down(i: int)
    requires
        0 <= i < 5,
    ensures
        stairs_edits().len() == 7,
        stairs_edits()[0] == (Edit::Fill {
            material: Material::Air,
            from: BlockPos { x: 0, y: 5, z: 0 },
            to: BlockPos { x: 2, y: 7, z: 1 },
        }),
        stairs_edits()[1] == (Edit::Fill {
            material: Material::Air,
            from: BlockPos { x: 0, y: 0, z: 7 },
            to: BlockPos { x: 2, y: 2, z: 8 },
        }),
        stairs_edits()[2 + i] matches Edit::Fill { material, from, to } && material == Material::Air
            && from.x == 0 && to.x == 2 && from.z == 2 + i && to.z == 2 + i && to.y == 7 - i && (if i
            < 4 {
            from.y == 4 - i
        } else {
            from.y == 1
        }),
{
}

proof fn lemma_column_cleared<C: Chunk>(
    chunk: C,
    room: BlockBox,
    chunk_box: BlockBox,
    air: u16,
    x: int,
    y: int,
    n: nat,
    pos: BlockPos,
)
    requires
        n <= span(room.min.z, room.max.z),
        i32::MIN <= x <= i32::MAX,
        i32::MIN <= y <= i32::MAX,
    ensures
        chunk.state_at(pos) == air ==> column_cleared(
            chunk,
            room,
            chunk_box,
            air,
            x,
            y,
            n,
        ).state_at(pos) == air,
        pos.x == x && pos.y == y && room.min.z <= pos.z < room.min.z + n && chunk_box.holds(
            x,
            y,
            pos.z as int,
        ) ==> column_cleared(chunk, room, chunk_box, air, x, y, n).state_at(pos) == air,
    decreases n,
{
    if n > 0 {
        let before = column_cleared(chunk, room, chunk_box, air, x, y, (n - 1) as nat);
        lemma_column_cleared(chunk, room, chunk_box, air, x, y, (n - 1) as nat, pos);
        let z = room.min.z + n - 1;
        let here = BlockPos { x: x as i32, y: y as i32, z: z as i32 };
        before.others_stay(here, air, pos);
        before.set_is_there(here, air);
    }
}

proof fn lemma_slice_cleared<C: Chunk>(
    chunk: C,
    room: BlockBox,
    chunk_box: BlockBox,
    air: u16,
    x: int,
    n: nat,
    pos: BlockPos,
)
    requires
        n < span(room.min.y, room.max.y),
        i32::MIN <= x <= i32::MAX,
    ensures
        chunk.state_at(pos) == air ==> slice_cleared(chunk, room, chunk_box, air, x, n).state_at(
            pos,
        ) == air,
        pos.x == x && room.min.y < pos.y <= room.min.y + n && room.min.z <= pos.z <= room.max.z
            && chunk_box.holds(x, pos.y as int, pos.z as int) ==> slice_cleared(
            chunk,
            room,
            chunk_box,
            air,
            x,
            n,
        ).state_at(pos) == air,
    decreases n,
{
    if n > 0 {
        let before = slice_cleared(chunk, room, chunk_box, air, x, (n - 1) as nat);
        lemma_slice_cleared(chunk, room, chunk_box, air, x, (n - 1) as nat, pos);
        lemma_column_cleared(
            before,
            room,
            chunk_box,
            air,
            x,
            room.min.y + n,
            span(room.min.z, room.max.z),
            pos,
        );
    }
}

proof fn lemma_slices_cleared<C: Chunk>(
    chunk: C,
    room: BlockBox,
    chunk_box: BlockBox,
    air: u16,
    n: nat,
    pos: BlockPos,
)
    requires
        room.min.y <= room.max.y,
        n <= span(room.min.x, room.max.x),
    ensures
        chunk.state_at(pos) == air ==> slices_cleared(chunk, room, chunk_box, air, n).state_at(pos)
            == air,
        room.min.x <= pos.x < room.min.x + n && room.min.y < pos.y <= room.max.y && room.min.z
            <= pos.z <= room.max.z && chunk_box.holds(
            pos.x as int,
            pos.y as int,
            pos.z as int,
        ) ==> slices_cleared(chunk, room, chunk_box, air, n).state_at(pos) == air,
    decreases n,
{
    if n > 0 {
        let before = slices_cleared(chunk, room, chunk_box, air, (n - 1) as nat);
        lemma_slices_cleared(chunk, room, chunk_box, air, (n - 1) as nat, pos);
        lemma_slice_cleared(
            before,
            room,
            chunk_box,
            air,
            room.min.x + n - 1,
            (span(room.min.y, room.max.y) - 1) as nat,
            pos,
        );
    }
}

/// Carving out a room leaves air in every block of it above its lowest layer that may be
/// changed.
pub proof fn law_a_room_is_carved_out<C: Chunk>(
    chunk: C,
    room: BlockBox,
    chunk_box: BlockBox,
    air: u16,
    pos: BlockPos,
)
    requires
        room.holds(pos.x as int, pos.y as int, pos.z as int),
        pos.y > room.min.y,
        chunk_box.holds(pos.x as int, pos.y as int, pos.z as int),
    ensures
        room_cleared(chunk, room, chunk_box, air).state_at(pos) == air,
{
    lemma_slices_cleared(chunk, room, chunk_box, air, span(room.min.x, room.max.x), pos);
}

/// A piece lies in liquid just where its lowest corner, the corner across the floor from it or
/// the middle between them does, as far as these may be changed.
pub proof fn law_liquid_is_looked_for_on_the_floor<C: Chunk>(
    chunk: &C,
    b: BlockBox,
    chunk_box: BlockBox,
)
    ensures
        ({
            let low = BlockPos { x: b.min.x, y: b.min.y, z: b.min.z };
            let high = BlockPos { x: b.max.x, y: b.min.y, z: b.max.z };
            let middle = BlockPos {
                x: halved(b.min.x + b.max.x) as i32,
                y: b.min.y,
                z: halved(b.min.z + b.max.z) as i32,
            };
            in_liquid(chunk, b, chunk_box) <==> {
                ||| chunk_box.holds(low.x as int, low.y as int, low.z as int) && chunk.liquid(
                    chunk.state_at(low),
                )
                ||| chunk_box.holds(high.x as int, high.y as int, high.z as int) && chunk.liquid(
                    chunk.state_at(high),
                )
                ||| chunk_box.holds(middle.x as int, middle.y as int, middle.z as int)
                    && chunk.liquid(chunk.state_at(middle))
            }
        }),
{
    let low = BlockPos { x: b.min.x, y: b.min.y, z: b.min.z };
    let high = BlockPos { x: b.max.x, y: b.min.y, z: b.max.z };
    let middle = BlockPos {
        x: halved(b.min.x + b.max.x) as i32,
        y: b.min.y,
        z: halved(b.min.z + b.max.z) as i32,
    };
    let wet_low = chunk_box.holds(low.x as int, low.y as int, low.z as int) && chunk.liquid(
        chunk.state_at(low),
    );
    let wet_high = chunk_box.holds(high.x as int, high.y as int, high.z as int) && chunk.liquid(
        chunk.state_at(high),
    );
    let wet_middle = chunk_box.holds(middle.x as int, middle.y as int, middle.z as int)
        && chunk.liquid(chunk.state_at(middle));
    assert(wet_probe(chunk, b, chunk_box, 0) == wet_low);
    assert(wet_probe(chunk, b, chunk_box, 1) == wet_high);
    assert(wet_probe(chunk, b, chunk_box, 2) == wet_middle);
    if in_liquid(chunk, b, chunk_box) {
        let i = choose|i: int| 0 <= i < 3 && #[trigger] wet_probe(chunk, b, chunk_box, i);
        assert(i == 0 || i == 1 || i == 2);
    }
}

/// Halving rounds towards zero: it undoes doubling, and drops what is left over.
pub proof fn law_halving_rounds_towards_zero(n: int)
    ensures
        halved(2 * n) == n,
        n >= 0 ==> halved(2 * n + 1) == n,
        n <= 0 ==> halved(2 * n - 1) == n,
        halved(-n) == -halved(n),
{
}

/// The seed of a chest mixes the world's seed with the chest's column: the height does not
/// matter, and a change of the world's seed changes it bit by bit.
pub proof fn law_chest_seeds_mix_in_the_column(seed: i64, other: i64, pos: BlockPos, y: i32)
    ensures
        chest_seed(seed, pos) == chest_seed(seed, BlockPos { x: pos.x, y, z: pos.z }),
        chest_seed(seed, pos) ^ seed == chest_seed(other, pos) ^ other,
        rotated_left(pos.x, 13) == pos.x * 8192 + if pos.x < 0 {
            8191int
        } else {
            0
        },
        rotated_left(pos.z, 7) == pos.z * 128 + if pos.z < 0 {
            127int
        } else {
            0
        },
        chest_seed(0, pos) == rotated_left(pos.x, 13) ^ rotated_left(pos.z, 7),
{
    let x = pos.x;
    let z = pos.z;
    let a = rotated_left(x, 13);
    let b = rotated_left(z, 7);
    assert((seed ^ a ^ b) ^ seed == (other ^ a ^ b) ^ other) by (bit_vector);
    assert(0i64 ^ a ^ b == a ^ b) by (bit_vector);
    assert(((((x as i64) as u64) << 13u64) | (((x as i64) as u64) >> 51u64)) as i64 == x * 8192 + (if x
        < 0 {
        8191int
    } else {
        0int
    })) by (bit_vector);
    assert(((((z as i64) as u64) << 7u64) | (((z as i64) as u64) >> 57u64)) as i64 == z * 128 + (if z
        < 0 {
        127int
    } else {
        0int
    })) by (bit_vector);
}

/// A chest or a spawner of a corridor is there just where it may be placed; a chest holds the
/// loot of mineshafts by the seed of its place, a spawner spawns cave spiders, and no other
/// change leaves anything.
pub proof fn law_corridor_entities_stand_where_they_may(
    edit: Edit,
    pos: BlockPos,
    chunk_box: BlockBox,
    seed: i64,
)
    ensures
        corridor_entity(edit, pos, chunk_box, seed) is Some <==> (edit is Chest || edit is Spawner)
            && chunk_box.min.x <= pos.x <= chunk_box.max.x && chunk_box.min.y <= pos.y
            <= chunk_box.max.y && chunk_box.min.z <= pos.z <= chunk_box.max.z,
        corridor_entity(edit, pos, chunk_box, seed) matches Some(entity) ==> {
            &&& edit is Chest ==> entity == (CorridorEntityModel::Chest {
                id: "minecraft:chest"@,
                pos,
                loot_table: "minecraft:chests/abandoned_mineshaft"@,
                loot_table_seed: chest_seed(seed, pos),
            })
            &&& edit is Spawner ==> entity == (CorridorEntityModel::Spawner {
                id: "minecraft:mob_spawner"@,
                pos,
                entity_id: "minecraft:cave_spider"@,
            })
        },
{
}

} // verus!
