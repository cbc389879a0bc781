//! The world while structures are placed in it.

use super::geometry::BlockPos;
use super::processor::{HeightMap, SketchedBlock, SketchedTerrain, Terrain};
use vstd::prelude::*;

verus! {

/// A part of the world that can be changed. What it is after a change is a function of what
/// it was.
pub trait Chunk: Terrain + Sized {
    /// The world with a block set.
    spec fn with_block(self, pos: BlockPos, state: u16) -> Self;

    /// The block of water.
    spec fn water(&self) -> u16;

    /// The waterlogged form of a state, where it has one.
    spec fn waterlogged(&self, state: u16) -> Option<u16>;

    /// Whether a state is a liquid.
    spec fn liquid(&self, state: u16) -> bool;

    /// The seed that a position gives for loot.
    spec fn loot_seed(&self, pos: BlockPos) -> i64;

    /// Setting a block leaves all others as they are.
    proof fn others_stay(self, pos: BlockPos, state: u16, other: BlockPos)
        ensures
            other != pos ==> self.with_block(pos, state).state_at(other) == self.state_at(other),
    ;

    /// A block that is set is there.
    proof fn set_is_there(self, pos: BlockPos, state: u16)
        ensures
            self.with_block(pos, state).state_at(pos) == state,
    ;

    /// Setting a block does not change what states mean.
    proof fn meanings_stay(self, pos: BlockPos, state: u16, other: u16)
        ensures
            self.with_block(pos, state).block_of(other) == self.block_of(other),
            self.with_block(pos, state).water() == self.water(),
            self.with_block(pos, state).waterlogged(other) == self.waterlogged(other),
            self.with_block(pos, state).liquid(other) == self.liquid(other),
    ;

    fn set_block_state(&mut self, pos: BlockPos, state: u16)
        ensures
            *final(self) == (*old(self)).with_block(pos, state),
    ;

    fn water_id(&self) -> (r: u16)
        ensures
            r == self.water(),
    ;

    fn with_waterlogged(&self, state: u16) -> (r: Option<u16>)
        ensures
            r == self.waterlogged(state),
    ;

    fn is_liquid(&self, state: u16) -> (r: bool)
        ensures
            r == self.liquid(state),
    ;

    fn loot_seed_at(&self, pos: BlockPos) -> (r: i64)
        ensures
            r == self.loot_seed(pos),
    ;
}

/// Blocks that were set, the latest first.
#[derive(Debug)]
pub enum Overlay {
    Bare,
    Block(SketchedBlock, Box<Overlay>),
}

/// The state that was set last at a position.
pub open spec fn overlaid(overlay: Overlay, pos: BlockPos) -> Option<u16>
    decreases overlay,
{
    match overlay {
        Overlay::Bare => None,
        Overlay::Block(block, under) => if block.pos == pos {
            Some(block.state)
        } else {
            overlaid(*under, pos)
        },
    }
}

impl Overlay {
    /// The state that was set last at a position.
    pub fn state(&self, pos: BlockPos) -> (r: Option<u16>)
        ensures
            r == overlaid(*self, pos),
        decreases self,
    {
        match self {
            Overlay::Bare => None,
            Overlay::Block(block, under) => if block.pos == pos {
                Some(block.state)
            } else {
                under.state(pos)
            },
        }
    }
}

/// The height of the ground of a column: above the highest block that was ever set there,
/// where that is above the bare ground. Setting the filling of the world raises nothing.
pub open spec fn raised(overlay: Overlay, x: i32, z: i32, filling: u16, ground: i16) -> i16
    decreases overlay,
{
    match overlay {
        Overlay::Bare => ground,
        Overlay::Block(block, under) => {
            let below = raised(*under, x, z, filling, ground);
            if block.pos.x == x && block.pos.z == z && block.state != filling && below
                <= block.pos.y < i16::MAX {
                (block.pos.y + 1) as i16
            } else {
                below
            }
        },
    }
}

impl Overlay {
    /// The height of the ground of a column.
    pub fn top(&self, x: i32, z: i32, filling: u16, ground: i16) -> (r: i16)
        ensures
            r == raised(*self, x, z, filling, ground),
        decreases self,
    {
        match self {
            Overlay::Bare => ground,
            Overlay::Block(block, under) => {
                let below: i16 = under.top(x, z, filling, ground);
                if block.pos.x == x && block.pos.z == z && block.state != filling && below as i32
                    <= block.pos.y && block.pos.y < i16::MAX as i32 {
                    (block.pos.y + 1) as i16
                } else {
                    below
                }
            },
        }
    }
}

/// A state with its waterlogged form.
#[derive(Clone, Copy, Debug, PartialEq, Eq, Structural)]
pub struct SoakedState {
    pub dry: u16,
    pub wet: u16,
}

/// The waterlogged form of a state in a list, from the `from`th on.
pub open spec fn soaked(states: Seq<SoakedState>, state: u16, from: int) -> Option<u16>
    decreases states.len() - from,
{
    if from < 0 || from >= states.len() {
        None
    } else if states[from].dry == state {
        Some(states[from].wet)
    } else {
        soaked(states, state, from + 1)
    }
}

/// A sketched world that can be changed. Its only liquid is water, and its ground rises with
/// the blocks that are set on it.
pub struct SketchedChunk<'a> {
    pub ground: SketchedTerrain<'a>,
    pub placed: Overlay,
    pub water: u16,
    pub soaked: &'a [SoakedState],
    pub loot_seed: i64,
}

impl<'a> Terrain for SketchedChunk<'a> {
    type Random = crate::random::ListedDraws<'a>;

    open spec fn state_at(&self, pos: BlockPos) -> u16 {
        match overlaid(self.placed, pos) {
            Some(state) => state,
            None => self.ground.state_at(pos),
        }
    }

    open spec fn block_of(&self, state: u16) -> u16 {
        self.ground.block_of(state)
    }

    open spec fn top_y(&self, heightmap: HeightMap, x: i32, z: i32) -> i16 {
        raised(self.placed, x, z, self.ground.filling, self.ground.ground)
    }

    open spec fn random_at(&self, pos: BlockPos) -> crate::random::ListedDraws<'a> {
        self.ground.random_at(pos)
    }

    fn get_block_state(&self, pos: BlockPos) -> (r: u16) {
        match self.placed.state(pos) {
            Some(state) => state,
            None => self.ground.get_block_state(pos),
        }
    }

    fn to_block_id(&self, state: u16) -> (r: u16) {
        self.ground.to_block_id(state)
    }

    fn get_top_y(&self, heightmap: HeightMap, x: i32, z: i32) -> (r: i16) {
        self.placed.top(x, z, self.ground.filling, self.ground.ground)
    }

    fn position_random(&self, pos: BlockPos) -> (r: crate::random::ListedDraws<'a>) {
        self.ground.position_random(pos)
    }
}

impl<'a> Chunk for SketchedChunk<'a> {
    open spec fn with_block(self, pos: BlockPos, state: u16) -> Self {
        SketchedChunk {
            placed: Overlay::Block(SketchedBlock { pos, state }, Box::new(self.placed)),
            ..self
        }
    }

    open spec fn water(&self) -> u16 {
        self.water
    }

    open spec fn waterlogged(&self, state: u16) -> Option<u16> {
        soaked(self.soaked@, state, 0)
    }

    open spec fn liquid(&self, state: u16) -> bool {
        state == self.water
    }

    open spec fn loot_seed(&self, pos: BlockPos) -> i64 {
        self.loot_seed
    }

    proof fn others_stay(self, pos: BlockPos, state: u16, other: BlockPos) {
    }

    proof fn set_is_there(self, pos: BlockPos, state: u16) {
    }

    proof fn meanings_stay(self, pos: BlockPos, state: u16, other: u16) {
    }

    fn set_block_state(&mut self, pos: BlockPos, state: u16) {
        let mut under = Overlay::Bare;
        std::mem::swap(&mut under, &mut self.placed);
        self.placed = Overlay::Block(SketchedBlock { pos, state }, Box::new(under));
    }

    fn water_id(&self) -> (r: u16) {
        self.water
    }

    fn with_waterlogged(&self, state: u16) -> (r: Option<u16>) {
        let mut i: usize = 0;
        while i < self.soaked.len()
            invariant
                i <= self.soaked@.len(),
                self.waterlogged(state) == soaked(self.soaked@, state, i as int),
            decreases self.soaked.len() - i,
        {
            if self.soaked[i].dry == state {
                return Some(self.soaked[i].wet);
            }
            i = i + 1;
        }
        None
    }

    fn is_liquid(&self, state: u16) -> (r: bool) {
        state == self.water
    }

    fn loot_seed_at(&self, pos: BlockPos) -> (r: i64) {
        self.loot_seed
    }
}

/// Setting a block raises the ground of its column to just above it, where it lies above the
/// ground and is not the filling of the world; every other column stays as it is.
pub proof fn law_blocks_raise_their_column(
    overlay: Overlay,
    pos: BlockPos,
    state: u16,
    x: i32,
    z: i32,
    filling: u16,
    ground: i16,
)
    ensures
        ({
            let before = raised(overlay, x, z, filling, ground);
            let block = SketchedBlock { pos, state };
            let after = raised(
                Overlay::Block(block, Box::new(overlay)),
                x,
                z,
                filling,
                ground,
            );
            &&& raised(Overlay::Bare, x, z, filling, ground) == ground
            &&& after >= before
            &&& pos.x != x || pos.z != z || state == filling ==> after == before
            &&& pos.x == x && pos.z == z && state != filling && pos.y >= before && pos.y
                < i16::MAX ==> after == pos.y + 1
            &&& pos.y < before ==> after == before
        }),
{
}

/// The waterlogged form of a state is that of the first of its kind in the list.
pub proof fn law_soaked_states_are_listed(states: Seq<SoakedState>, state: u16, k: int)
    ensures
        0 <= k < states.len() && states[k].dry == state && (forall|j: int|
            0 <= j < k ==> (#[trigger] states[j]).dry != state) ==> soaked(states, state, 0)
            == Some(states[k].wet),
        (forall|j: int| 0 <= j < states.len() ==> (#[trigger] states[j]).dry != state) ==> soaked(
            states,
            state,
            0,
        ) is None,
{
    if 0 <= k < states.len() && states[k].dry == state && (forall|j: int|
        0 <= j < k ==> (#[trigger] states[j]).dry != state) {
        lemma_first_soaked(states, state, 0, k);
    }
    if forall|j: int| 0 <= j < states.len() ==> (#[trigger] states[j]).dry != state {
        lemma_no_soaked(states, state, 0);
    }
}

proof fn lemma_first_soaked(states: Seq<SoakedState>, state: u16, from: int, k: int)
    requires
        0 <= from <= k < states.len(),
        states[k].dry == state,
        forall|j: int| from <= j < k ==> (#[trigger] states[j]).dry != state,
    ensures
        soaked(states, state, from) == Some(states[k].wet),
    decreases k - from,
{
    if from < k {
        lemma_first_soaked(states, state, from + 1, k);
    }
}

proof fn lemma_no_soaked(states: Seq<SoakedState>, state: u16, from: int)
    requires
        0 <= from,
        forall|j: int| from <= j < states.len() ==> (#[trigger] states[j]).dry != state,
    ensures
        soaked(states, state, from) is None,
    decreases states.len() - from,
{
    if from < states.len() {
        lemma_no_soaked(states, state, from + 1);
    }
}

/// The only liquid of a sketched world is its water, and where nothing was set it is its ground.
pub proof fn law_only_water_is_liquid<'a>(chunk: SketchedChunk<'a>, state: u16, pos: BlockPos)
    ensures
        chunk.liquid(state) <==> state == chunk.water(),
        chunk.placed is Bare ==> chunk.state_at(pos) == chunk.ground.state_at(pos),
        chunk.with_block(pos, state).state_at(pos) == state,
{
}

} // verus!
