//! Processors: what changes a template's blocks on their way into the world.

use super::geometry::{fits, BlockMirror, BlockPos, BlockRotation};
use crate::random::{Chance, RandomSource};
use crate::registry::{from_name, id_with_key, plain_key, Entry};
use crate::text::{str_eq, strip_prefix, without_prefix};
use vstd::prelude::*;
use vstd::slice::slice_to_vec;

verus! {

/// A block state as it stands in each turn of a template, where the game knows it.
#[derive(Clone, Copy, Debug, PartialEq, Eq, Structural)]
pub struct TurnedStates {
    pub unturned: Option<u16>,
    pub clockwise_90: Option<u16>,
    pub rotate_180: Option<u16>,
    pub counter_clockwise_90: Option<u16>,
}

impl TurnedStates {
    /// The state in a turn.
    pub open spec fn in_turn(self, rotation: BlockRotation) -> Option<u16> {
        match rotation {
            BlockRotation::Unturned => self.unturned,
            BlockRotation::Clockwise90 => self.clockwise_90,
            BlockRotation::Rotate180 => self.rotate_180,
            BlockRotation::CounterClockwise90 => self.counter_clockwise_90,
        }
    }

    /// The state in a turn.
    pub fn resolve(&self, rotation: BlockRotation) -> (r: Option<u16>)
        ensures
            r == self.in_turn(rotation),
    {
        match rotation {
            BlockRotation::Unturned => self.unturned,
            BlockRotation::Clockwise90 => self.clockwise_90,
            BlockRotation::Rotate180 => self.rotate_180,
            BlockRotation::CounterClockwise90 => self.counter_clockwise_90,
        }
    }
}

/// A block state as it stands in each reflection and turn of a template.
#[derive(Clone, Copy, Debug, PartialEq, Eq, Structural)]
pub struct OrientedStates {
    pub unmirrored: TurnedStates,
    pub left_right: TurnedStates,
    pub front_back: TurnedStates,
}

impl OrientedStates {
    /// The state in a turn of a reflection.
    pub open spec fn oriented(self, rotation: BlockRotation, mirror: BlockMirror) -> Option<u16> {
        match mirror {
            BlockMirror::Unmirrored => self.unmirrored.in_turn(rotation),
            BlockMirror::LeftRight => self.left_right.in_turn(rotation),
            BlockMirror::FrontBack => self.front_back.in_turn(rotation),
        }
    }

    /// The state in a turn of a reflection.
    pub fn resolve(&self, rotation: BlockRotation, mirror: BlockMirror) -> (r: Option<u16>)
        ensures
            r == self.oriented(rotation, mirror),
    {
        match mirror {
            BlockMirror::Unmirrored => self.unmirrored.resolve(rotation),
            BlockMirror::LeftRight => self.left_right.resolve(rotation),
            BlockMirror::FrontBack => self.front_back.resolve(rotation),
        }
    }
}

/// What counts as the ground.
#[derive(Clone, Copy, Debug, PartialEq, Eq, Structural)]
pub enum HeightMap {
    WorldSurfaceWg,
    WorldSurface,
    OceanFloorWg,
    OceanFloor,
    MotionBlocking,
    MotionBlockingNoLeaves,
}

/// The world that a template is placed in, as it is before that.
pub trait Terrain {
    /// Where the draws for a position come from.
    type Random: RandomSource;

    /// The state at a position.
    spec fn state_at(&self, pos: BlockPos) -> u16;

    /// The block that a state is one of.
    spec fn block_of(&self, state: u16) -> u16;

    /// The height of the ground.
    spec fn top_y(&self, heightmap: HeightMap, x: i32, z: i32) -> i16;

    /// The source of the draws for a position.
    spec fn random_at(&self, pos: BlockPos) -> Self::Random;

    fn get_block_state(&self, pos: BlockPos) -> (r: u16)
        ensures
            r == self.state_at(pos),
    ;

    fn to_block_id(&self, state: u16) -> (r: u16)
        ensures
            r == self.block_of(state),
    ;

    fn get_top_y(&self, heightmap: HeightMap, x: i32, z: i32) -> (r: i16)
        ensures
            r == self.top_y(heightmap, x, z),
    ;

    fn position_random(&self, pos: BlockPos) -> (r: Self::Random)
        ensures
            r == self.random_at(pos),
    ;
}

/// A state at one position of a sketched world.
#[derive(Clone, Copy, Debug, PartialEq, Eq, Structural)]
pub struct SketchedBlock {
    pub pos: BlockPos,
    pub state: u16,
}

/// A world that is sketched with a few blocks: everywhere else is one state, the ground is
/// level, every state is its own block, and the same draws are made at every position.
pub struct SketchedTerrain<'a> {
    pub filling: u16,
    pub blocks: &'a [SketchedBlock],
    pub ground: i16,
    pub draws: &'a [u32],
}

/// The state of the first of some sketched blocks at a position.
pub open spec fn sketched_state(blocks: Seq<SketchedBlock>, pos: BlockPos, from: int, filling: u16) -> u16
    decreases blocks.len() - from,
{
    if from < 0 || from >= blocks.len() {
        filling
    } else if blocks[from].pos == pos {
        blocks[from].state
    } else {
        sketched_state(blocks, pos, from + 1, filling)
    }
}

impl<'a> Terrain for SketchedTerrain<'a> {
    type Random = crate::random::ListedDraws<'a>;

    open spec fn state_at(&self, pos: BlockPos) -> u16 {
        sketched_state(self.blocks@, pos, 0, self.filling)
    }

    open spec fn block_of(&self, state: u16) -> u16 {
        state
    }

    open spec fn top_y(&self, heightmap: HeightMap, x: i32, z: i32) -> i16 {
        self.ground
    }

    open spec fn random_at(&self, pos: BlockPos) -> crate::random::ListedDraws<'a> {
        crate::random::ListedDraws { numbers: self.draws, next: 0 }
    }

    fn get_block_state(&self, pos: BlockPos) -> (r: u16) {
        let mut i: usize = 0;
        while i < self.blocks.len()
            invariant
                i <= self.blocks@.len(),
                self.state_at(pos) == sketched_state(self.blocks@, pos, i as int, self.filling),
            decreases self.blocks.len() - i,
        {
            if self.blocks[i].pos == pos {
                return self.blocks[i].state;
            }
            i = i + 1;
        }
        self.filling
    }

    fn to_block_id(&self, state: u16) -> (r: u16) {
        state
    }

    fn get_top_y(&self, heightmap: HeightMap, x: i32, z: i32) -> (r: i16) {
        self.ground
    }

    fn position_random(&self, pos: BlockPos) -> (r: crate::random::ListedDraws<'a>) {
        crate::random::ListedDraws::new(self.draws)
    }
}

/// Blocks that belong together.
#[derive(Debug)]
pub struct BlockTag(pub Vec<u16>);

impl BlockTag {
    /// Whether a block belongs to the tag.
    pub fn contains(&self, block: u16) -> (r: bool)
        ensures
            r == self.0@.contains(block),
    {
        let mut i: usize = 0;
        while i < self.0.len()
            invariant
                i <= self.0@.len(),
                forall|k: int| 0 <= k < i ==> self.0@[k] != block,
            decreases self.0.len() - i,
        {
            if self.0[i] == block {
                assert(self.0@.contains(block));
                return true;
            }
            i = i + 1;
        }
        false
    }
}

/// A test of a block.
#[derive(Debug)]
pub enum RulePredicate {
    AlwaysTrue,
    Block(u16),
    BlockState(OrientedStates),
    RandomBlock { block: u16, probability: Chance },
    Tag(BlockTag),
}

/// What a test is.
pub enum PredicateModel {
    AlwaysTrue,
    Block(u16),
    BlockState(OrientedStates),
    RandomBlock { block: u16, probability: Chance },
    Tag(Seq<u16>),
}

impl View for RulePredicate {
    type V = PredicateModel;

    open spec fn view(&self) -> PredicateModel {
        match self {
            RulePredicate::AlwaysTrue => PredicateModel::AlwaysTrue,
            RulePredicate::Block(block) => PredicateModel::Block(*block),
            RulePredicate::BlockState(states) => PredicateModel::BlockState(*states),
            RulePredicate::RandomBlock { block, probability } => PredicateModel::RandomBlock {
                block: *block,
                probability: *probability,
            },
            RulePredicate::Tag(tag) => PredicateModel::Tag(tag.0@),
        }
    }
}

/// Whether a state passes a test, and the source behind the draw that this may take.
pub open spec fn passes<T: Terrain>(
    predicate: PredicateModel,
    terrain: &T,
    state: u16,
    rotation: BlockRotation,
    mirror: BlockMirror,
    rng: T::Random,
) -> (bool, T::Random) {
    let block = terrain.block_of(state);
    match predicate {
        PredicateModel::AlwaysTrue => (true, rng),
        PredicateModel::Block(expected) => (block == expected, rng),
        PredicateModel::BlockState(states) => (
            states.oriented(rotation, mirror) == Some(state),
            rng,
        ),
        PredicateModel::RandomBlock { block: expected, probability } => if block == expected {
            (rng.unit() < probability, rng.after_unit())
        } else {
            (false, rng)
        },
        PredicateModel::Tag(blocks) => (blocks.contains(block), rng),
    }
}

impl RulePredicate {
    /// Whether a state passes the test.
    pub fn test<T: Terrain>(
        &self,
        terrain: &T,
        state: u16,
        random: &mut T::Random,
        rotation: BlockRotation,
        mirror: BlockMirror,
    ) -> (r: bool)
        ensures
            (r, *final(random)) == passes(
                self@,
                terrain,
                state,
                rotation,
                mirror,
                *old(random),
            ),
    {
        let block: u16 = terrain.to_block_id(state);
        match self {
            RulePredicate::AlwaysTrue => true,
            RulePredicate::Block(expected) => block == *expected,
            RulePredicate::BlockState(states) => match states.resolve(rotation, mirror) {
                Some(expected) => expected == state,
                None => false,
            },
            RulePredicate::RandomBlock { block: expected, probability } => block == *expected
                && random.next_unit() < *probability,
            RulePredicate::Tag(tag) => tag.contains(block),
        }
    }
}

/// A rule: a block that passes both tests becomes another.
#[derive(Debug)]
pub struct ProcessorRule {
    pub input_predicate: RulePredicate,
    pub location_predicate: RulePredicate,
    pub output_state: OrientedStates,
}

/// What a rule is.
pub struct RuleModel {
    pub input: PredicateModel,
    pub location: PredicateModel,
    pub output: OrientedStates,
}

impl View for ProcessorRule {
    type V = RuleModel;

    open spec fn view(&self) -> RuleModel {
        RuleModel {
            input: self.input_predicate@,
            location: self.location_predicate@,
            output: self.output_state,
        }
    }
}

/// A step of processing.
#[derive(Debug)]
pub enum StructureProcessor {
    /// Of the blocks of a tag, those stay whose draw succeeds. As many draws succeed as are
    /// at most the integrity.
    BlockRot { integrity: Chance, blocks: BlockTag },
    Gravity { heightmap: HeightMap, offset: i32 },
    Rules(Vec<ProcessorRule>),
    ProtectedBlocks(BlockTag),
}

/// What a step is.
pub enum ProcessorModel {
    BlockRot { integrity: Chance, blocks: Seq<u16> },
    Gravity { heightmap: HeightMap, offset: i32 },
    Rules(Seq<RuleModel>),
    ProtectedBlocks(Seq<u16>),
}

/// What rules are.
pub open spec fn rule_models(rules: Seq<ProcessorRule>) -> Seq<RuleModel> {
    rules.map_values(|r: ProcessorRule| r@)
}

impl View for StructureProcessor {
    type V = ProcessorModel;

    open spec fn view(&self) -> ProcessorModel {
        match self {
            StructureProcessor::BlockRot { integrity, blocks } => ProcessorModel::BlockRot {
                integrity: *integrity,
                blocks: blocks.0@,
            },
            StructureProcessor::Gravity { heightmap, offset } => ProcessorModel::Gravity {
                heightmap: *heightmap,
                offset: *offset,
            },
            StructureProcessor::Rules(rules) => ProcessorModel::Rules(rule_models(rules@)),
            StructureProcessor::ProtectedBlocks(tag) => ProcessorModel::ProtectedBlocks(tag.0@),
        }
    }
}

/// What processors are.
pub open spec fn processor_models(processors: Seq<StructureProcessor>) -> Seq<ProcessorModel> {
    processors.map_values(|p: StructureProcessor| p@)
}

impl BlockTag {
    fn copy(&self) -> (r: Self)
        ensures
            r.0@ == self.0@,
    {
        BlockTag(slice_to_vec(&self.0))
    }
}

impl RulePredicate {
    fn copy(&self) -> (r: Self)
        ensures
            r@ == self@,
    {
        match self {
            RulePredicate::AlwaysTrue => RulePredicate::AlwaysTrue,
            RulePredicate::Block(block) => RulePredicate::Block(*block),
            RulePredicate::BlockState(states) => RulePredicate::BlockState(*states),
            RulePredicate::RandomBlock { block, probability } => RulePredicate::RandomBlock {
                block: *block,
                probability: *probability,
            },
            RulePredicate::Tag(tag) => RulePredicate::Tag(tag.copy()),
        }
    }
}

impl ProcessorRule {
    fn copy(&self) -> (r: Self)
        ensures
            r@ == self@,
    {
        ProcessorRule {
            input_predicate: self.input_predicate.copy(),
            location_predicate: self.location_predicate.copy(),
            output_state: self.output_state,
        }
    }
}

fn copy_rules(rules: &Vec<ProcessorRule>) -> (r: Vec<ProcessorRule>)
    ensures
        rule_models(r@) == rule_models(rules@),
{
    let mut out: Vec<ProcessorRule> = Vec::new();
    let mut i: usize = 0;
    while i < rules.len()
        invariant
            i <= rules@.len(),
            out@.len() == i,
            forall|k: int| 0 <= k < i ==> (#[trigger] out@[k])@ == rules@[k]@,
        decreases rules.len() - i,
    {
        out.push(rules[i].copy());
        i = i + 1;
    }
    assert(rule_models(out@) =~= rule_models(rules@));
    out
}

impl StructureProcessor {
    fn copy(&self) -> (r: Self)
        ensures
            r@ == self@,
    {
        match self {
            StructureProcessor::BlockRot { integrity, blocks } => StructureProcessor::BlockRot {
                integrity: *integrity,
                blocks: blocks.copy(),
            },
            StructureProcessor::Gravity { heightmap, offset } => StructureProcessor::Gravity {
                heightmap: *heightmap,
                offset: *offset,
            },
            StructureProcessor::Rules(rules) => StructureProcessor::Rules(copy_rules(rules)),
            StructureProcessor::ProtectedBlocks(tag) => StructureProcessor::ProtectedBlocks(
                tag.copy(),
            ),
        }
    }
}

/// Adds copies of processors.
pub fn append_processors(out: &mut Vec<StructureProcessor>, processors: &Vec<StructureProcessor>)
    ensures
        processor_models(final(out)@) == processor_models(old(out)@) + processor_models(
            processors@,
        ),
{
    let ghost front = out@;
    let mut i: usize = 0;
    while i < processors.len()
        invariant
            i <= processors@.len(),
            out@.len() == front.len() + i,
            forall|k: int| 0 <= k < front.len() ==> out@[k] == front[k],
            forall|k: int|
                0 <= k < i ==> (#[trigger] out@[front.len() + k])@ == processors@[k]@,
        decreases processors.len() - i,
    {
        let ghost before = out@;
        out.push(processors[i].copy());
        assert forall|k: int| 0 <= k < i + 1 implies (#[trigger] out@[front.len() + k])@
            == processors@[k]@ by {
            if k < i {
                assert(before[front.len() + k]@ == processors@[k]@);
            }
        }
        i = i + 1;
    }
    let ghost all = processor_models(front) + processor_models(processors@);
    assert forall|k: int| 0 <= k < all.len() implies processor_models(out@)[k] == #[trigger] all[k] by {
        if k >= front.len() {
            let j = k - front.len();
            assert(out@[front.len() + j]@ == processors@[j]@);
        }
    }
    assert(processor_models(out@) =~= all);
}

/// The state that rules turn another into, from the `from`th rule on: the first that both
/// the state and the one at its place pass decides. The draws of all rules come from one
/// source.
pub open spec fn ruled<T: Terrain>(
    rules: Seq<RuleModel>,
    from: nat,
    terrain: &T,
    pos: BlockPos,
    state: u16,
    rotation: BlockRotation,
    mirror: BlockMirror,
    rng: T::Random,
) -> u16
    decreases rules.len() - from,
{
    if from >= rules.len() {
        state
    } else {
        let rule = rules[from as int];
        let (input, r1) = passes(rule.input, terrain, state, rotation, mirror, rng);
        if !input {
            ruled(rules, from + 1, terrain, pos, state, rotation, mirror, r1)
        } else {
            let (location, r2) = passes(
                rule.location,
                terrain,
                terrain.state_at(pos),
                BlockRotation::Unturned,
                BlockMirror::Unmirrored,
                r1,
            );
            if !location {
                ruled(rules, from + 1, terrain, pos, state, rotation, mirror, r2)
            } else {
                match rule.output.oriented(rotation, mirror) {
                    Some(output) => output,
                    None => state,
                }
            }
        }
    }
}

/// The height that a block falls to.
pub open spec fn fallen_y<T: Terrain>(
    terrain: &T,
    heightmap: HeightMap,
    offset: i32,
    template_y: i32,
    x: i32,
    z: i32,
) -> int {
    terrain.top_y(heightmap, x, z) + offset + template_y
}

/// Where a step puts a block, and as what: some blocks it leaves out.
pub open spec fn processed<T: Terrain>(
    processor: ProcessorModel,
    terrain: &T,
    template_y: i32,
    pos: BlockPos,
    state: u16,
    rotation: BlockRotation,
    mirror: BlockMirror,
) -> Option<(BlockPos, u16)> {
    match processor {
        ProcessorModel::BlockRot { integrity, blocks } => if blocks.contains(
            terrain.block_of(state),
        ) && !(terrain.random_at(pos).unit() < integrity) {
            None
        } else {
            Some((pos, state))
        },
        ProcessorModel::Gravity { heightmap, offset } => Some(
            (
                BlockPos {
                    x: pos.x,
                    y: fallen_y(terrain, heightmap, offset, template_y, pos.x, pos.z) as i32,
                    z: pos.z,
                },
                state,
            ),
        ),
        ProcessorModel::Rules(rules) => Some(
            (
                pos,
                ruled(rules, 0, terrain, pos, state, rotation, mirror, terrain.random_at(pos)),
            ),
        ),
        ProcessorModel::ProtectedBlocks(blocks) => if blocks.contains(
            terrain.block_of(terrain.state_at(pos)),
        ) {
            None
        } else {
            Some((pos, state))
        },
    }
}

/// Whether every height that a step can give a block of a template is a coordinate.
pub open spec fn heights_fit(processor: ProcessorModel, template_y: i32) -> bool {
    match processor {
        ProcessorModel::Gravity { offset, .. } => {
            &&& fits(i16::MIN + offset)
            &&& fits(i16::MAX + offset)
            &&& fits(i16::MIN + offset + template_y)
            &&& fits(i16::MAX + offset + template_y)
        },
        _ => true,
    }
}

impl StructureProcessor {
    /// A step that lets blocks fall to the ground.
    pub fn gravity(heightmap: HeightMap, offset: i32) -> (r: Self)
        ensures
            r == (StructureProcessor::Gravity { heightmap, offset }),
    {
        StructureProcessor::Gravity { heightmap, offset }
    }

    /// Processes one block.
    pub fn process<T: Terrain>(
        &self,
        terrain: &T,
        template_pos: BlockPos,
        pos: BlockPos,
        state: u16,
        rotation: BlockRotation,
        mirror: BlockMirror,
    ) -> (r: Option<(BlockPos, u16)>)
        requires
            heights_fit(self@, template_pos.y),
        ensures
            r == processed(self@, terrain, template_pos.y, pos, state, rotation, mirror),
    {
        match self {
            StructureProcessor::BlockRot { integrity, blocks } => {
                if !blocks.contains(terrain.to_block_id(state)) {
                    return Some((pos, state));
                }
                let mut random = terrain.position_random(pos);
                if random.next_unit() < *integrity {
                    Some((pos, state))
                } else {
                    None
                }
            },
            StructureProcessor::Gravity { heightmap, offset } => {
                let y: i32 = terrain.get_top_y(*heightmap, pos.x, pos.z) as i32 + *offset
                    + template_pos.y;
                Some((BlockPos::new(pos.x, y, pos.z), state))
            },
            StructureProcessor::Rules(rules) => {
                let mut random = terrain.position_random(pos);
                let location: u16 = terrain.get_block_state(pos);
                let mut i: usize = 0;
                while i < rules.len()
                    invariant
                        i <= rules@.len(),
                        location == terrain.state_at(pos),
                        ruled(
                            rule_models(rules@),
                            0,
                            terrain,
                            pos,
                            state,
                            rotation,
                            mirror,
                            terrain.random_at(pos),
                        ) == ruled(
                            rule_models(rules@),
                            i as nat,
                            terrain,
                            pos,
                            state,
                            rotation,
                            mirror,
                            random,
                        ),
                        self@ == ProcessorModel::Rules(rule_models(rules@)),
                    decreases rules.len() - i,
                {
                    let rule = &rules[i];
                    assert(rule_models(rules@)[i as int] == rule@);
                    if rule.input_predicate.test(terrain, state, &mut random, rotation, mirror)
                        && rule.location_predicate.test(
                        terrain,
                        location,
                        &mut random,
                        BlockRotation::Unturned,
                        BlockMirror::Unmirrored,
                    ) {
                        return Some(
                            (
                                pos,
                                match rule.output_state.resolve(rotation, mirror) {
                                    Some(output) => output,
                                    None => state,
                                },
                            ),
                        );
                    }
                    i = i + 1;
                }
                Some((pos, state))
            },
            StructureProcessor::ProtectedBlocks(blocks) => {
                let existing: u16 = terrain.to_block_id(terrain.get_block_state(pos));
                if blocks.contains(existing) {
                    None
                } else {
                    Some((pos, state))
                }
            },
        }
    }
}

/// A test as processor files hold it. States that the game does not know are none.
#[derive(Debug)]
pub enum RawRulePredicate {
    AlwaysTrue,
    Block { block: String },
    BlockState { block_state: Option<OrientedStates> },
    RandomBlock { block: String, probability: Chance },
    Tag { tag: String },
}

/// A rule as processor files hold it.
#[derive(Debug)]
pub struct RawRule {
    pub input_predicate: RawRulePredicate,
    pub location_predicate: RawRulePredicate,
    pub output_state: Option<OrientedStates>,
}

/// A step as processor files hold it.
#[derive(Debug)]
pub enum RawProcessor {
    BlockRot { integrity: Chance, rottable_blocks: String },
    Rule { rules: Vec<RawRule> },
    ProtectedBlocks { value: String },
}

/// Where a list of processors comes from.
#[derive(Debug)]
pub enum ProcessorSource {
    /// A processor file.
    Parsed(Vec<RawProcessor>),
    /// A processor file that cannot be read.
    Unreadable,
    /// No file at all.
    Missing,
}

/// The blocks of a tag by its name.
#[derive(Debug)]
pub struct TagEntry {
    pub name: String,
    pub blocks: Vec<u16>,
}

/// The blocks of the first tag with a name, looked up from the `from`th on.
pub open spec fn tagged(tags: Seq<TagEntry>, name: Seq<char>, from: int) -> Option<Seq<u16>>
    decreases tags.len() - from,
{
    if from < 0 || from >= tags.len() {
        None
    } else if tags[from].name@ == name {
        Some(tags[from].blocks@)
    } else {
        tagged(tags, name, from + 1)
    }
}

/// The blocks of the tag that a processor file names, with or without a leading `#`.
pub open spec fn tag_named(tags: Seq<TagEntry>, name: Seq<char>) -> Option<Seq<u16>> {
    tagged(tags, without_prefix(name, "#"@), 0)
}

impl BlockTag {
    /// Looks up a tag by its name, with or without a leading `#`.
    pub fn from_name(name: &str, tags: &Vec<TagEntry>) -> (r: Option<Self>)
        ensures
            match tag_named(tags@, name@) {
                Some(blocks) => r is Some && (r->0).0@ == blocks,
                None => r is None,
            },
    {
        let key = strip_prefix(name, "#");
        let mut i: usize = 0;
        while i < tags.len()
            invariant
                i <= tags@.len(),
                key@ == without_prefix(name@, "#"@),
                tag_named(tags@, name@) == tagged(tags@, key@, i as int),
            decreases tags.len() - i,
        {
            if str_eq(tags[i].name.as_str(), key.as_str()) {
                return Some(BlockTag(vstd::slice::slice_to_vec(&tags[i].blocks)));
            }
            i = i + 1;
        }
        None
    }
}

/// The test that a processor file's is: one on a block, a state or a tag that the game does
/// not know is none.
pub open spec fn predicate_of(
    raw: RawRulePredicate,
    blocks: Seq<Entry>,
    tags: Seq<TagEntry>,
) -> Option<PredicateModel> {
    match raw {
        RawRulePredicate::AlwaysTrue => Some(PredicateModel::AlwaysTrue),
        RawRulePredicate::Block { block } => match id_with_key(blocks, plain_key(block@), 0) {
            Some(id) => Some(PredicateModel::Block(id)),
            None => None,
        },
        RawRulePredicate::BlockState { block_state } => match block_state {
            Some(states) => Some(PredicateModel::BlockState(states)),
            None => None,
        },
        RawRulePredicate::RandomBlock { block, probability } => match id_with_key(
            blocks,
            plain_key(block@),
            0,
        ) {
            Some(id) => Some(PredicateModel::RandomBlock { block: id, probability }),
            None => None,
        },
        RawRulePredicate::Tag { tag } => match tag_named(tags, tag@) {
            Some(ids) => Some(PredicateModel::Tag(ids)),
            None => None,
        },
    }
}

impl RawRulePredicate {
    /// Turns a processor file's test into one that can be made.
    pub fn into_predicate(&self, blocks: &Vec<Entry>, tags: &Vec<TagEntry>) -> (r: Option<
        RulePredicate,
    >)
        ensures
            match predicate_of(*self, blocks@, tags@) {
                Some(predicate) => r is Some && r->0@ == predicate,
                None => r is None,
            },
    {
        match self {
            RawRulePredicate::AlwaysTrue => Some(RulePredicate::AlwaysTrue),
            RawRulePredicate::Block { block } => match from_name(blocks, block.as_str()) {
                Some(id) => Some(RulePredicate::Block(id)),
                None => None,
            },
            RawRulePredicate::BlockState { block_state } => match block_state {
                Some(states) => Some(RulePredicate::BlockState(*states)),
                None => None,
            },
            RawRulePredicate::RandomBlock { block, probability } => match from_name(
                blocks,
                block.as_str(),
            ) {
                Some(id) => Some(
                    RulePredicate::RandomBlock { block: id, probability: *probability },
                ),
                None => None,
            },
            RawRulePredicate::Tag { tag } => match BlockTag::from_name(tag.as_str(), tags) {
                Some(tag) => Some(RulePredicate::Tag(tag)),
                None => None,
            },
        }
    }
}

/// The rule that a processor file's is: one with a part that the game does not know is
/// none.
pub open spec fn rule_of(raw: RawRule, blocks: Seq<Entry>, tags: Seq<TagEntry>) -> Option<
    RuleModel,
> {
    match (
        raw.output_state,
        predicate_of(raw.input_predicate, blocks, tags),
        predicate_of(raw.location_predicate, blocks, tags),
    ) {
        (Some(output), Some(input), Some(location)) => Some(RuleModel { input, location, output }),
        _ => None,
    }
}

impl ProcessorRule {
    /// Turns a processor file's rule into one that can be followed.
    pub fn from_raw(raw: &RawRule, blocks: &Vec<Entry>, tags: &Vec<TagEntry>) -> (r: Option<Self>)
        ensures
            match rule_of(*raw, blocks@, tags@) {
                Some(rule) => r is Some && r->0@ == rule,
                None => r is None,
            },
    {
        match raw.output_state {
            None => None,
            Some(output_state) => match raw.input_predicate.into_predicate(blocks, tags) {
                None => None,
                Some(input_predicate) => match raw.location_predicate.into_predicate(
                    blocks,
                    tags,
                ) {
                    None => None,
                    Some(location_predicate) => Some(
                        ProcessorRule { input_predicate, location_predicate, output_state },
                    ),
                },
            },
        }
    }
}

/// The rules that the first `n` of a processor file are.
pub open spec fn rules_of(
    raws: Seq<RawRule>,
    n: nat,
    blocks: Seq<Entry>,
    tags: Seq<TagEntry>,
) -> Seq<RuleModel>
    decreases n,
{
    if n == 0 {
        Seq::empty()
    } else {
        let before = rules_of(raws, (n - 1) as nat, blocks, tags);
        match rule_of(raws[n - 1], blocks, tags) {
            Some(rule) => before.push(rule),
            None => before,
        }
    }
}

/// The step that a processor file's is: one on a tag that the game does not know is none.
pub open spec fn processor_of(raw: RawProcessor, blocks: Seq<Entry>, tags: Seq<TagEntry>) -> Option<
    ProcessorModel,
> {
    match raw {
        RawProcessor::BlockRot { integrity, rottable_blocks } => match tag_named(
            tags,
            rottable_blocks@,
        ) {
            Some(ids) => Some(ProcessorModel::BlockRot { integrity, blocks: ids }),
            None => None,
        },
        RawProcessor::Rule { rules } => Some(
            ProcessorModel::Rules(rules_of(rules@, rules@.len(), blocks, tags)),
        ),
        RawProcessor::ProtectedBlocks { value } => match tag_named(tags, value@) {
            Some(ids) => Some(ProcessorModel::ProtectedBlocks(ids)),
            None => None,
        },
    }
}

/// The steps that the first `n` of a processor file are.
pub open spec fn processors_of(
    raws: Seq<RawProcessor>,
    n: nat,
    blocks: Seq<Entry>,
    tags: Seq<TagEntry>,
) -> Seq<ProcessorModel>
    decreases n,
{
    if n == 0 {
        Seq::empty()
    } else {
        let before = processors_of(raws, (n - 1) as nat, blocks, tags);
        match processor_of(raws[n - 1], blocks, tags) {
            Some(processor) => before.push(processor),
            None => before,
        }
    }
}

fn load_rules(raws: &Vec<RawRule>, blocks: &Vec<Entry>, tags: &Vec<TagEntry>) -> (r: Vec<
    ProcessorRule,
>)
    ensures
        rule_models(r@) == rules_of(raws@, raws@.len(), blocks@, tags@),
{
    let mut rules: Vec<ProcessorRule> = Vec::new();
    let mut i: usize = 0;
    assert(rule_models(rules@) =~= Seq::<RuleModel>::empty());
    while i < raws.len()
        invariant
            i <= raws@.len(),
            rule_models(rules@) == rules_of(raws@, i as nat, blocks@, tags@),
        decreases raws.len() - i,
    {
        let ghost before = rules@;
        if let Some(rule) = ProcessorRule::from_raw(&raws[i], blocks, tags) {
            rules.push(rule);
            assert(rule_models(rules@) =~= rule_models(before).push(rule@));
        }
        i = i + 1;
    }
    rules
}

fn load_processor(raw: &RawProcessor, blocks: &Vec<Entry>, tags: &Vec<TagEntry>) -> (r: Option<
    StructureProcessor,
>)
    ensures
        match processor_of(*raw, blocks@, tags@) {
            Some(processor) => r is Some && r->0@ == processor,
            None => r is None,
        },
{
    match raw {
        RawProcessor::BlockRot { integrity, rottable_blocks } => match BlockTag::from_name(
            rottable_blocks.as_str(),
            tags,
        ) {
            Some(tag) => Some(
                StructureProcessor::BlockRot { integrity: *integrity, blocks: tag },
            ),
            None => None,
        },
        RawProcessor::Rule { rules } => Some(
            StructureProcessor::Rules(load_rules(rules, blocks, tags)),
        ),
        RawProcessor::ProtectedBlocks { value } => match BlockTag::from_name(value.as_str(), tags) {
            Some(tag) => Some(StructureProcessor::ProtectedBlocks(tag)),
            None => None,
        },
    }
}

/// Makes a list of processors: without a file that can be read it is empty, and steps and
/// rules with parts that the game does not know are left out.
pub fn load_processor_list(
    source: &ProcessorSource,
    blocks: &Vec<Entry>,
    tags: &Vec<TagEntry>,
) -> (r: Vec<StructureProcessor>)
    ensures
        processor_models(r@) == match *source {
            ProcessorSource::Parsed(raws) => processors_of(
                raws@,
                raws@.len(),
                blocks@,
                tags@,
            ),
            _ => Seq::empty(),
        },
{
    let mut processors: Vec<StructureProcessor> = Vec::new();
    assert(processor_models(processors@) =~= Seq::<ProcessorModel>::empty());
    match source {
        ProcessorSource::Unreadable => {},
        ProcessorSource::Missing => {},
        ProcessorSource::Parsed(raws) => {
            let mut i: usize = 0;
            while i < raws.len()
                invariant
                    i <= raws@.len(),
                    processor_models(processors@) == processors_of(
                        raws@,
                        i as nat,
                        blocks@,
                        tags@,
                    ),
                decreases raws.len() - i,
            {
                let ghost before = processors@;
                if let Some(processor) = load_processor(&raws[i], blocks, tags) {
                    processors.push(processor);
                    assert(processor_models(processors@) =~= processor_models(before).push(
                        processor@,
                    ));
                }
                i = i + 1;
            }
        },
    }
    processors
}

/// A state is taken from the turn and the reflection that a template has: each of the twelve
/// has a state of its own.
pub proof fn law_states_have_their_own_orientation(states: OrientedStates)
    ensures
        states.oriented(BlockRotation::Unturned, BlockMirror::Unmirrored)
            == states.unmirrored.unturned,
        states.oriented(BlockRotation::Clockwise90, BlockMirror::Unmirrored)
            == states.unmirrored.clockwise_90,
        states.oriented(BlockRotation::Rotate180, BlockMirror::Unmirrored)
            == states.unmirrored.rotate_180,
        states.oriented(BlockRotation::CounterClockwise90, BlockMirror::Unmirrored)
            == states.unmirrored.counter_clockwise_90,
        states.oriented(BlockRotation::Unturned, BlockMirror::LeftRight)
            == states.left_right.unturned,
        states.oriented(BlockRotation::Clockwise90, BlockMirror::LeftRight)
            == states.left_right.clockwise_90,
        states.oriented(BlockRotation::Rotate180, BlockMirror::LeftRight)
            == states.left_right.rotate_180,
        states.oriented(BlockRotation::CounterClockwise90, BlockMirror::LeftRight)
            == states.left_right.counter_clockwise_90,
        states.oriented(BlockRotation::Unturned, BlockMirror::FrontBack)
            == states.front_back.unturned,
        states.oriented(BlockRotation::Clockwise90, BlockMirror::FrontBack)
            == states.front_back.clockwise_90,
        states.oriented(BlockRotation::Rotate180, BlockMirror::FrontBack)
            == states.front_back.rotate_180,
        states.oriented(BlockRotation::CounterClockwise90, BlockMirror::FrontBack)
            == states.front_back.counter_clockwise_90,
{
}

/// A test on a block asks which block it is, one on a state asks for the state as the template
/// is turned, one on a tag asks whether the block is in it; a test by chance draws only for the
/// right block, and only then.
pub proof fn law_tests_ask_what_they_say<T: Terrain>(
    terrain: &T,
    state: u16,
    rotation: BlockRotation,
    mirror: BlockMirror,
    rng: T::Random,
    expected: u16,
    states: OrientedStates,
    blocks: Seq<u16>,
    probability: Chance,
)
    ensures
        ({
            let block = terrain.block_of(state);
            let chance = passes(
                PredicateModel::RandomBlock { block: expected, probability },
                terrain,
                state,
                rotation,
                mirror,
                rng,
            );
            let by_block = passes(
                PredicateModel::Block(expected),
                terrain,
                state,
                rotation,
                mirror,
                rng,
            );
            let by_state = passes(
                PredicateModel::BlockState(states),
                terrain,
                state,
                rotation,
                mirror,
                rng,
            );
            let by_tag = passes(PredicateModel::Tag(blocks), terrain, state, rotation, mirror, rng);
            let always = passes(PredicateModel::AlwaysTrue, terrain, state, rotation, mirror, rng);
            &&& always == (true, rng)
            &&& by_block.1 == rng && by_state.1 == rng && by_tag.1 == rng
            &&& by_block.0 <==> block == expected
            &&& by_state.0 <==> states.oriented(rotation, mirror) == Some(state)
            &&& by_tag.0 <==> blocks.contains(block)
            &&& chance.0 ==> by_block.0
            &&& block == expected ==> (chance.0 <==> rng.unit() < probability) && chance.1
                == rng.after_unit()
            &&& block != expected ==> chance == (false, rng)
        }),
{
}

/// Whether none of some rules applies, as their draws fall from a source, and the source behind
/// those.
pub open spec fn none_applies<T: Terrain>(
    rules: Seq<RuleModel>,
    terrain: &T,
    pos: BlockPos,
    state: u16,
    rotation: BlockRotation,
    mirror: BlockMirror,
    rng: T::Random,
) -> (bool, T::Random)
    decreases rules.len(),
{
    if rules.len() == 0 {
        (true, rng)
    } else {
        let (before, r0) = none_applies(
            rules.drop_last(),
            terrain,
            pos,
            state,
            rotation,
            mirror,
            rng,
        );
        let (input, r1) = passes(rules.last().input, terrain, state, rotation, mirror, r0);
        let (location, r2) = passes(
            rules.last().location,
            terrain,
            terrain.state_at(pos),
            BlockRotation::Unturned,
            BlockMirror::Unmirrored,
            r1,
        );
        if input {
            (before && !location, r2)
        } else {
            (before, r1)
        }
    }
}

proof fn lemma_ruled_behind<T: Terrain>(
    rules: Seq<RuleModel>,
    k: nat,
    terrain: &T,
    pos: BlockPos,
    state: u16,
    rotation: BlockRotation,
    mirror: BlockMirror,
    rng: T::Random,
)
    requires
        k <= rules.len(),
        none_applies(rules.take(k as int), terrain, pos, state, rotation, mirror, rng).0,
    ensures
        ruled(rules, 0, terrain, pos, state, rotation, mirror, rng) == ruled(
            rules,
            k,
            terrain,
            pos,
            state,
            rotation,
            mirror,
            none_applies(rules.take(k as int), terrain, pos, state, rotation, mirror, rng).1,
        ),
    decreases k,
{
    if k > 0 {
        let j = (k - 1) as nat;
        assert(rules.take(k as int).drop_last() =~= rules.take(j as int));
        assert(rules.take(k as int).last() == rules[j as int]);
        lemma_ruled_behind(rules, j, terrain, pos, state, rotation, mirror, rng);
    }
}

/// The first rule that applies decides: its state comes out, in the turn and reflection of the
/// template, or the block stays where it has none there. Where no rule applies the block
/// stays. What stands at the place is tested as it stands, whatever way the template is turned.
pub proof fn law_the_first_rule_decides<T: Terrain>(
    rules: Seq<RuleModel>,
    k: int,
    terrain: &T,
    template_y: i32,
    pos: BlockPos,
    state: u16,
    rotation: BlockRotation,
    mirror: BlockMirror,
)
    requires
        0 <= k < rules.len(),
    ensures
        ({
            let rng = terrain.random_at(pos);
            let (none, r0) = none_applies(
                rules.take(k),
                terrain,
                pos,
                state,
                rotation,
                mirror,
                rng,
            );
            let (input, r1) = passes(rules[k].input, terrain, state, rotation, mirror, r0);
            let location = passes(
                rules[k].location,
                terrain,
                terrain.state_at(pos),
                BlockRotation::Unturned,
                BlockMirror::Unmirrored,
                r1,
            ).0;
            let done = processed(
                ProcessorModel::Rules(rules),
                terrain,
                template_y,
                pos,
                state,
                rotation,
                mirror,
            );
            &&& none && input && location ==> done == Some(
                (
                    pos,
                    match rules[k].output.oriented(rotation, mirror) {
                        Some(output) => output,
                        None => state,
                    },
                ),
            )
            &&& none_applies(rules, terrain, pos, state, rotation, mirror, rng).0 ==> done == Some(
                (pos, state),
            )
        }),
{
    let rng = terrain.random_at(pos);
    if none_applies(rules.take(k), terrain, pos, state, rotation, mirror, rng).0 {
        lemma_ruled_behind(rules, k as nat, terrain, pos, state, rotation, mirror, rng);
    }
    assert(rules.take(rules.len() as int) =~= rules);
    if none_applies(rules, terrain, pos, state, rotation, mirror, rng).0 {
        lemma_ruled_behind(rules, rules.len(), terrain, pos, state, rotation, mirror, rng);
    }
}

/// Rot leaves out a block of its tag whose draw reaches the integrity, and no other; protection
/// leaves out what would stand in place of a block of its tag, and nothing else. Neither
/// moves or changes a block.
pub proof fn law_blocks_are_left_out_by_rot_and_protection<T: Terrain>(
    blocks: Seq<u16>,
    integrity: Chance,
    terrain: &T,
    template_y: i32,
    pos: BlockPos,
    state: u16,
    rotation: BlockRotation,
    mirror: BlockMirror,
)
    ensures
        ({
            let rotted = processed(
                ProcessorModel::BlockRot { integrity, blocks },
                terrain,
                template_y,
                pos,
                state,
                rotation,
                mirror,
            );
            let protected = processed(
                ProcessorModel::ProtectedBlocks(blocks),
                terrain,
                template_y,
                pos,
                state,
                rotation,
                mirror,
            );
            &&& rotted is None <==> blocks.contains(terrain.block_of(state)) && terrain.random_at(
                pos,
            ).unit() >= integrity
            &&& protected is None <==> blocks.contains(terrain.block_of(terrain.state_at(pos)))
            &&& rotted matches Some(kept) ==> kept == (pos, state)
            &&& protected matches Some(kept) ==> kept == (pos, state)
        }),
{
}

/// Gravity moves blocks straight down or up, as what they are: two blocks of a column keep
/// their distance, and the lowest layer of a template comes to lie on the ground, raised by the
/// offset.
pub proof fn law_falling_blocks_keep_their_distance<T: Terrain>(
    heightmap: HeightMap,
    offset: i32,
    terrain: &T,
    a_y: i32,
    a: BlockPos,
    b_y: i32,
    b: BlockPos,
    state: u16,
    rotation: BlockRotation,
    mirror: BlockMirror,
)
    requires
        heights_fit(ProcessorModel::Gravity { heightmap, offset }, a_y),
        heights_fit(ProcessorModel::Gravity { heightmap, offset }, b_y),
        a.x == b.x && a.z == b.z,
    ensures
        ({
            let gravity = ProcessorModel::Gravity { heightmap, offset };
            let fallen_a = processed(gravity, terrain, a_y, a, state, rotation, mirror);
            let fallen_b = processed(gravity, terrain, b_y, b, state, rotation, mirror);
            &&& fallen_a is Some && fallen_b is Some
            &&& (fallen_a->0).1 == state
            &&& (fallen_a->0).0.x == a.x && (fallen_a->0).0.z == a.z
            &&& (fallen_a->0).0.y - (fallen_b->0).0.y == a_y - b_y
            &&& a_y == 0 ==> (fallen_a->0).0.y == terrain.top_y(heightmap, a.x, a.z) + offset
        }),
{
}

/// The first tag of a name is meant, and a leading number sign is no part of the name.
pub proof fn law_tags_are_found_by_name(tags: Seq<TagEntry>, name: Seq<char>, k: int)
    requires
        0 <= k < tags.len(),
    ensures
        tags[k].name@ == name && (forall|j: int|
            0 <= j < k ==> (#[trigger] tags[j]).name@ != name) ==> tagged(tags, name, 0) == Some(
            tags[k].blocks@,
        ),
        (forall|j: int| 0 <= j < tags.len() ==> (#[trigger] tags[j]).name@ != name) ==> tagged(
            tags,
            name,
            0,
        ) is None,
        tag_named(tags, "#"@ + name) == tagged(tags, name, 0),
        name.len() == 0 || name[0] != '#' ==> tag_named(tags, name) == tagged(tags, name, 0),
{
    reveal_strlit("#");
    let pre = "#"@;
    assert((pre + name).skip(1) =~= name);
    assert((pre + name).subrange(1, (pre + name).len() as int) =~= name);
    assert((pre + name).take(1) =~= pre);
    assert((pre + name).subrange(0, 1) =~= pre);
    if name.len() > 0 && name[0] != '#' {
        assert(name.take(1)[0] != pre[0]);
        assert(name.subrange(0, 1)[0] != pre[0]);
    }
    if tags[k].name@ == name && (forall|j: int|
        0 <= j < k ==> (#[trigger] tags[j]).name@ != name) {
        lemma_first_tag(tags, name, 0, k);
    }
    if forall|j: int| 0 <= j < tags.len() ==> (#[trigger] tags[j]).name@ != name {
        lemma_no_tag(tags, name, 0);
    }
}

proof fn lemma_first_tag(tags: Seq<TagEntry>, name: Seq<char>, from: int, k: int)
    requires
        0 <= from <= k < tags.len(),
        tags[k].name@ == name,
        forall|j: int| from <= j < k ==> (#[trigger] tags[j]).name@ != name,
    ensures
        tagged(tags, name, from) == Some(tags[k].blocks@),
    decreases k - from,
{
    if from < k {
        lemma_first_tag(tags, name, from + 1, k);
    }
}

proof fn lemma_no_tag(tags: Seq<TagEntry>, name: Seq<char>, from: int)
    requires
        0 <= from,
        forall|j: int| from <= j < tags.len() ==> (#[trigger] tags[j]).name@ != name,
    ensures
        tagged(tags, name, from) is None,
    decreases tags.len() - from,
{
    if from < tags.len() {
        lemma_no_tag(tags, name, from + 1);
    }
}

/// A rule keeps its parts apart: its first test is on the block, its second on the place, and a
/// rule lacks none of its parts.
pub proof fn law_rules_keep_their_parts(raw: RawRule, blocks: Seq<Entry>, tags: Seq<TagEntry>)
    ensures
        rule_of(raw, blocks, tags) is Some <==> raw.output_state is Some && predicate_of(
            raw.input_predicate,
            blocks,
            tags,
        ) is Some && predicate_of(raw.location_predicate, blocks, tags) is Some,
        rule_of(raw, blocks, tags) matches Some(rule) ==> {
            &&& Some(rule.input) == predicate_of(raw.input_predicate, blocks, tags)
            &&& Some(rule.location) == predicate_of(raw.location_predicate, blocks, tags)
            &&& Some(rule.output) == raw.output_state
        },
{
}

/// A test of a processor file stays the test that it is, on the block or tag of its name.
pub proof fn law_tests_keep_what_they_ask(
    raw: RawRulePredicate,
    blocks: Seq<Entry>,
    tags: Seq<TagEntry>,
)
    ensures
        match raw {
            RawRulePredicate::AlwaysTrue => predicate_of(raw, blocks, tags) == Some(
                PredicateModel::AlwaysTrue,
            ),
            RawRulePredicate::Block { block } => {
                let id = id_with_key(blocks, plain_key(block@), 0);
                &&& predicate_of(raw, blocks, tags) is Some <==> id is Some
                &&& id is Some ==> predicate_of(raw, blocks, tags) == Some(
                    PredicateModel::Block(id->0),
                )
            },
            RawRulePredicate::BlockState { block_state } => {
                &&& predicate_of(raw, blocks, tags) is Some <==> block_state is Some
                &&& block_state is Some ==> predicate_of(raw, blocks, tags) == Some(
                    PredicateModel::BlockState(block_state->0),
                )
            },
            RawRulePredicate::RandomBlock { block, probability } => {
                let id = id_with_key(blocks, plain_key(block@), 0);
                &&& predicate_of(raw, blocks, tags) is Some <==> id is Some
                &&& id is Some ==> predicate_of(raw, blocks, tags) == Some(
                    PredicateModel::RandomBlock { block: id->0, probability },
                )
            },
            RawRulePredicate::Tag { tag } => {
                let ids = tag_named(tags, tag@);
                &&& predicate_of(raw, blocks, tags) is Some <==> ids is Some
                &&& ids is Some ==> predicate_of(raw, blocks, tags) == Some(
                    PredicateModel::Tag(ids->0),
                )
            },
        },
{
}

/// The rules of two files one behind the other are those of the first and then those of the
/// second, and so are the steps: all that are known, in their order.
pub proof fn law_files_are_read_in_order(
    a: Seq<RawRule>,
    b: Seq<RawRule>,
    p: Seq<RawProcessor>,
    q: Seq<RawProcessor>,
    blocks: Seq<Entry>,
    tags: Seq<TagEntry>,
)
    ensures
        rules_of(a + b, (a + b).len(), blocks, tags) == rules_of(a, a.len(), blocks, tags)
            + rules_of(b, b.len(), blocks, tags),
        processors_of(p + q, (p + q).len(), blocks, tags) == processors_of(
            p,
            p.len(),
            blocks,
            tags,
        ) + processors_of(q, q.len(), blocks, tags),
        b.len() == 1 ==> rules_of(b, 1, blocks, tags) == match rule_of(b[0], blocks, tags) {
            Some(rule) => seq![rule],
            None => seq![],
        },
        q.len() == 1 ==> processors_of(q, 1, blocks, tags) == match processor_of(
            q[0],
            blocks,
            tags,
        ) {
            Some(processor) => seq![processor],
            None => seq![],
        },
{
    lemma_rules_in_order(a, b, b.len(), blocks, tags);
    lemma_steps_in_order(p, q, q.len(), blocks, tags);
    reveal_with_fuel(rules_of, 2);
    reveal_with_fuel(processors_of, 2);
}

proof fn lemma_rules_in_order(
    a: Seq<RawRule>,
    b: Seq<RawRule>,
    n: nat,
    blocks: Seq<Entry>,
    tags: Seq<TagEntry>,
)
    requires
        n <= b.len(),
    ensures
        rules_of(a + b, a.len() + n, blocks, tags) == rules_of(a, a.len(), blocks, tags)
            + rules_of(b, n, blocks, tags),
    decreases n,
{
    if n == 0 {
        lemma_rules_prefix(a, b, a.len(), blocks, tags);
        assert(rules_of(a, a.len(), blocks, tags) + rules_of(b, 0, blocks, tags) =~= rules_of(
            a,
            a.len(),
            blocks,
            tags,
        ));
    } else {
        lemma_rules_in_order(a, b, (n - 1) as nat, blocks, tags);
        assert((a + b)[a.len() + n - 1] == b[n - 1]);
        assert((a.len() + n - 1) as nat == a.len() + (n - 1) as nat);
        assert(rules_of(a + b, a.len() + n, blocks, tags) =~= rules_of(a, a.len(), blocks, tags)
            + rules_of(b, n, blocks, tags));
    }
}

proof fn lemma_rules_prefix(
    a: Seq<RawRule>,
    b: Seq<RawRule>,
    n: nat,
    blocks: Seq<Entry>,
    tags: Seq<TagEntry>,
)
    requires
        n <= a.len(),
    ensures
        rules_of(a + b, n, blocks, tags) == rules_of(a, n, blocks, tags),
    decreases n,
{
    if n > 0 {
        lemma_rules_prefix(a, b, (n - 1) as nat, blocks, tags);
    }
}

proof fn lemma_steps_in_order(
    a: Seq<RawProcessor>,
    b: Seq<RawProcessor>,
    n: nat,
    blocks: Seq<Entry>,
    tags: Seq<TagEntry>,
)
    requires
        n <= b.len(),
    ensures
        processors_of(a + b, a.len() + n, blocks, tags) == processors_of(a, a.len(), blocks, tags)
            + processors_of(b, n, blocks, tags),
    decreases n,
{
    if n == 0 {
        lemma_steps_prefix(a, b, a.len(), blocks, tags);
        assert(processors_of(a, a.len(), blocks, tags) + processors_of(b, 0, blocks, tags)
            =~= processors_of(a, a.len(), blocks, tags));
    } else {
        lemma_steps_in_order(a, b, (n - 1) as nat, blocks, tags);
        assert((a + b)[a.len() + n - 1] == b[n - 1]);
        assert((a.len() + n - 1) as nat == a.len() + (n - 1) as nat);
        assert(processors_of(a + b, a.len() + n, blocks, tags) =~= processors_of(
            a,
            a.len(),
            blocks,
            tags,
        ) + processors_of(b, n, blocks, tags));
    }
}

proof fn lemma_steps_prefix(
    a: Seq<RawProcessor>,
    b: Seq<RawProcessor>,
    n: nat,
    blocks: Seq<Entry>,
    tags: Seq<TagEntry>,
)
    requires
        n <= a.len(),
    ensures
        processors_of(a + b, n, blocks, tags) == processors_of(a, n, blocks, tags),
    decreases n,
{
    if n > 0 {
        lemma_steps_prefix(a, b, (n - 1) as nat, blocks, tags);
    }
}

/// A step of a processor file stays the step that it is: rot keeps its integrity, and what is
/// rotten or protected is the tag of its name.
pub proof fn law_steps_keep_what_they_do(
    raw: RawProcessor,
    blocks: Seq<Entry>,
    tags: Seq<TagEntry>,
)
    ensures
        match raw {
            RawProcessor::BlockRot { integrity, rottable_blocks } => {
                let ids = tag_named(tags, rottable_blocks@);
                &&& processor_of(raw, blocks, tags) is Some <==> ids is Some
                &&& ids is Some ==> processor_of(raw, blocks, tags) == Some(
                    ProcessorModel::BlockRot { integrity, blocks: ids->0 },
                )
            },
            RawProcessor::Rule { rules } => processor_of(raw, blocks, tags) == Some(
                ProcessorModel::Rules(rules_of(rules@, rules@.len(), blocks, tags)),
            ),
            RawProcessor::ProtectedBlocks { value } => {
                let ids = tag_named(tags, value@);
                &&& processor_of(raw, blocks, tags) is Some <==> ids is Some
                &&& ids is Some ==> processor_of(raw, blocks, tags) == Some(
                    ProcessorModel::ProtectedBlocks(ids->0),
                )
            },
        },
{
}

/// What a rule and a step are taken for is what they hold.
pub proof fn law_rules_and_steps_are_what_they_hold(rule: ProcessorRule, step: StructureProcessor)
    ensures
        rule@.input == rule.input_predicate@,
        rule@.location == rule.location_predicate@,
        rule@.output == rule.output_state,
        step matches StructureProcessor::BlockRot { integrity, blocks } ==> step@
            == (ProcessorModel::BlockRot { integrity, blocks: blocks.0@ }),
        step matches StructureProcessor::Gravity { heightmap, offset } ==> step@
            == (ProcessorModel::Gravity { heightmap, offset }),
        step matches StructureProcessor::ProtectedBlocks(tag) ==> step@
            == ProcessorModel::ProtectedBlocks(tag.0@),
        step matches StructureProcessor::Rules(rules) ==> step@ matches ProcessorModel::Rules(
            models,
        ) && models.len() == rules@.len() && forall|i: int|
            0 <= i < rules@.len() ==> #[trigger] models[i] == rules@[i]@,
{
}

} // verus!
