//! Placing a template in the world.

use super::chunk::Chunk;
use super::geometry::{
    fits, turned, turned_within, BlockBox, BlockMirror, BlockPos, BlockRotation,
};
use super::jigsaw::{
    use_models, uses_of, JigsawProjection, LiquidSettings, PoolElementKind,
    PoolElementStructurePiece, ProcessorListRef, TemplateUse, UseModel,
};
use super::processor::{
    append_processors, heights_fit, processed, processor_models, HeightMap, ProcessorModel, StructureProcessor,
    Terrain, TurnedStates,
};
use super::template::{
    find_value, get_string, nbt_model, text_of, value_of, NbtEntry, NbtModel, NbtValue,
    StructureTemplate, TemplateBlock,
};
use crate::text::{copy_text, str_eq};
use vstd::prelude::*;
use vstd::slice::slice_to_vec;

verus! {

/// What a joining block becomes once the pieces are joined.
#[derive(Debug)]
pub struct FinalState {
    pub name: String,
    pub states: TurnedStates,
}

/// The states of a template: of each entry of its palette, and of what each of its blocks
/// becomes if it is a joining block.
#[derive(Debug)]
pub struct ResolvedTemplate {
    pub palette: Vec<TurnedStates>,
    pub finals: Vec<FinalState>,
}

/// What the data of a joining block say that it becomes.
pub open spec fn final_text(nbt: Option<Vec<NbtEntry>>) -> Seq<char> {
    match nbt {
        None => "minecraft:air"@,
        Some(data) => match text_of(nbt_model(data@), "final_state"@) {
            Some(s) => s,
            None => "minecraft:air"@,
        },
    }
}

/// What the data of a joining block say that it becomes.
pub fn final_state_of(block: &TemplateBlock) -> (r: String)
    ensures
        r@ == final_text(block.nbt),
{
    match &block.nbt {
        None => "minecraft:air".to_owned(),
        Some(data) => match get_string(data, "final_state") {
            Some(s) => s,
            None => "minecraft:air".to_owned(),
        },
    }
}

/// A block on its way into the world.
#[derive(Clone, Copy, Debug, PartialEq, Eq, Structural)]
pub struct ProcessedBlock {
    pub pos: BlockPos,
    pub state: u16,
    /// The place of the block in its template.
    pub block: usize,
}

/// The name of a block's state in its palette.
pub open spec fn palette_name(template: StructureTemplate, i: int) -> Seq<char> {
    template.palette@[template.blocks@[i].state as int].name@
}

/// Whether a block joins pieces.
pub open spec fn joins(template: StructureTemplate, i: int) -> bool {
    palette_name(template, i) == "minecraft:jigsaw"@
}

/// Whether a block is left out: markers are, what keeps the existing block is, and so is air
/// where air is skipped.
pub open spec fn left_out(name: Seq<char>, skip_air: bool) -> bool {
    ||| name == "minecraft:structure_void"@
    ||| name == "minecraft:structure_block"@
    ||| skip_air && name == "minecraft:air"@
}

/// The state that a block is placed with.
pub open spec fn placed_state(
    template: StructureTemplate,
    resolved: ResolvedTemplate,
    i: int,
    rotation: BlockRotation,
) -> Option<u16> {
    if joins(template, i) {
        resolved.finals@[i].states.in_turn(rotation)
    } else {
        resolved.palette@[template.blocks@[i].state as int].in_turn(rotation)
    }
}

/// Where a block comes to stand.
pub open spec fn world_pos(
    template: StructureTemplate,
    i: int,
    origin: BlockPos,
    offset: (i32, i32),
    rotation: BlockRotation,
) -> (int, int, int) {
    let pos = template.blocks@[i].pos;
    let (ox, oz) = turned(rotation, offset.0 as int, offset.1 as int);
    let (lx, lz) = turned_within(rotation, pos.x as int, pos.z as int, template.size);
    (origin.x + ox + lx, origin.y + pos.y, origin.z + oz + lz)
}

/// Whether the coordinates of a block are coordinates.
pub open spec fn block_fits(
    template: StructureTemplate,
    i: int,
    origin: BlockPos,
    offset: (i32, i32),
    rotation: BlockRotation,
) -> bool {
    let pos = template.blocks@[i].pos;
    let (lx, lz) = turned_within(rotation, pos.x as int, pos.z as int, template.size);
    let (x, y, z) = world_pos(template, i, origin, offset, rotation);
    fits(lx) && fits(lz) && fits(x) && fits(y) && fits(z)
}

/// Whether an offset and what it is added to are coordinates.
pub open spec fn offset_fits(origin: BlockPos, offset: (i32, i32), rotation: BlockRotation) -> bool {
    let (ox, oz) = turned(rotation, offset.0 as int, offset.1 as int);
    fits(ox) && fits(oz) && fits(origin.x + ox) && fits(origin.z + oz)
}

/// Where the first `n` steps put a block, and as what: the first that leaves it out is the
/// last.
pub open spec fn run<T: Terrain>(
    processors: Seq<ProcessorModel>,
    n: nat,
    terrain: &T,
    template_y: i32,
    pos: BlockPos,
    state: u16,
    rotation: BlockRotation,
) -> Option<(BlockPos, u16)>
    decreases n,
{
    if n == 0 {
        Some((pos, state))
    } else {
        match run(processors, (n - 1) as nat, terrain, template_y, pos, state, rotation) {
            None => None,
            Some((p, s)) => processed(
                processors[n - 1],
                terrain,
                template_y,
                p,
                s,
                rotation,
                BlockMirror::Unmirrored,
            ),
        }
    }
}

/// Where a block of a template goes, and as what.
pub open spec fn placed_block<T: Terrain>(
    terrain: &T,
    template: StructureTemplate,
    resolved: ResolvedTemplate,
    i: int,
    origin: BlockPos,
    offset: (i32, i32),
    rotation: BlockRotation,
    skip_air: bool,
    processors: Seq<ProcessorModel>,
    chunk_box: Option<BlockBox>,
) -> Option<ProcessedBlock> {
    if left_out(palette_name(template, i), skip_air) {
        None
    } else {
        match placed_state(template, resolved, i, rotation) {
            None => None,
            Some(state) => {
                let (x, y, z) = world_pos(template, i, origin, offset, rotation);
                let start = BlockPos { x: x as i32, y: y as i32, z: z as i32 };
                match run(
                    processors,
                    processors.len(),
                    terrain,
                    template.blocks@[i].pos.y,
                    start,
                    state,
                    rotation,
                ) {
                    None => None,
                    Some((pos, state)) => if chunk_box is Some && !(chunk_box->0).holds(
                        pos.x as int,
                        pos.y as int,
                        pos.z as int,
                    ) {
                        None
                    } else {
                        Some(ProcessedBlock { pos, state, block: i as usize })
                    },
                }
            },
        }
    }
}

/// Where the first `n` blocks of a template go, and as what.
pub open spec fn placed_blocks<T: Terrain>(
    terrain: &T,
    template: StructureTemplate,
    resolved: ResolvedTemplate,
    n: nat,
    origin: BlockPos,
    offset: (i32, i32),
    rotation: BlockRotation,
    skip_air: bool,
    processors: Seq<ProcessorModel>,
    chunk_box: Option<BlockBox>,
) -> Seq<ProcessedBlock>
    decreases n,
{
    if n == 0 {
        Seq::empty()
    } else {
        let before = placed_blocks(
            terrain,
            template,
            resolved,
            (n - 1) as nat,
            origin,
            offset,
            rotation,
            skip_air,
            processors,
            chunk_box,
        );
        match placed_block(
            terrain,
            template,
            resolved,
            n - 1,
            origin,
            offset,
            rotation,
            skip_air,
            processors,
            chunk_box,
        ) {
            None => before,
            Some(block) => before.push(block),
        }
    }
}

/// Whether a template and its states belong together.
pub open spec fn template_fits(template: StructureTemplate, resolved: ResolvedTemplate) -> bool {
    &&& resolved.palette@.len() == template.palette@.len()
    &&& resolved.finals@.len() == template.blocks@.len()
    &&& forall|i: int|
        0 <= i < template.blocks@.len() ==> (#[trigger] template.blocks@[i]).state
            < template.palette@.len()
}

/// Whether every height that processors can give a template's blocks is a coordinate.
pub open spec fn all_heights_fit(template: StructureTemplate, processors: Seq<ProcessorModel>) -> bool {
    forall|i: int, k: int|
        0 <= i < template.blocks@.len() && 0 <= k < processors.len() ==> heights_fit(
            #[trigger] processors[k],
            (#[trigger] template.blocks@[i]).pos.y,
        )
}

/// Runs all steps on a block.
fn run_processors<T: Terrain>(
    processors: &Vec<StructureProcessor>,
    terrain: &T,
    template_pos: BlockPos,
    pos: BlockPos,
    state: u16,
    rotation: BlockRotation,
) -> (r: Option<(BlockPos, u16)>)
    requires
        forall|k: int|
            0 <= k < processors@.len() ==> heights_fit(
                (#[trigger] processors@[k])@,
                template_pos.y,
            ),
    ensures
        r == run(
            processor_models(processors@),
            processors@.len(),
            terrain,
            template_pos.y,
            pos,
            state,
            rotation,
        ),
{
    let ghost models = processor_models(processors@);
    let mut at = pos;
    let mut now: u16 = state;
    let mut i: usize = 0;
    while i < processors.len()
        invariant
            i <= processors@.len(),
            models == processor_models(processors@),
            forall|k: int|
                0 <= k < processors@.len() ==> heights_fit(
                    (#[trigger] processors@[k])@,
                    template_pos.y,
                ),
            run(models, i as nat, terrain, template_pos.y, pos, state, rotation) == Some((at, now)),
        decreases processors.len() - i,
    {
        assert(models[i as int] == processors@[i as int]@);
        match processors[i].process(
            terrain,
            template_pos,
            at,
            now,
            rotation,
            BlockMirror::Unmirrored,
        ) {
            None => {
                proof {
                    lemma_run_stops(
                        models,
                        (i + 1) as nat,
                        models.len(),
                        terrain,
                        template_pos.y,
                        pos,
                        state,
                        rotation,
                    );
                }
                return None;
            },
            Some((p, s)) => {
                at = p;
                now = s;
            },
        }
        i = i + 1;
    }
    Some((at, now))
}

proof fn lemma_run_stops<T: Terrain>(
    processors: Seq<ProcessorModel>,
    n: nat,
    m: nat,
    terrain: &T,
    template_y: i32,
    pos: BlockPos,
    state: u16,
    rotation: BlockRotation,
)
    requires
        n <= m,
        run(processors, n, terrain, template_y, pos, state, rotation) is None,
    ensures
        run(processors, m, terrain, template_y, pos, state, rotation) is None,
    decreases m,
{
    if n < m {
        lemma_run_stops(
            processors,
            n,
            (m - 1) as nat,
            terrain,
            template_y,
            pos,
            state,
            rotation,
        );
    }
}

/// Settles where one block of a template goes.
fn place_block<T: Terrain>(
    terrain: &T,
    template: &StructureTemplate,
    resolved: &ResolvedTemplate,
    i: usize,
    origin: BlockPos,
    offset: (i32, i32),
    rotation: BlockRotation,
    skip_air: bool,
    processors: &Vec<StructureProcessor>,
    chunk_box: Option<BlockBox>,
) -> (r: Option<ProcessedBlock>)
    requires
        i < template.blocks@.len(),
        template_fits(*template, *resolved),
        offset_fits(origin, offset, rotation),
        block_fits(*template, i as int, origin, offset, rotation),
        all_heights_fit(*template, processor_models(processors@)),
    ensures
        r == placed_block(
            terrain,
            *template,
            *resolved,
            i as int,
            origin,
            offset,
            rotation,
            skip_air,
            processor_models(processors@),
            chunk_box,
        ),
{
    let block = &template.blocks[i];
    assert(*block == template.blocks@[i as int]);
    let place: usize = block.state as usize;
    let name = template.palette[place].name.as_str();
    if str_eq(name, "minecraft:structure_void") || str_eq(name, "minecraft:structure_block") {
        return None;
    }
    if skip_air && str_eq(name, "minecraft:air") {
        return None;
    }
    let found = if str_eq(name, "minecraft:jigsaw") {
        resolved.finals[i].states.resolve(rotation)
    } else {
        resolved.palette[place].resolve(rotation)
    };
    let state: u16 = match found {
        None => return None,
        Some(state) => state,
    };
    let (ox, oz): (i32, i32) = rotation.rotate_offset(offset.0, offset.1);
    let world_x: i32 = origin.x + ox;
    let world_z: i32 = origin.z + oz;
    let local = rotation.transform_pos(block.pos, template.size);
    let start = BlockPos::new(world_x + local.x, origin.y + local.y, world_z + local.z);
    proof {
        let models = processor_models(processors@);
        assert forall|k: int| 0 <= k < processors@.len() implies heights_fit(
            (#[trigger] processors@[k])@,
            block.pos.y,
        ) by {
            assert(models[k] == processors@[k]@);
            assert(heights_fit(models[k], template.blocks@[i as int].pos.y));
        }
    }
    match run_processors(processors, terrain, block.pos, start, state, rotation) {
        None => None,
        Some((pos, state)) => match chunk_box {
            Some(bounds) => if bounds.contains(pos.x, pos.y, pos.z) {
                Some(ProcessedBlock { pos, state, block: i })
            } else {
                None
            },
            None => Some(ProcessedBlock { pos, state, block: i }),
        },
    }
}

/// Settles where the blocks of a template go and as what, all of it in the world as it is
/// before the first of them is placed. The offset is turned with the template.
pub fn process_template<T: Terrain>(
    terrain: &T,
    template: &StructureTemplate,
    resolved: &ResolvedTemplate,
    origin: BlockPos,
    offset: (i32, i32),
    rotation: BlockRotation,
    skip_air: bool,
    processors: &Vec<StructureProcessor>,
    chunk_box: Option<BlockBox>,
) -> (r: Vec<ProcessedBlock>)
    requires
        template_fits(*template, *resolved),
        offset_fits(origin, offset, rotation),
        forall|i: int|
            0 <= i < template.blocks@.len() ==> #[trigger] block_fits(
                *template,
                i,
                origin,
                offset,
                rotation,
            ),
        all_heights_fit(*template, processor_models(processors@)),
    ensures
        r@ == placed_blocks(
            terrain,
            *template,
            *resolved,
            template.blocks@.len(),
            origin,
            offset,
            rotation,
            skip_air,
            processor_models(processors@),
            chunk_box,
        ),
        forall|k: int| 0 <= k < r@.len() ==> (#[trigger] r@[k]).block < template.blocks@.len(),
{
    let mut out: Vec<ProcessedBlock> = Vec::new();
    let mut i: usize = 0;
    while i < template.blocks.len()
        invariant
            i <= template.blocks@.len(),
            template_fits(*template, *resolved),
            offset_fits(origin, offset, rotation),
            forall|i: int|
                0 <= i < template.blocks@.len() ==> #[trigger] block_fits(
                    *template,
                    i,
                    origin,
                    offset,
                    rotation,
                ),
            all_heights_fit(*template, processor_models(processors@)),
            forall|k: int| 0 <= k < out@.len() ==> (#[trigger] out@[k]).block < template.blocks@.len(),
            out@ == placed_blocks(
                terrain,
                *template,
                *resolved,
                i as nat,
                origin,
                offset,
                rotation,
                skip_air,
                processor_models(processors@),
                chunk_box,
            ),
        decreases template.blocks.len() - i,
    {
        assert(block_fits(*template, i as int, origin, offset, rotation));
        if let Some(block) = place_block(
            terrain,
            template,
            resolved,
            i,
            origin,
            offset,
            rotation,
            skip_air,
            processors,
            chunk_box,
        ) {
            out.push(block);
        }
        i = i + 1;
    }
    out
}

/// The block entity of a block that needs one.
pub open spec fn entity_id(name: Seq<char>) -> Option<Seq<char>> {
    if name == "minecraft:furnace"@ || name == "minecraft:chest"@ || name
        == "minecraft:trapped_chest"@ || name == "minecraft:barrel"@ || name
        == "minecraft:hopper"@ || name == "minecraft:dropper"@ || name == "minecraft:dispenser"@
        || name == "minecraft:brewing_stand"@ || name == "minecraft:blast_furnace"@ || name
        == "minecraft:smoker"@ || name == "minecraft:shulker_box"@ || name == "minecraft:bed"@
        || name == "minecraft:hanging_sign"@ {
        Some(name)
    } else if name == "minecraft:sign"@ || name == "minecraft:oak_sign"@ || name
        == "minecraft:spruce_sign"@ || name == "minecraft:birch_sign"@ || name
        == "minecraft:jungle_sign"@ || name == "minecraft:acacia_sign"@ || name
        == "minecraft:dark_oak_sign"@ || name == "minecraft:mangrove_sign"@ || name
        == "minecraft:cherry_sign"@ || name == "minecraft:bamboo_sign"@ || name
        == "minecraft:crimson_sign"@ || name == "minecraft:warped_sign"@ {
        Some("minecraft:sign"@)
    } else {
        None
    }
}

/// The block entity of a block that needs one.
pub fn get_block_entity_id(name: &str) -> (r: Option<String>)
    ensures
        match entity_id(name@) {
            Some(id) => r is Some && r->0@ == id,
            None => r is None,
        },
{
    if str_eq(name, "minecraft:furnace") || str_eq(name, "minecraft:chest") || str_eq(
        name,
        "minecraft:trapped_chest",
    ) || str_eq(name, "minecraft:barrel") || str_eq(name, "minecraft:hopper") || str_eq(
        name,
        "minecraft:dropper",
    ) || str_eq(name, "minecraft:dispenser") || str_eq(name, "minecraft:brewing_stand") || str_eq(
        name,
        "minecraft:blast_furnace",
    ) || str_eq(name, "minecraft:smoker") || str_eq(name, "minecraft:shulker_box") || str_eq(
        name,
        "minecraft:bed",
    ) || str_eq(name, "minecraft:hanging_sign") {
        Some(name.to_owned())
    } else if str_eq(name, "minecraft:sign") || str_eq(name, "minecraft:oak_sign") || str_eq(
        name,
        "minecraft:spruce_sign",
    ) || str_eq(name, "minecraft:birch_sign") || str_eq(name, "minecraft:jungle_sign") || str_eq(
        name,
        "minecraft:acacia_sign",
    ) || str_eq(name, "minecraft:dark_oak_sign") || str_eq(name, "minecraft:mangrove_sign")
        || str_eq(name, "minecraft:cherry_sign") || str_eq(name, "minecraft:bamboo_sign") || str_eq(
        name,
        "minecraft:crimson_sign",
    ) || str_eq(name, "minecraft:warped_sign") {
        Some("minecraft:sign".to_owned())
    } else {
        None
    }
}

/// Whether a name says what or where a block entity is.
pub open spec fn is_place_key(key: Seq<char>) -> bool {
    key == "x"@ || key == "y"@ || key == "z"@ || key == "id"@
}

/// The first `n` values of a template's data that do not say what or where the block entity
/// is.
pub open spec fn own_values(data: Seq<(Seq<char>, NbtModel)>, n: nat) -> Seq<(Seq<char>, NbtModel)>
    decreases n,
{
    if n == 0 {
        Seq::empty()
    } else if is_place_key(data[n - 1].0) {
        own_values(data, (n - 1) as nat)
    } else {
        own_values(data, (n - 1) as nat).push(data[n - 1])
    }
}

/// The place of the first value with a name, from the `from`th on.
pub open spec fn index_of(data: Seq<(Seq<char>, NbtModel)>, key: Seq<char>, from: nat) -> nat
    decreases data.len() - from,
{
    if from >= data.len() || data[from as int].0 == key {
        from
    } else {
        index_of(data, key, from + 1)
    }
}

/// Data with a value set.
pub open spec fn with_value(
    data: Seq<(Seq<char>, NbtModel)>,
    key: Seq<char>,
    value: NbtModel,
) -> Seq<(Seq<char>, NbtModel)> {
    let i = index_of(data, key, 0);
    if i < data.len() {
        data.update(i as int, (key, value))
    } else {
        data.push((key, value))
    }
}

/// The data of a placed block's entity. A container that is to be filled from a loot table
/// gets a seed for it where it has none.
pub open spec fn entity_data(
    id: Seq<char>,
    pos: BlockPos,
    template_data: Seq<(Seq<char>, NbtModel)>,
    loot_seed: i64,
) -> Seq<(Seq<char>, NbtModel)> {
    let data = seq![
        ("id"@, NbtModel::Text(id)),
        ("x"@, NbtModel::Int(pos.x)),
        ("y"@, NbtModel::Int(pos.y)),
        ("z"@, NbtModel::Int(pos.z)),
    ] + own_values(template_data, template_data.len());
    if text_of(data, "LootTable"@) is Some && !(value_of(data, "LootTableSeed"@, 0) matches Some(
        NbtModel::Long(_),
    )) {
        with_value(data, "LootTableSeed"@, NbtModel::Long(loot_seed))
    } else {
        data
    }
}

fn copy_value(value: &NbtValue) -> (r: NbtValue)
    ensures
        r@ == value@,
{
    match value {
        NbtValue::Text(s) => NbtValue::Text(copy_text(s)),
        NbtValue::Int(n) => NbtValue::Int(*n),
        NbtValue::Long(n) => NbtValue::Long(*n),
        NbtValue::Other(bytes) => NbtValue::Other(slice_to_vec(bytes)),
    }
}

proof fn lemma_nbt_push(entries: Seq<NbtEntry>, entry: NbtEntry)
    ensures
        nbt_model(entries.push(entry)) == nbt_model(entries).push(entry@),
{
    assert(nbt_model(entries.push(entry)) =~= nbt_model(entries).push(entry@));
}

fn push_value(data: &mut Vec<NbtEntry>, key: &str, value: NbtValue)
    ensures
        nbt_model(final(data)@) == nbt_model(old(data)@).push((key@, value@)),
{
    let entry = NbtEntry { key: key.to_owned(), value };
    proof {
        lemma_nbt_push(data@, entry);
    }
    data.push(entry);
}

proof fn lemma_index_of(data: Seq<(Seq<char>, NbtModel)>, key: Seq<char>, from: nat, i: nat)
    requires
        from <= i <= data.len(),
        forall|k: int| from <= k < i ==> (#[trigger] data[k]).0 != key,
        i < data.len() ==> data[i as int].0 == key,
    ensures
        index_of(data, key, from) == i,
    decreases i - from,
{
    if from < i {
        assert(data[from as int].0 != key);
        lemma_index_of(data, key, from + 1, i);
    }
}

/// Sets a value.
fn set_value(data: &mut Vec<NbtEntry>, key: &str, value: NbtValue)
    ensures
        nbt_model(final(data)@) == with_value(nbt_model(old(data)@), key@, value@),
{
    let mut i: usize = 0;
    while i < data.len() && !str_eq(data[i].key.as_str(), key)
        invariant
            i <= data@.len(),
            data@ == old(data)@,
            forall|k: int| 0 <= k < i ==> (#[trigger] nbt_model(data@)[k]).0 != key@,
        decreases data.len() - i,
    {
        i = i + 1;
    }
    proof {
        lemma_index_of(nbt_model(data@), key@, 0, i as nat);
    }
    if i < data.len() {
        let entry = NbtEntry { key: key.to_owned(), value };
        let ghost before = data@;
        data.set(i, entry);
        assert(nbt_model(data@) =~= nbt_model(before).update(i as int, entry@));
    } else {
        push_value(data, key, value);
    }
}

/// Writes the data of a placed block's entity.
fn entity_of(id: &str, pos: BlockPos, template_data: Option<&Vec<NbtEntry>>, loot_seed: i64) -> (r:
    Vec<NbtEntry>)
    ensures
        nbt_model(r@) == entity_data(
            id@,
            pos,
            (match template_data {
                Some(data) => nbt_model(data@),
                None => Seq::empty(),
            }),
            loot_seed,
        ),
{
    let mut data: Vec<NbtEntry> = Vec::new();
    assert(nbt_model(data@) =~= Seq::<(Seq<char>, NbtModel)>::empty());
    push_value(&mut data, "id", NbtValue::Text(id.to_owned()));
    push_value(&mut data, "x", NbtValue::Int(pos.x));
    push_value(&mut data, "y", NbtValue::Int(pos.y));
    push_value(&mut data, "z", NbtValue::Int(pos.z));
    let ghost front = nbt_model(data@);
    assert(front =~= seq![
        ("id"@, NbtModel::Text(id@)),
        ("x"@, NbtModel::Int(pos.x)),
        ("y"@, NbtModel::Int(pos.y)),
        ("z"@, NbtModel::Int(pos.z)),
    ]);
    match template_data {
        None => {
            assert(nbt_model(data@) =~= front + own_values(Seq::empty(), 0));
        },
        Some(template) => {
            let ghost all = nbt_model(template@);
            let mut i: usize = 0;
            assert(nbt_model(data@) =~= front + own_values(all, 0));
            while i < template.len()
                invariant
                    i <= template@.len(),
                    all == nbt_model(template@),
                    nbt_model(data@) == front + own_values(all, i as nat),
                decreases template.len() - i,
            {
                let key = template[i].key.as_str();
                assert(all[i as int] == template@[i as int]@);
                if !str_eq(key, "x") && !str_eq(key, "y") && !str_eq(key, "z") && !str_eq(
                    key,
                    "id",
                ) {
                    push_value(&mut data, key, copy_value(&template[i].value));
                    assert(nbt_model(data@) =~= front + own_values(all, (i + 1) as nat));
                }
                i = i + 1;
            }
        },
    }
    let filled = get_string(&data, "LootTable").is_some();
    let seeded = match find_value(&data, "LootTableSeed") {
        None => false,
        Some(i) => match &data[i].value {
            NbtValue::Long(_) => true,
            _ => false,
        },
    };
    if filled && !seeded {
        set_value(&mut data, "LootTableSeed", NbtValue::Long(loot_seed));
    }
    data
}

/// The name of the block that is placed.
pub open spec fn placed_name(template: StructureTemplate, resolved: ResolvedTemplate, i: int) -> Seq<
    char,
> {
    if joins(template, i) {
        resolved.finals@[i].name@
    } else {
        palette_name(template, i)
    }
}

/// The data that a placed block keeps: a joining block keeps none.
pub open spec fn kept_data(template: StructureTemplate, i: int) -> Option<
    Seq<(Seq<char>, NbtModel)>,
> {
    if joins(template, i) {
        None
    } else {
        match template.blocks@[i].nbt {
            Some(data) => Some(nbt_model(data@)),
            None => None,
        }
    }
}

/// The data of a block's entity: a block without data that needs no entity gets none.
pub open spec fn block_entity(
    name: Seq<char>,
    pos: BlockPos,
    kept: Option<Seq<(Seq<char>, NbtModel)>>,
    loot_seed: i64,
) -> Option<Seq<(Seq<char>, NbtModel)>> {
    if kept is None && entity_id(name) is None {
        None
    } else {
        Some(
            entity_data(
                match entity_id(name) {
                    Some(id) => id,
                    None => name,
                },
                pos,
                match kept {
                    Some(data) => data,
                    None => Seq::empty(),
                },
                loot_seed,
            ),
        )
    }
}

/// The state that a block is set to: in water it is its waterlogged one, where water is kept
/// and it has one.
pub open spec fn settled_state<C: Chunk>(
    chunk: &C,
    block: ProcessedBlock,
    apply_waterlogging: bool,
) -> u16 {
    if apply_waterlogging && chunk.block_of(chunk.state_at(block.pos)) == chunk.water() {
        match chunk.waterlogged(block.state) {
            Some(wet) => wet,
            None => block.state,
        }
    } else {
        block.state
    }
}

/// The world with a block placed.
pub open spec fn with_placed<C: Chunk>(
    chunk: C,
    block: ProcessedBlock,
    apply_waterlogging: bool,
) -> C {
    chunk.with_block(block.pos, settled_state(&chunk, block, apply_waterlogging))
}

/// Places a block, and returns the data of its entity, where it gets one.
pub fn place_processed_block<C: Chunk>(
    chunk: &mut C,
    template: &StructureTemplate,
    resolved: &ResolvedTemplate,
    block: ProcessedBlock,
    apply_waterlogging: bool,
) -> (r: Option<Vec<NbtEntry>>)
    requires
        template_fits(*template, *resolved),
        block.block < template.blocks@.len(),
    ensures
        *final(chunk) == with_placed(*old(chunk), block, apply_waterlogging),
        match block_entity(
            placed_name(*template, *resolved, block.block as int),
            block.pos,
            kept_data(*template, block.block as int),
            (*final(chunk)).loot_seed(block.pos),
        ) {
            Some(data) => r is Some && nbt_model(r->0@) == data,
            None => r is None,
        },
{
    let mut state: u16 = block.state;
    if apply_waterlogging {
        let there: u16 = chunk.get_block_state(block.pos);
        if chunk.to_block_id(there) == chunk.water_id() {
            if let Some(wet) = chunk.with_waterlogged(block.state) {
                state = wet;
            }
        }
    }
    chunk.set_block_state(block.pos, state);
    let loot_seed: i64 = chunk.loot_seed_at(block.pos);
    let source = &template.blocks[block.block];
    assert(*source == template.blocks@[block.block as int]);
    let palette = template.palette[source.state as usize].name.as_str();
    let joining = str_eq(palette, "minecraft:jigsaw");
    let name = if joining {
        resolved.finals[block.block].name.as_str()
    } else {
        palette
    };
    let kept: Option<&Vec<NbtEntry>> = if joining {
        None
    } else {
        match &source.nbt {
            Some(data) => Some(data),
            None => None,
        }
    };
    match get_block_entity_id(name) {
        Some(id) => Some(entity_of(id.as_str(), block.pos, kept, loot_seed)),
        None => match kept {
            Some(_) => Some(entity_of(name, block.pos, kept, loot_seed)),
            None => None,
        },
    }
}

/// What block entities are.
pub open spec fn entity_models(entities: Seq<Vec<NbtEntry>>) -> Seq<Seq<(Seq<char>, NbtModel)>> {
    entities.map_values(|e: Vec<NbtEntry>| nbt_model(e@))
}

/// The world with the first `n` of some blocks placed, one after the other, and the block
/// entities that they bring, in order.
pub open spec fn all_placed<C: Chunk>(
    chunk: C,
    template: StructureTemplate,
    resolved: ResolvedTemplate,
    blocks: Seq<ProcessedBlock>,
    n: nat,
    apply_waterlogging: bool,
) -> (C, Seq<Seq<(Seq<char>, NbtModel)>>)
    decreases n,
{
    if n == 0 {
        (chunk, Seq::empty())
    } else {
        let (before, entities) = all_placed(
            chunk,
            template,
            resolved,
            blocks,
            (n - 1) as nat,
            apply_waterlogging,
        );
        let block = blocks[n - 1];
        let after = with_placed(before, block, apply_waterlogging);
        match block_entity(
            placed_name(template, resolved, block.block as int),
            block.pos,
            kept_data(template, block.block as int),
            after.loot_seed(block.pos),
        ) {
            Some(data) => (after, entities.push(data)),
            None => (after, entities),
        }
    }
}

/// The world with a template placed, and the block entities that it brings.
pub open spec fn template_placed<C: Chunk>(
    chunk: C,
    template: StructureTemplate,
    resolved: ResolvedTemplate,
    origin: BlockPos,
    offset: (i32, i32),
    rotation: BlockRotation,
    skip_air: bool,
    apply_waterlogging: bool,
    processors: Seq<ProcessorModel>,
    chunk_box: Option<BlockBox>,
) -> (C, Seq<Seq<(Seq<char>, NbtModel)>>) {
    let blocks = placed_blocks(
        &chunk,
        template,
        resolved,
        template.blocks@.len(),
        origin,
        offset,
        rotation,
        skip_air,
        processors,
        chunk_box,
    );
    all_placed(chunk, template, resolved, blocks, blocks.len(), apply_waterlogging)
}

/// Places a template. Where its blocks go is settled in the world as it is before the first
/// of them is placed; then they are placed one after the other. The block entities that they
/// bring are returned, in order.
pub fn place_template<C: Chunk>(
    chunk: &mut C,
    template: &StructureTemplate,
    resolved: &ResolvedTemplate,
    origin: BlockPos,
    offset: (i32, i32),
    rotation: BlockRotation,
    skip_air: bool,
    apply_waterlogging: bool,
    processors: &Vec<StructureProcessor>,
    chunk_box: Option<BlockBox>,
) -> (r: Vec<Vec<NbtEntry>>)
    requires
        template_fits(*template, *resolved),
        offset_fits(origin, offset, rotation),
        forall|i: int|
            0 <= i < template.blocks@.len() ==> #[trigger] block_fits(
                *template,
                i,
                origin,
                offset,
                rotation,
            ),
        all_heights_fit(*template, processor_models(processors@)),
    ensures
        (*final(chunk), entity_models(r@)) == template_placed(
            *old(chunk),
            *template,
            *resolved,
            origin,
            offset,
            rotation,
            skip_air,
            apply_waterlogging,
            processor_models(processors@),
            chunk_box,
        ),
{
    let blocks = process_template(
        &*chunk,
        template,
        resolved,
        origin,
        offset,
        rotation,
        skip_air,
        processors,
        chunk_box,
    );
    let ghost start = *chunk;
    let mut entities: Vec<Vec<NbtEntry>> = Vec::new();
    assert(entity_models(entities@) =~= Seq::<Seq<(Seq<char>, NbtModel)>>::empty());
    let mut i: usize = 0;
    while i < blocks.len()
        invariant
            i <= blocks@.len(),
            template_fits(*template, *resolved),
            forall|k: int|
                0 <= k < blocks@.len() ==> (#[trigger] blocks@[k]).block < template.blocks@.len(),
            (*chunk, entity_models(entities@)) == all_placed(
                start,
                *template,
                *resolved,
                blocks@,
                i as nat,
                apply_waterlogging,
            ),
        decreases blocks.len() - i,
    {
        let ghost before = entities@;
        let entity = place_processed_block(chunk, template, resolved, blocks[i], apply_waterlogging);
        if let Some(data) = entity {
            entities.push(data);
            assert(entity_models(entities@) =~= entity_models(before).push(nbt_model(data@)));
        }
        i = i + 1;
    }
    entities
}

/// The steps of a piece: one that follows the ground begins with letting its blocks fall.
pub open spec fn with_projection(
    projection: JigsawProjection,
    configured: Seq<ProcessorModel>,
) -> Seq<ProcessorModel> {
    if projection == JigsawProjection::TerrainMatching {
        seq![
            ProcessorModel::Gravity { heightmap: HeightMap::WorldSurfaceWg, offset: -1i32 },
        ] + configured
    } else {
        configured
    }
}

/// The steps of a piece.
pub fn processors_for(projection: JigsawProjection, configured: &Vec<StructureProcessor>) -> (r:
    Vec<StructureProcessor>)
    ensures
        processor_models(r@) == with_projection(projection, processor_models(configured@)),
{
    let mut all: Vec<StructureProcessor> = Vec::new();
    match projection {
        JigsawProjection::Rigid => {},
        JigsawProjection::TerrainMatching => {
            all.push(StructureProcessor::gravity(HeightMap::WorldSurfaceWg, -1));
        },
    }
    let ghost front = processor_models(all@);
    append_processors(&mut all, configured);
    assert(processor_models(all@) == front + processor_models(configured@));
    assert(front + processor_models(configured@) =~= with_projection(
        projection,
        processor_models(configured@),
    ));
    all
}

/// A template with its states.
#[derive(Debug)]
pub struct LoadedTemplate {
    pub template: StructureTemplate,
    pub resolved: ResolvedTemplate,
}

/// The templates that pieces are made of, each with its name.
#[derive(Debug)]
pub struct TemplateLibrary {
    pub names: Vec<String>,
    pub templates: Vec<LoadedTemplate>,
}

/// A list of processors, with its name.
#[derive(Debug)]
pub struct ProcessorList {
    pub name: String,
    pub processors: Vec<StructureProcessor>,
}

/// The processors of the first list with a name, from the `from`th list on; an unknown list
/// is empty.
pub open spec fn listed(lists: Seq<ProcessorList>, name: Seq<char>, from: int) -> Seq<ProcessorModel>
    decreases lists.len() - from,
{
    if from < 0 || from >= lists.len() {
        Seq::empty()
    } else if lists[from].name@ == name {
        processor_models(lists[from].processors@)
    } else {
        listed(lists, name, from + 1)
    }
}

/// The processors that a use of a template names.
pub open spec fn configured_processors(
    lists: Seq<ProcessorList>,
    name: Option<Seq<char>>,
) -> Seq<ProcessorModel> {
    match name {
        Some(name) => listed(lists, name, 0),
        None => Seq::empty(),
    }
}

/// The steps that a piece takes for a use of a template.
fn steps_of(projection: JigsawProjection, lists: &Vec<ProcessorList>, named: &ProcessorListRef) -> (r:
    Vec<StructureProcessor>)
    ensures
        processor_models(r@) == with_projection(projection, configured_processors(lists@, named@)),
{
    if let ProcessorListRef::Named(name) = named {
        let mut i: usize = 0;
        while i < lists.len()
            invariant
                i <= lists@.len(),
                named@ == Some(name@),
                listed(lists@, name@, 0) == listed(lists@, name@, i as int),
            decreases lists.len() - i,
        {
            if str_eq(lists[i].name.as_str(), name.as_str()) {
                return processors_for(projection, &lists[i].processors);
            }
            i = i + 1;
        }
    }
    let none: Vec<StructureProcessor> = Vec::new();
    assert(processor_models(none@) =~= Seq::<ProcessorModel>::empty());
    processors_for(projection, &none)
}

/// Whether a use of a template can be placed where a piece stands.
pub open spec fn use_fits(
    piece: PoolElementStructurePiece,
    library: TemplateLibrary,
    lists: Seq<ProcessorList>,
    used: UseModel,
) -> bool {
    let loaded = library.templates@[used.template as int];
    &&& used.template < library.templates@.len()
    &&& template_fits(loaded.template, loaded.resolved)
    &&& forall|i: int|
        0 <= i < loaded.template.blocks@.len() ==> #[trigger] block_fits(
            loaded.template,
            i,
            piece.pos,
            (0, 0),
            piece.rotation,
        )
    &&& all_heights_fit(
        loaded.template,
        with_projection(piece.projection, configured_processors(lists, used.processors)),
    )
}

/// The world with the first `n` of a piece's templates placed, one after the other, and the
/// block entities that they bring, in order. Templates of the older kind leave air out.
pub open spec fn uses_placed<C: Chunk>(
    chunk: C,
    piece: PoolElementStructurePiece,
    library: TemplateLibrary,
    lists: Seq<ProcessorList>,
    uses: Seq<UseModel>,
    n: nat,
    chunk_box: BlockBox,
) -> (C, Seq<Seq<(Seq<char>, NbtModel)>>)
    decreases n,
{
    if n == 0 {
        (chunk, Seq::empty())
    } else {
        let (before, entities) = uses_placed(
            chunk,
            piece,
            library,
            lists,
            uses,
            (n - 1) as nat,
            chunk_box,
        );
        let used = uses[n - 1];
        let loaded = library.templates@[used.template as int];
        let (after, more) = template_placed(
            before,
            loaded.template,
            loaded.resolved,
            piece.pos,
            (0, 0),
            piece.rotation,
            used.legacy,
            piece.liquid_settings == LiquidSettings::ApplyWaterlog,
            with_projection(piece.projection, configured_processors(lists, used.processors)),
            Some(chunk_box),
        );
        (after, entities + more)
    }
}

impl PoolElementStructurePiece {
    /// Whether the piece keeps the water that it is placed in.
    pub fn keeps_water(&self) -> (r: bool)
        ensures
            r == (self.liquid_settings == LiquidSettings::ApplyWaterlog),
    {
        match self.liquid_settings {
            LiquidSettings::ApplyWaterlog => true,
            LiquidSettings::IgnoreWaterlogDone => false,
        }
    }

    /// Places the templates of the piece that are known, one after the other. The block
    /// entities that they bring are returned, in order, with the feature that is to be grown
    /// at the piece's position, where its element is one.
    pub fn place<C: Chunk>(
        &self,
        chunk: &mut C,
        library: &TemplateLibrary,
        lists: &Vec<ProcessorList>,
        chunk_box: BlockBox,
    ) -> (r: (Vec<Vec<NbtEntry>>, Option<u16>))
        requires
            forall|k: int|
                0 <= k < uses_of(self.element.kind, library.names@).len() ==> use_fits(
                    *self,
                    *library,
                    lists@,
                    #[trigger] uses_of(self.element.kind, library.names@)[k],
                ),
        ensures
            (*final(chunk), entity_models(r.0@)) == uses_placed(
                *old(chunk),
                *self,
                *library,
                lists@,
                uses_of(self.element.kind, library.names@),
                uses_of(self.element.kind, library.names@).len(),
                chunk_box,
            ),
            r.1 == match self.element.kind {
                PoolElementKind::Feature(id) => Some(id),
                _ => None,
            },
    {
        let ghost all = uses_of(self.element.kind, library.names@);
        let mut uses: Vec<TemplateUse> = Vec::new();
        self.element.for_each_template(&library.names, &mut uses);
        assert(use_models(uses@) =~= all);
        let ghost start = *chunk;
        let keeps_water = self.keeps_water();
        let mut entities: Vec<Vec<NbtEntry>> = Vec::new();
        assert(entity_models(entities@) =~= Seq::<Seq<(Seq<char>, NbtModel)>>::empty());
        let mut i: usize = 0;
        while i < uses.len()
            invariant
                i <= uses@.len(),
                use_models(uses@) == all,
                keeps_water == (self.liquid_settings == LiquidSettings::ApplyWaterlog),
                forall|k: int|
                    0 <= k < all.len() ==> use_fits(*self, *library, lists@, #[trigger] all[k]),
                (*chunk, entity_models(entities@)) == uses_placed(
                    start,
                    *self,
                    *library,
                    lists@,
                    all,
                    i as nat,
                    chunk_box,
                ),
            decreases uses.len() - i,
        {
            let used = &uses[i];
            assert(use_models(uses@)[i as int] == uses@[i as int]@);
            assert(use_fits(*self, *library, lists@, all[i as int]));
            let loaded = &library.templates[used.template];
            let steps = steps_of(self.projection, lists, &used.processors);
            let ghost before = entities@;
            let mut more = place_template(
                chunk,
                &loaded.template,
                &loaded.resolved,
                self.pos,
                (0, 0),
                self.rotation,
                used.legacy,
                keeps_water,
                &steps,
                Some(chunk_box),
            );
            let ghost added = more@;
            entities.append(&mut more);
            assert(entity_models(entities@) =~= entity_models(before) + entity_models(added));
            i = i + 1;
        }
        (entities, self.element.feature())
    }
}

proof fn lemma_placed_within<T: Terrain>(
    terrain: &T,
    template: StructureTemplate,
    resolved: ResolvedTemplate,
    n: nat,
    origin: BlockPos,
    offset: (i32, i32),
    rotation: BlockRotation,
    skip_air: bool,
    processors: Seq<ProcessorModel>,
    bounds: BlockBox,
    k: int,
)
    requires
        n <= usize::MAX,
        0 <= k < placed_blocks(
            terrain,
            template,
            resolved,
            n,
            origin,
            offset,
            rotation,
            skip_air,
            processors,
            Some(bounds),
        ).len(),
    ensures
        ({
            let block = placed_blocks(
                terrain,
                template,
                resolved,
                n,
                origin,
                offset,
                rotation,
                skip_air,
                processors,
                Some(bounds),
            )[k];
            &&& bounds.holds(block.pos.x as int, block.pos.y as int, block.pos.z as int)
            &&& block.block < n
            &&& !left_out(palette_name(template, block.block as int), skip_air)
        }),
    decreases n,
{
    if n > 0 {
        let m = (n - 1) as nat;
        let before = placed_blocks(
            terrain,
            template,
            resolved,
            m,
            origin,
            offset,
            rotation,
            skip_air,
            processors,
            Some(bounds),
        );
        if k < before.len() {
            lemma_placed_within(
                terrain,
                template,
                resolved,
                m,
                origin,
                offset,
                rotation,
                skip_air,
                processors,
                bounds,
                k,
            );
        }
    }
}

/// A piece places blocks only within the box that it is given, and never a marker or, where
/// air is skipped, air.
pub proof fn law_template_stays_within_its_box<T: Terrain>(
    terrain: &T,
    template: StructureTemplate,
    resolved: ResolvedTemplate,
    origin: BlockPos,
    offset: (i32, i32),
    rotation: BlockRotation,
    skip_air: bool,
    processors: Seq<ProcessorModel>,
    bounds: BlockBox,
    k: int,
)
    requires
        template.blocks@.len() <= usize::MAX,
        0 <= k < placed_blocks(
            terrain,
            template,
            resolved,
            template.blocks@.len(),
            origin,
            offset,
            rotation,
            skip_air,
            processors,
            Some(bounds),
        ).len(),
    ensures
        ({
            let block = placed_blocks(
                terrain,
                template,
                resolved,
                template.blocks@.len(),
                origin,
                offset,
                rotation,
                skip_air,
                processors,
                Some(bounds),
            )[k];
            &&& bounds.holds(block.pos.x as int, block.pos.y as int, block.pos.z as int)
            &&& !left_out(palette_name(template, block.block as int), skip_air)
        }),
{
    lemma_placed_within(
        terrain,
        template,
        resolved,
        template.blocks@.len(),
        origin,
        offset,
        rotation,
        skip_air,
        processors,
        bounds,
        k,
    );
}

proof fn lemma_rest_stays<C: Chunk>(
    chunk: C,
    template: StructureTemplate,
    resolved: ResolvedTemplate,
    blocks: Seq<ProcessedBlock>,
    n: nat,
    apply_waterlogging: bool,
    pos: BlockPos,
)
    requires
        n <= blocks.len(),
        forall|k: int| 0 <= k < blocks.len() ==> (#[trigger] blocks[k]).pos != pos,
    ensures
        all_placed(chunk, template, resolved, blocks, n, apply_waterlogging).0.state_at(pos)
            == chunk.state_at(pos),
    decreases n,
{
    if n > 0 {
        let m = (n - 1) as nat;
        lemma_rest_stays(chunk, template, resolved, blocks, m, apply_waterlogging, pos);
        let before = all_placed(chunk, template, resolved, blocks, m, apply_waterlogging).0;
        let block = blocks[m as int];
        before.others_stay(
            block.pos,
            settled_state(&before, block, apply_waterlogging),
            pos,
        );
    }
}

/// Placing a template leaves all blocks outside the box that it is given as they are.
pub proof fn law_a_template_leaves_the_rest_alone<C: Chunk>(
    chunk: C,
    template: StructureTemplate,
    resolved: ResolvedTemplate,
    origin: BlockPos,
    offset: (i32, i32),
    rotation: BlockRotation,
    skip_air: bool,
    apply_waterlogging: bool,
    processors: Seq<ProcessorModel>,
    bounds: BlockBox,
    pos: BlockPos,
)
    requires
        template.blocks@.len() <= usize::MAX,
        !bounds.holds(pos.x as int, pos.y as int, pos.z as int),
    ensures
        template_placed(
            chunk,
            template,
            resolved,
            origin,
            offset,
            rotation,
            skip_air,
            apply_waterlogging,
            processors,
            Some(bounds),
        ).0.state_at(pos) == chunk.state_at(pos),
{
    let blocks = placed_blocks(
        &chunk,
        template,
        resolved,
        template.blocks@.len(),
        origin,
        offset,
        rotation,
        skip_air,
        processors,
        Some(bounds),
    );
    assert forall|k: int| 0 <= k < blocks.len() implies (#[trigger] blocks[k]).pos != pos by {
        law_template_stays_within_its_box(
            &chunk,
            template,
            resolved,
            origin,
            offset,
            rotation,
            skip_air,
            processors,
            bounds,
            k,
        );
    }
    lemma_rest_stays(
        chunk,
        template,
        resolved,
        blocks,
        blocks.len(),
        apply_waterlogging,
        pos,
    );
}

/// Placing a piece leaves all blocks outside the box that it is given as they are.
pub proof fn law_a_piece_leaves_the_rest_alone<C: Chunk>(
    chunk: C,
    piece: PoolElementStructurePiece,
    library: TemplateLibrary,
    lists: Seq<ProcessorList>,
    uses: Seq<UseModel>,
    n: nat,
    bounds: BlockBox,
    pos: BlockPos,
)
    requires
        n <= uses.len(),
        forall|k: int|
            0 <= k < library.templates@.len() ==> (#[trigger] library.templates@[k]).template.blocks@.len()
                <= usize::MAX,
        forall|k: int|
            0 <= k < uses.len() ==> (#[trigger] uses[k]).template < library.templates@.len(),
        !bounds.holds(pos.x as int, pos.y as int, pos.z as int),
    ensures
        uses_placed(chunk, piece, library, lists, uses, n, bounds).0.state_at(pos)
            == chunk.state_at(pos),
    decreases n,
{
    if n > 0 {
        let m = (n - 1) as nat;
        law_a_piece_leaves_the_rest_alone(chunk, piece, library, lists, uses, m, bounds, pos);
        let used = uses[m as int];
        let loaded = library.templates@[used.template as int];
        law_a_template_leaves_the_rest_alone(
            uses_placed(chunk, piece, library, lists, uses, m, bounds).0,
            loaded.template,
            loaded.resolved,
            piece.pos,
            (0, 0),
            piece.rotation,
            used.legacy,
            piece.liquid_settings == LiquidSettings::ApplyWaterlog,
            with_projection(piece.projection, configured_processors(lists, used.processors)),
            bounds,
            pos,
        );
    }
}

/// Where a block of a template that is turned as a whole comes to stand. A quarter turn
/// clockwise takes east to south and south to west; the turned template keeps its corner.
pub open spec fn stands_at(
    pos: BlockPos,
    size: BlockPos,
    origin: BlockPos,
    offset: (i32, i32),
    rotation: BlockRotation,
) -> (int, int, int) {
    let y = origin.y + pos.y;
    match rotation {
        BlockRotation::Unturned => (
            origin.x + offset.0 + pos.x,
            y,
            origin.z + offset.1 + pos.z,
        ),
        BlockRotation::Clockwise90 => (
            origin.x - offset.1 + (size.z - 1 - pos.z),
            y,
            origin.z + offset.0 + pos.x,
        ),
        BlockRotation::Rotate180 => (
            origin.x - offset.0 + (size.x - 1 - pos.x),
            y,
            origin.z - offset.1 + (size.z - 1 - pos.z),
        ),
        BlockRotation::CounterClockwise90 => (
            origin.x + offset.1 + pos.z,
            y,
            origin.z - offset.0 + (size.x - 1 - pos.x),
        ),
    }
}

/// The states of one block of a template: of its entry in the palette, or of what it becomes
/// if it is a joining block.
pub open spec fn states_of(template: StructureTemplate, resolved: ResolvedTemplate, i: int) -> TurnedStates {
    if template.palette@[template.blocks@[i].state as int].name@ == "minecraft:jigsaw"@ {
        resolved.finals@[i].states
    } else {
        resolved.palette@[template.blocks@[i].state as int]
    }
}

proof fn lemma_unprocessed<T: Terrain>(
    terrain: &T,
    template: StructureTemplate,
    resolved: ResolvedTemplate,
    n: nat,
    origin: BlockPos,
    offset: (i32, i32),
    rotation: BlockRotation,
    skip_air: bool,
    chunk_box: Option<BlockBox>,
)
    requires
        n <= template.blocks@.len() <= usize::MAX,
        forall|i: int|
            0 <= i < template.blocks@.len() ==> #[trigger] block_fits(
                template,
                i,
                origin,
                offset,
                rotation,
            ),
    ensures
        ({
            let blocks = placed_blocks(
                terrain,
                template,
                resolved,
                n,
                origin,
                offset,
                rotation,
                skip_air,
                Seq::empty(),
                chunk_box,
            );
            &&& forall|k: int|
                0 <= k < blocks.len() ==> {
                    let b = #[trigger] blocks[k];
                    &&& b.block < n
                    &&& (b.pos.x as int, b.pos.y as int, b.pos.z as int) == world_pos(
                        template,
                        b.block as int,
                        origin,
                        offset,
                        rotation,
                    )
                }
            &&& forall|k: int, l: int|
                0 <= k < l < blocks.len() ==> (#[trigger] blocks[k]).block < (
                #[trigger] blocks[l]).block
            &&& forall|i: int|
                0 <= i < n ==> (#[trigger] placed_block(
                    terrain,
                    template,
                    resolved,
                    i,
                    origin,
                    offset,
                    rotation,
                    skip_air,
                    Seq::empty(),
                    chunk_box,
                ) matches Some(b) ==> blocks.contains(b))
        }),
    decreases n,
{
    if n > 0 {
        let m = (n - 1) as nat;
        lemma_unprocessed(
            terrain,
            template,
            resolved,
            m,
            origin,
            offset,
            rotation,
            skip_air,
            chunk_box,
        );
        let before = placed_blocks(
            terrain,
            template,
            resolved,
            m,
            origin,
            offset,
            rotation,
            skip_air,
            Seq::empty(),
            chunk_box,
        );
        let blocks = placed_blocks(
            terrain,
            template,
            resolved,
            n,
            origin,
            offset,
            rotation,
            skip_air,
            Seq::empty(),
            chunk_box,
        );
        assert(block_fits(template, n - 1, origin, offset, rotation));
        assert forall|i: int| 0 <= i < n implies (#[trigger] placed_block(
            terrain,
            template,
            resolved,
            i,
            origin,
            offset,
            rotation,
            skip_air,
            Seq::empty(),
            chunk_box,
        ) matches Some(b) ==> blocks.contains(b)) by {
            let placed = placed_block(
                terrain,
                template,
                resolved,
                i,
                origin,
                offset,
                rotation,
                skip_air,
                Seq::empty(),
                chunk_box,
            );
            if placed is Some {
                if i < m {
                    let k = choose|k: int| 0 <= k < before.len() && before[k] == placed->0;
                    assert(blocks[k] == placed->0);
                } else {
                    assert(blocks[blocks.len() - 1] == placed->0);
                }
            }
        }
    }
}

proof fn lemma_meanings_stay<C: Chunk>(
    chunk: C,
    template: StructureTemplate,
    resolved: ResolvedTemplate,
    blocks: Seq<ProcessedBlock>,
    n: nat,
    apply_waterlogging: bool,
    state: u16,
)
    ensures
        ({
            let after = all_placed(chunk, template, resolved, blocks, n, apply_waterlogging).0;
            &&& after.block_of(state) == chunk.block_of(state)
            &&& after.water() == chunk.water()
            &&& after.waterlogged(state) == chunk.waterlogged(state)
        }),
    decreases n,
{
    if n > 0 {
        let m = (n - 1) as nat;
        lemma_meanings_stay(chunk, template, resolved, blocks, m, apply_waterlogging, state);
        let before = all_placed(chunk, template, resolved, blocks, m, apply_waterlogging).0;
        let block = blocks[m as int];
        before.meanings_stay(
            block.pos,
            settled_state(&before, block, apply_waterlogging),
            state,
        );
    }
}

proof fn lemma_one_block_stands<C: Chunk>(
    chunk: C,
    template: StructureTemplate,
    resolved: ResolvedTemplate,
    blocks: Seq<ProcessedBlock>,
    n: nat,
    apply_waterlogging: bool,
    k: int,
)
    requires
        0 <= k < n <= blocks.len(),
        forall|l: int| 0 <= l < blocks.len() && l != k ==> (#[trigger] blocks[l]).pos != blocks[k].pos,
    ensures
        all_placed(chunk, template, resolved, blocks, n, apply_waterlogging).0.state_at(
            blocks[k].pos,
        ) == (if apply_waterlogging && chunk.block_of(chunk.state_at(blocks[k].pos))
            == chunk.water() && chunk.waterlogged(blocks[k].state) is Some {
            chunk.waterlogged(blocks[k].state)->0
        } else {
            blocks[k].state
        }),
    decreases n,
{
    let m = (n - 1) as nat;
    let before = all_placed(chunk, template, resolved, blocks, m, apply_waterlogging).0;
    let block = blocks[m as int];
    let settled = settled_state(&before, block, apply_waterlogging);
    if k < m {
        lemma_one_block_stands(chunk, template, resolved, blocks, m, apply_waterlogging, k);
        before.others_stay(block.pos, settled, blocks[k].pos);
    } else {
        let earlier = blocks.take(k);
        lemma_same_placed(chunk, template, resolved, blocks, earlier, m, apply_waterlogging);
        lemma_rest_stays(
            chunk,
            template,
            resolved,
            earlier,
            m,
            apply_waterlogging,
            block.pos,
        );
        let there = chunk.state_at(block.pos);
        lemma_meanings_stay(chunk, template, resolved, blocks, m, apply_waterlogging, there);
        lemma_meanings_stay(
            chunk,
            template,
            resolved,
            blocks,
            m,
            apply_waterlogging,
            block.state,
        );
        before.set_is_there(block.pos, settled);
    }
}

proof fn lemma_same_placed<C: Chunk>(
    chunk: C,
    template: StructureTemplate,
    resolved: ResolvedTemplate,
    a: Seq<ProcessedBlock>,
    b: Seq<ProcessedBlock>,
    n: nat,
    apply_waterlogging: bool,
)
    requires
        n <= a.len(),
        n <= b.len(),
        forall|k: int| 0 <= k < n ==> a[k] == b[k],
    ensures
        all_placed(chunk, template, resolved, a, n, apply_waterlogging) == all_placed(
            chunk,
            template,
            resolved,
            b,
            n,
            apply_waterlogging,
        ),
    decreases n,
{
    if n > 0 {
        lemma_same_placed(chunk, template, resolved, a, b, (n - 1) as nat, apply_waterlogging);
    }
}

/// Without processors, every block of a template that is not left out stands where the turn
/// takes it, with the state that it has in that turn, or with the waterlogged form of that in
/// water. Markers are left out, air is where it is skipped, and so is what lies outside the
/// box; two blocks of a template in one place are no case of this.
pub proof fn law_blocks_turn_with_their_template<C: Chunk>(
    chunk: C,
    template: StructureTemplate,
    resolved: ResolvedTemplate,
    origin: BlockPos,
    offset: (i32, i32),
    rotation: BlockRotation,
    skip_air: bool,
    apply_waterlogging: bool,
    chunk_box: Option<BlockBox>,
    i: int,
    state: u16,
)
    requires
        template_fits(template, resolved),
        template.blocks@.len() <= usize::MAX,
        forall|j: int|
            0 <= j < template.blocks@.len() ==> #[trigger] block_fits(
                template,
                j,
                origin,
                offset,
                rotation,
            ),
        0 <= i < template.blocks@.len(),
        forall|j: int|
            0 <= j < template.blocks@.len() && j != i ==> (#[trigger] template.blocks@[j]).pos
                != template.blocks@[i].pos,
        ({
            let name = template.palette@[template.blocks@[i].state as int].name@;
            &&& name != "minecraft:structure_void"@
            &&& name != "minecraft:structure_block"@
            &&& !(skip_air && name == "minecraft:air"@)
        }),
        Some(state) == (match rotation {
            BlockRotation::Unturned => states_of(template, resolved, i).unturned,
            BlockRotation::Clockwise90 => states_of(template, resolved, i).clockwise_90,
            BlockRotation::Rotate180 => states_of(template, resolved, i).rotate_180,
            BlockRotation::CounterClockwise90 => states_of(
                template,
                resolved,
                i,
            ).counter_clockwise_90,
        }),
        ({
            let (x, y, z) = stands_at(
                template.blocks@[i].pos,
                template.size,
                origin,
                offset,
                rotation,
            );
            chunk_box matches Some(b) ==> b.min.x <= x <= b.max.x && b.min.y <= y <= b.max.y
                && b.min.z <= z <= b.max.z
        }),
    ensures
        ({
            let (x, y, z) = stands_at(
                template.blocks@[i].pos,
                template.size,
                origin,
                offset,
                rotation,
            );
            let pos = BlockPos { x: x as i32, y: y as i32, z: z as i32 };
            let after = template_placed(
                chunk,
                template,
                resolved,
                origin,
                offset,
                rotation,
                skip_air,
                apply_waterlogging,
                Seq::empty(),
                chunk_box,
            ).0;
            &&& pos.x == x && pos.y == y && pos.z == z
            &&& after.state_at(pos) == (if apply_waterlogging && chunk.block_of(
                chunk.state_at(pos),
            ) == chunk.water() && chunk.waterlogged(state) is Some {
                chunk.waterlogged(state)->0
            } else {
                state
            })
        }),
{
    let blocks = placed_blocks(
        &chunk,
        template,
        resolved,
        template.blocks@.len(),
        origin,
        offset,
        rotation,
        skip_air,
        Seq::empty(),
        chunk_box,
    );
    lemma_unprocessed(
        &chunk,
        template,
        resolved,
        template.blocks@.len(),
        origin,
        offset,
        rotation,
        skip_air,
        chunk_box,
    );
    assert(block_fits(template, i, origin, offset, rotation));
    let placed = placed_block(
        &chunk,
        template,
        resolved,
        i,
        origin,
        offset,
        rotation,
        skip_air,
        Seq::empty(),
        chunk_box,
    );
    assert(placed is Some);
    let b = placed->0;
    let k = choose|k: int| 0 <= k < blocks.len() && blocks[k] == b;
    assert forall|l: int| 0 <= l < blocks.len() && l != k implies (#[trigger] blocks[l]).pos
        != blocks[k].pos by {
        let j = blocks[l].block as int;
        assert(j != i) by {
            if l < k {
                assert(blocks[l].block < blocks[k].block);
            } else {
                assert(blocks[k].block < blocks[l].block);
            }
        }
        assert(template.blocks@[j].pos != template.blocks@[i].pos);
    }
    lemma_one_block_stands(
        chunk,
        template,
        resolved,
        blocks,
        blocks.len(),
        apply_waterlogging,
        k,
    );
}

/// Steps are taken one after the other: what the first of them make of a block is handed to
/// the others, and a block that is left out stays so.
pub proof fn law_steps_follow_each_other<T: Terrain>(
    first: Seq<ProcessorModel>,
    others: Seq<ProcessorModel>,
    n: nat,
    terrain: &T,
    template_y: i32,
    pos: BlockPos,
    state: u16,
    rotation: BlockRotation,
)
    requires
        n <= others.len(),
    ensures
        run(first + others, first.len() + n, terrain, template_y, pos, state, rotation) == (
        match run(first, first.len(), terrain, template_y, pos, state, rotation) {
            None => None,
            Some((p, s)) => run(others, n, terrain, template_y, p, s, rotation),
        }),
    decreases n,
{
    let all = first + others;
    if n == 0 {
        lemma_run_prefix(first, all, first.len(), terrain, template_y, pos, state, rotation);
    } else {
        law_steps_follow_each_other(
            first,
            others,
            (n - 1) as nat,
            terrain,
            template_y,
            pos,
            state,
            rotation,
        );
        assert(all[first.len() + n - 1] == others[n - 1]);
    }
}

proof fn lemma_run_prefix<T: Terrain>(
    a: Seq<ProcessorModel>,
    b: Seq<ProcessorModel>,
    n: nat,
    terrain: &T,
    template_y: i32,
    pos: BlockPos,
    state: u16,
    rotation: BlockRotation,
)
    requires
        n <= a.len(),
        n <= b.len(),
        forall|k: int| 0 <= k < n ==> a[k] == b[k],
    ensures
        run(a, n, terrain, template_y, pos, state, rotation) == run(
            b,
            n,
            terrain,
            template_y,
            pos,
            state,
            rotation,
        ),
    decreases n,
{
    if n > 0 {
        lemma_run_prefix(a, b, (n - 1) as nat, terrain, template_y, pos, state, rotation);
    }
}

/// Markers are always left out and air only where it is skipped; every other block is placed.
pub proof fn law_markers_are_left_out(name: Seq<char>)
    ensures
        left_out("minecraft:structure_void"@, false),
        left_out("minecraft:structure_block"@, false),
        left_out("minecraft:air"@, true),
        name != "minecraft:structure_void"@ && name != "minecraft:structure_block"@ ==> !left_out(
            name,
            false,
        ),
        left_out(name, true) <==> left_out(name, false) || name == "minecraft:air"@,
{
}

/// A joining block becomes what its data say, and air where they say nothing.
pub proof fn law_joining_blocks_become_what_they_say(nbt: Option<Vec<NbtEntry>>)
    ensures
        nbt is None ==> final_text(nbt) == "minecraft:air"@,
        nbt matches Some(data) ==> {
            let said = text_of(nbt_model(data@), "final_state"@);
            &&& said matches Some(s) ==> final_text(nbt) == s
            &&& said is None ==> final_text(nbt) == "minecraft:air"@
        },
{
}

/// A block that is set in water takes its waterlogged form, where it has one and water is kept;
/// everywhere else it is set as it is.
pub proof fn law_water_is_kept<C: Chunk>(chunk: C, block: ProcessedBlock, apply_waterlogging: bool)
    ensures
        ({
            let wet = chunk.block_of(chunk.state_at(block.pos)) == chunk.water();
            let after = with_placed(chunk, block, apply_waterlogging).state_at(block.pos);
            &&& !wet || !apply_waterlogging || chunk.waterlogged(block.state) is None ==> after
                == block.state
            &&& wet && apply_waterlogging && chunk.waterlogged(block.state) is Some ==> Some(after)
                == chunk.waterlogged(block.state)
        }),
{
    chunk.set_is_there(block.pos, settled_state(&chunk, block, apply_waterlogging));
}

/// Containers have the entity of their own name, and every sign has that of signs.
pub proof fn law_signs_share_their_entity(name: Seq<char>)
    ensures
        entity_id(name) matches Some(id) ==> id == name || id == "minecraft:sign"@,
        entity_id("minecraft:chest"@) == Some("minecraft:chest"@),
        entity_id("minecraft:barrel"@) == Some("minecraft:barrel"@),
        entity_id("minecraft:furnace"@) == Some("minecraft:furnace"@),
        entity_id("minecraft:sign"@) == Some("minecraft:sign"@),
        name == "minecraft:oak_sign"@ || name == "minecraft:spruce_sign"@ || name
            == "minecraft:birch_sign"@ || name == "minecraft:jungle_sign"@ || name
            == "minecraft:acacia_sign"@ || name == "minecraft:dark_oak_sign"@ || name
            == "minecraft:mangrove_sign"@ || name == "minecraft:cherry_sign"@ || name
            == "minecraft:bamboo_sign"@ || name == "minecraft:crimson_sign"@ || name
            == "minecraft:warped_sign"@ ==> entity_id(name) is Some && (entity_id(name)->0
            == "minecraft:sign"@ || entity_id(name)->0 == name),
{
}

proof fn lemma_value_behind(
    a: Seq<(Seq<char>, NbtModel)>,
    b: Seq<(Seq<char>, NbtModel)>,
    key: Seq<char>,
    from: int,
)
    requires
        0 <= from <= a.len(),
        forall|j: int| from <= j < a.len() ==> (#[trigger] a[j]).0 != key,
    ensures
        value_of(a + b, key, from) == value_of(b, key, 0),
    decreases a.len() - from,
{
    if from < a.len() {
        assert((a + b)[from] == a[from]);
        lemma_value_behind(a, b, key, from + 1);
    } else {
        lemma_value_shifted(a, b, key, 0);
    }
}

proof fn lemma_value_shifted(
    a: Seq<(Seq<char>, NbtModel)>,
    b: Seq<(Seq<char>, NbtModel)>,
    key: Seq<char>,
    from: int,
)
    requires
        0 <= from <= b.len(),
    ensures
        value_of(a + b, key, a.len() + from) == value_of(b, key, from),
    decreases b.len() - from,
{
    if from < b.len() {
        assert((a + b)[a.len() + from] == b[from]);
        lemma_value_shifted(a, b, key, from + 1);
    }
}

proof fn lemma_value_pushed(data: Seq<(Seq<char>, NbtModel)>, e: (Seq<char>, NbtModel), key: Seq<
    char,
>, from: int)
    requires
        0 <= from <= data.len(),
    ensures
        value_of(data.push(e), key, from) == match value_of(data, key, from) {
            Some(v) => Some(v),
            None => if e.0 == key {
                Some(e.1)
            } else {
                None
            },
        },
    decreases data.len() - from,
{
    if from < data.len() {
        lemma_value_pushed(data, e, key, from + 1);
    } else {
        reveal_with_fuel(value_of, 2);
    }
}

proof fn lemma_own_value(data: Seq<(Seq<char>, NbtModel)>, n: nat, key: Seq<char>)
    requires
        n <= data.len(),
        !is_place_key(key),
    ensures
        value_of(own_values(data, n), key, 0) == value_of(data.take(n as int), key, 0),
    decreases n,
{
    if n > 0 {
        lemma_own_value(data, (n - 1) as nat, key);
        let before = data.take(n - 1);
        assert(data.take(n as int) =~= before.push(data[n - 1]));
        lemma_value_pushed(before, data[n - 1], key, 0);
        if !is_place_key(data[n - 1].0) {
            lemma_value_pushed(own_values(data, (n - 1) as nat), data[n - 1], key, 0);
        }
    }
}

proof fn lemma_value_updated(
    data: Seq<(Seq<char>, NbtModel)>,
    key: Seq<char>,
    value: NbtModel,
    other: Seq<char>,
    from: int,
)
    requires
        0 <= from <= index_of(data, key, 0) < data.len(),
        data[index_of(data, key, 0) as int].0 == key,
        forall|j: int| 0 <= j < index_of(data, key, 0) ==> (#[trigger] data[j]).0 != key,
    ensures
        value_of(data.update(index_of(data, key, 0) as int, (key, value)), key, from) == Some(
            value,
        ),
    decreases index_of(data, key, 0) - from,
{
    if from < index_of(data, key, 0) {
        lemma_value_updated(data, key, value, other, from + 1);
    }
}

proof fn lemma_other_updated(
    data: Seq<(Seq<char>, NbtModel)>,
    i: int,
    key: Seq<char>,
    value: NbtModel,
    other: Seq<char>,
    from: int,
)
    requires
        0 <= i < data.len(),
        data[i].0 == key,
        other != key,
        0 <= from,
    ensures
        value_of(data.update(i, (key, value)), other, from) == value_of(data, other, from),
    decreases data.len() - from,
{
    if from < data.len() {
        lemma_other_updated(data, i, key, value, other, from + 1);
    }
}

proof fn lemma_index_is(data: Seq<(Seq<char>, NbtModel)>, key: Seq<char>, from: nat)
    requires
        from <= data.len(),
    ensures
        from <= index_of(data, key, from) <= data.len(),
        index_of(data, key, from) < data.len() ==> data[index_of(data, key, from) as int].0 == key,
        forall|j: int| from <= j < index_of(data, key, from) ==> (#[trigger] data[j]).0 != key,
        index_of(data, key, from) == data.len() ==> value_of(data, key, from as int) is None,
    decreases data.len() - from,
{
    if from < data.len() && data[from as int].0 != key {
        lemma_index_is(data, key, from + 1);
    }
}

/// A value that is set is read back, and all other values stay.
pub proof fn law_set_values_are_read_back(
    data: Seq<(Seq<char>, NbtModel)>,
    key: Seq<char>,
    value: NbtModel,
    other: Seq<char>,
)
    ensures
        value_of(with_value(data, key, value), key, 0) == Some(value),
        other != key ==> value_of(with_value(data, key, value), other, 0) == value_of(
            data,
            other,
            0,
        ),
{
    lemma_index_is(data, key, 0);
    let i = index_of(data, key, 0);
    if i < data.len() {
        lemma_value_updated(data, key, value, other, 0);
        if other != key {
            lemma_other_updated(data, i as int, key, value, other, 0);
        }
    } else {
        lemma_value_pushed(data, (key, value), key, 0);
        lemma_value_pushed(data, (key, value), other, 0);
    }
}

proof fn lemma_entity_front(
    id: Seq<char>,
    pos: BlockPos,
    rest: Seq<(Seq<char>, NbtModel)>,
    key: Seq<char>,
)
    ensures
        ({
            let data = seq![
                ("id"@, NbtModel::Text(id)),
                ("x"@, NbtModel::Int(pos.x)),
                ("y"@, NbtModel::Int(pos.y)),
                ("z"@, NbtModel::Int(pos.z)),
            ] + rest;
            &&& value_of(data, "id"@, 0) == Some(NbtModel::Text(id))
            &&& value_of(data, "x"@, 0) == Some(NbtModel::Int(pos.x))
            &&& value_of(data, "y"@, 0) == Some(NbtModel::Int(pos.y))
            &&& value_of(data, "z"@, 0) == Some(NbtModel::Int(pos.z))
            &&& !is_place_key(key) ==> value_of(data, key, 0) == value_of(rest, key, 0)
        }),
{
    let front = seq![
        ("id"@, NbtModel::Text(id)),
        ("x"@, NbtModel::Int(pos.x)),
        ("y"@, NbtModel::Int(pos.y)),
        ("z"@, NbtModel::Int(pos.z)),
    ];
    let data = front + rest;
    reveal_strlit("id");
    reveal_strlit("x");
    reveal_strlit("y");
    reveal_strlit("z");
    assert("x"@[0] == 'x');
    assert("y"@[0] == 'y');
    assert("z"@[0] == 'z');
    assert("id"@[0] == 'i');
    assert(data[0] == front[0] && data[1] == front[1] && data[2] == front[2] && data[3]
        == front[3]);
    reveal_with_fuel(value_of, 5);
    if !is_place_key(key) {
        lemma_value_behind(front, rest, key, 0);
    }
}

/// The entity of a placed block tells what it is and where it stands, whatever its template's
/// data say of that, and keeps all else of them. One with a loot table has a seed for it: its
/// own, or that of its place where it has none.
pub proof fn law_entities_tell_what_and_where_they_are(
    id: Seq<char>,
    pos: BlockPos,
    template_data: Seq<(Seq<char>, NbtModel)>,
    loot_seed: i64,
    key: Seq<char>,
)
    ensures
        ({
            let data = entity_data(id, pos, template_data, loot_seed);
            let has_table = text_of(template_data, "LootTable"@) is Some;
            let own_seed = value_of(template_data, "LootTableSeed"@, 0);
            let has_seed = own_seed matches Some(NbtModel::Long(_));
            &&& value_of(data, "id"@, 0) == Some(NbtModel::Text(id))
            &&& value_of(data, "x"@, 0) == Some(NbtModel::Int(pos.x))
            &&& value_of(data, "y"@, 0) == Some(NbtModel::Int(pos.y))
            &&& value_of(data, "z"@, 0) == Some(NbtModel::Int(pos.z))
            &&& key != "id"@ && key != "x"@ && key != "y"@ && key != "z"@ && key
                != "LootTableSeed"@ ==> value_of(data, key, 0) == value_of(template_data, key, 0)
            &&& has_table && !has_seed ==> value_of(data, "LootTableSeed"@, 0) == Some(
                NbtModel::Long(loot_seed),
            )
            &&& !has_table || has_seed ==> value_of(data, "LootTableSeed"@, 0) == own_seed
        }),
{
    let own = own_values(template_data, template_data.len());
    let front = seq![
        ("id"@, NbtModel::Text(id)),
        ("x"@, NbtModel::Int(pos.x)),
        ("y"@, NbtModel::Int(pos.y)),
        ("z"@, NbtModel::Int(pos.z)),
    ];
    let plain = front + own;
    let seed = "LootTableSeed"@;
    let table = "LootTable"@;
    reveal_strlit("id");
    reveal_strlit("x");
    reveal_strlit("y");
    reveal_strlit("z");
    reveal_strlit("LootTable");
    reveal_strlit("LootTableSeed");
    assert(seed.len() == 13 && table.len() == 9);
    assert("id"@.len() == 2 && "x"@.len() == 1 && "y"@.len() == 1 && "z"@.len() == 1);
    assert(!is_place_key(seed) && !is_place_key(table));
    assert(template_data.take(template_data.len() as int) =~= template_data);
    lemma_own_value(template_data, template_data.len(), seed);
    lemma_own_value(template_data, template_data.len(), table);
    lemma_entity_front(id, pos, own, seed);
    lemma_entity_front(id, pos, own, table);
    if !is_place_key(key) {
        lemma_own_value(template_data, template_data.len(), key);
        lemma_entity_front(id, pos, own, key);
    }
    law_set_values_are_read_back(plain, seed, NbtModel::Long(loot_seed), "id"@);
    law_set_values_are_read_back(plain, seed, NbtModel::Long(loot_seed), "x"@);
    law_set_values_are_read_back(plain, seed, NbtModel::Long(loot_seed), "y"@);
    law_set_values_are_read_back(plain, seed, NbtModel::Long(loot_seed), "z"@);
    law_set_values_are_read_back(plain, seed, NbtModel::Long(loot_seed), key);
}

/// A block gets an entity just where it brings data or is one that needs an entity; a joining
/// block brings none of its data.
pub proof fn law_blocks_with_data_get_entities(
    name: Seq<char>,
    pos: BlockPos,
    kept: Option<Seq<(Seq<char>, NbtModel)>>,
    loot_seed: i64,
    template: StructureTemplate,
    resolved: ResolvedTemplate,
    i: int,
)
    ensures
        block_entity(name, pos, kept, loot_seed) is Some <==> kept is Some || entity_id(name)
            is Some,
        block_entity(name, pos, kept, loot_seed) matches Some(data) ==> value_of(data, "id"@, 0)
            == Some(
            NbtModel::Text(
                match entity_id(name) {
                    Some(id) => id,
                    None => name,
                },
            ),
        ) && value_of(data, "y"@, 0) == Some(NbtModel::Int(pos.y)),
        kept matches Some(values) ==> block_entity(name, pos, kept, loot_seed) == Some(
            entity_data(
                match entity_id(name) {
                    Some(id) => id,
                    None => name,
                },
                pos,
                values,
                loot_seed,
            ),
        ),
        joins(template, i) <==> palette_name(template, i) == "minecraft:jigsaw"@,
        joins(template, i) ==> kept_data(template, i) is None && placed_name(template, resolved, i)
            == resolved.finals@[i].name@,
        !joins(template, i) ==> placed_name(template, resolved, i) == palette_name(template, i) && (
        kept_data(template, i) is Some <==> template.blocks@[i].nbt is Some) && (
        template.blocks@[i].nbt matches Some(data) ==> kept_data(template, i) == Some(
            nbt_model(data@),
        )),
{
    if kept is Some || entity_id(name) is Some {
        let id = match entity_id(name) {
            Some(id) => id,
            None => name,
        };
        let values = match kept {
            Some(data) => data,
            None => Seq::empty(),
        };
        law_entities_tell_what_and_where_they_are(id, pos, values, loot_seed, name);
    }
}

/// A piece that follows the ground lets its blocks fall before all else, to the block under the
/// surface; a rigid one does only what it is told.
pub proof fn law_pieces_follow_the_ground_first(configured: Seq<ProcessorModel>)
    ensures
        with_projection(JigsawProjection::Rigid, configured) == configured,
        ({
            let steps = with_projection(JigsawProjection::TerrainMatching, configured);
            &&& steps.len() == configured.len() + 1
            &&& steps[0] == (ProcessorModel::Gravity {
                heightmap: HeightMap::WorldSurfaceWg,
                offset: -1i32,
            })
            &&& steps.skip(1) == configured
        }),
{
    let steps = with_projection(JigsawProjection::TerrainMatching, configured);
    assert(steps.skip(1) =~= configured);
}

/// A piece's processors are those of the first list of their name; without a name, or a list of
/// it, there are none.
pub proof fn law_processor_lists_are_found_by_name(
    lists: Seq<ProcessorList>,
    name: Seq<char>,
    k: int,
)
    ensures
        configured_processors(lists, None).len() == 0,
        0 <= k < lists.len() && lists[k].name@ == name && (forall|j: int|
            0 <= j < k ==> (#[trigger] lists[j]).name@ != name) ==> configured_processors(
            lists,
            Some(name),
        ) == processor_models(lists[k].processors@),
        (forall|j: int| 0 <= j < lists.len() ==> (#[trigger] lists[j]).name@ != name)
            ==> configured_processors(lists, Some(name)).len() == 0,
{
    if 0 <= k < lists.len() && lists[k].name@ == name && (forall|j: int|
        0 <= j < k ==> (#[trigger] lists[j]).name@ != name) {
        lemma_first_list(lists, name, 0, k);
    }
    if forall|j: int| 0 <= j < lists.len() ==> (#[trigger] lists[j]).name@ != name {
        lemma_no_list(lists, name, 0);
    }
}

proof fn lemma_first_list(lists: Seq<ProcessorList>, name: Seq<char>, from: int, k: int)
    requires
        0 <= from <= k < lists.len(),
        lists[k].name@ == name,
        forall|j: int| from <= j < k ==> (#[trigger] lists[j]).name@ != name,
    ensures
        listed(lists, name, from) == processor_models(lists[k].processors@),
    decreases k - from,
{
    if from < k {
        lemma_first_list(lists, name, from + 1, k);
    }
}

proof fn lemma_no_list(lists: Seq<ProcessorList>, name: Seq<char>, from: int)
    requires
        0 <= from,
        forall|j: int| from <= j < lists.len() ==> (#[trigger] lists[j]).name@ != name,
    ensures
        listed(lists, name, from).len() == 0,
    decreases lists.len() - from,
{
    if from < lists.len() {
        lemma_no_list(lists, name, from + 1);
    }
}

/// The templates of a piece are placed one after the other: those of two lists as if the
/// second were placed in the world that the first leaves, and their entities follow one another.
/// Each is placed where the piece stands, turned as it is; one of the older kind skips air.
pub proof fn law_templates_are_placed_one_after_the_other<C: Chunk>(
    chunk: C,
    piece: PoolElementStructurePiece,
    library: TemplateLibrary,
    lists: Seq<ProcessorList>,
    a: Seq<UseModel>,
    b: Seq<UseModel>,
    chunk_box: BlockBox,
)
    ensures
        ({
            let (first, entities) = uses_placed(
                chunk,
                piece,
                library,
                lists,
                a,
                a.len(),
                chunk_box,
            );
            let (second, more) = uses_placed(
                first,
                piece,
                library,
                lists,
                b,
                b.len(),
                chunk_box,
            );
            let (both, all) = uses_placed(
                chunk,
                piece,
                library,
                lists,
                a + b,
                (a + b).len(),
                chunk_box,
            );
            both == second && all == entities + more
        }),
        b.len() == 1 ==> {
            let loaded = library.templates@[b[0].template as int];
            uses_placed(chunk, piece, library, lists, b, 1, chunk_box) == template_placed(
                chunk,
                loaded.template,
                loaded.resolved,
                piece.pos,
                (0, 0),
                piece.rotation,
                b[0].legacy,
                piece.liquid_settings == LiquidSettings::ApplyWaterlog,
                with_projection(piece.projection, configured_processors(lists, b[0].processors)),
                Some(chunk_box),
            )
        },
{
    lemma_uses_chain(chunk, piece, library, lists, a, b, b.len(), chunk_box);
    reveal_with_fuel(uses_placed, 2);
    if b.len() == 1 {
        let one = uses_placed(chunk, piece, library, lists, b, 1, chunk_box);
        let loaded = library.templates@[b[0].template as int];
        let direct = template_placed(
            chunk,
            loaded.template,
            loaded.resolved,
            piece.pos,
            (0, 0),
            piece.rotation,
            b[0].legacy,
            piece.liquid_settings == LiquidSettings::ApplyWaterlog,
            with_projection(piece.projection, configured_processors(lists, b[0].processors)),
            Some(chunk_box),
        );
        assert(one.1 =~= direct.1);
    }
}

proof fn lemma_uses_chain<C: Chunk>(
    chunk: C,
    piece: PoolElementStructurePiece,
    library: TemplateLibrary,
    lists: Seq<ProcessorList>,
    a: Seq<UseModel>,
    b: Seq<UseModel>,
    n: nat,
    chunk_box: BlockBox,
)
    requires
        n <= b.len(),
    ensures
        ({
            let (first, entities) = uses_placed(
                chunk,
                piece,
                library,
                lists,
                a,
                a.len(),
                chunk_box,
            );
            let (second, more) = uses_placed(first, piece, library, lists, b, n, chunk_box);
            let (both, all) = uses_placed(
                chunk,
                piece,
                library,
                lists,
                a + b,
                a.len() + n,
                chunk_box,
            );
            both == second && all == entities + more
        }),
    decreases n,
{
    let (first, entities) = uses_placed(chunk, piece, library, lists, a, a.len(), chunk_box);
    if n == 0 {
        lemma_uses_placed_front(chunk, piece, library, lists, a, b, a.len(), chunk_box);
        assert(entities + Seq::<Seq<(Seq<char>, NbtModel)>>::empty() =~= entities);
    } else {
        lemma_uses_chain(chunk, piece, library, lists, a, b, (n - 1) as nat, chunk_box);
        assert((a + b)[a.len() + n - 1] == b[n - 1]);
        assert((a.len() + n - 1) as nat == a.len() + (n - 1) as nat);
        let (_, more) = uses_placed(first, piece, library, lists, b, n, chunk_box);
        let (_, all) = uses_placed(chunk, piece, library, lists, a + b, a.len() + n, chunk_box);
        assert(all =~= entities + more);
    }
}

proof fn lemma_uses_placed_front<C: Chunk>(
    chunk: C,
    piece: PoolElementStructurePiece,
    library: TemplateLibrary,
    lists: Seq<ProcessorList>,
    a: Seq<UseModel>,
    b: Seq<UseModel>,
    n: nat,
    chunk_box: BlockBox,
)
    requires
        n <= a.len(),
    ensures
        uses_placed(chunk, piece, library, lists, a + b, n, chunk_box) == uses_placed(
            chunk,
            piece,
            library,
            lists,
            a,
            n,
            chunk_box,
        ),
    decreases n,
{
    if n > 0 {
        lemma_uses_placed_front(chunk, piece, library, lists, a, b, (n - 1) as nat, chunk_box);
        assert((a + b)[n - 1] == a[n - 1]);
    }
}

} // verus!
