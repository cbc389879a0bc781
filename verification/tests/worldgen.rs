use pumpkin::random::{ListedDraws, UNIT};
use pumpkin::registry::Entry;
use pumpkin::worldgen::finder::{
    find_nearest_abandoned_village, find_nearest_structure, generated_village_at_chunk,
    horizontal_distance_sq, ChunkPos, ListedStart, ListedVillages, RandomSpreadStructurePlacement,
    SingleChunkRegions, SpreadType, StructurePlacement, StructurePlacementType, VillageSet,
    VillageStart, VillageStructure,
};
use pumpkin::worldgen::geometry::{
    floor_div, BlockBox, BlockDirection, BlockMirror, BlockPos, BlockRotation,
};
use pumpkin::worldgen::jigsaw::{
    contains_zombie_template, start_request, DimensionPadding, JigsawBlock, JigsawGenerator,
    JigsawJointType, JigsawJunction, JigsawProjection, LiquidSettings, PoolElement,
    PoolElementKind, PoolElementStructurePiece, PoolSource, ProcessorListRef, RawPoolElement,
    RawProcessorList, RawProjection, RawTemplatePool, RawWeightedPoolElement, StructureSettings,
    TemplatePool,
};
use pumpkin::worldgen::chunk::{Chunk, Overlay, SketchedChunk, SoakedState};
use pumpkin::worldgen::mansion::{WoodlandMansionGenerator, WoodlandMansionPiece};
use pumpkin::worldgen::mineshaft::{MineshaftGenerator, MineshaftType, PieceKind, MAX_DEPTH};
use pumpkin::worldgen::mineshaft_blocks::{
    is_in_liquid, liquid_probes, place_corridor_entity, place_crossing, place_loot_chest,
    place_room, place_spawner, place_stairs, CorridorEntity, Edit, Material,
    MineshaftCorridorPiece,
};
use pumpkin::worldgen::piece::{StructurePiece, StructurePieceType};
use pumpkin::worldgen::placement::{
    final_state_of, get_block_entity_id, place_processed_block, place_template, process_template,
    processors_for, FinalState, LoadedTemplate, ProcessedBlock, ProcessorList, ResolvedTemplate,
    TemplateLibrary,
};
use pumpkin::worldgen::processor::{
    load_processor_list, BlockTag, HeightMap, OrientedStates, ProcessorRule, ProcessorSource, RawProcessor,
    RawRule, RawRulePredicate, RulePredicate, SketchedBlock, SketchedTerrain, StructureProcessor,
    TagEntry, Terrain, TurnedStates,
};
use pumpkin::worldgen::template::{
    NbtEntry, NbtValue, PaletteEntry, Property, StructureTemplate, TemplateBlock,
};

const AIR: u16 = 0;
const STONE: u16 = 1;
const WATER: u16 = 2;
const PATH: u16 = 3;
const PLANKS: u16 = 4;
const PANE: u16 = 5;
const BROWN_PANE: u16 = 6;
const WET_BROWN_PANE: u16 = 7;

fn states(state: u16) -> TurnedStates {
    TurnedStates {
        unturned: Some(state),
        clockwise_90: Some(state),
        rotate_180: Some(state),
        counter_clockwise_90: Some(state),
    }
}

fn oriented(state: u16) -> OrientedStates {
    OrientedStates {
        unmirrored: states(state),
        left_right: states(state),
        front_back: states(state),
    }
}

fn block(x: i32, y: i32, z: i32, state: u32) -> TemplateBlock {
    TemplateBlock {
        pos: BlockPos::new(x, y, z),
        state,
        nbt: None,
    }
}

fn palette(name: &str) -> PaletteEntry {
    PaletteEntry {
        name: name.to_owned(),
        properties: Vec::new(),
    }
}

fn resolved(palette: &[u16], blocks: usize) -> ResolvedTemplate {
    ResolvedTemplate {
        palette: palette.iter().map(|state| states(*state)).collect(),
        finals: (0..blocks)
            .map(|_| FinalState {
                name: "minecraft:air".to_owned(),
                states: states(AIR),
            })
            .collect(),
    }
}

/// Water up to a height of 62 under a world of air.
fn pond(draws: &[u32]) -> SketchedTerrain<'_> {
    SketchedTerrain {
        filling: AIR,
        blocks: &[SketchedBlock {
            pos: BlockPos { x: 4, y: 62, z: 4 },
            state: WATER,
        }],
        ground: 63,
        draws,
    }
}

/// The same world, to be changed.
fn chunk(draws: &[u32]) -> SketchedChunk<'_> {
    SketchedChunk {
        ground: pond(draws),
        placed: Overlay::Bare,
        water: WATER,
        soaked: &[SoakedState {
            dry: BROWN_PANE,
            wet: WET_BROWN_PANE,
        }],
        loot_seed: 99,
    }
}

fn place(
    chunk: &mut SketchedChunk,
    template: &StructureTemplate,
    states: &[u16],
    origin: BlockPos,
    processors: &Vec<StructureProcessor>,
) {
    let entities = place_template(
        chunk,
        template,
        &resolved(states, template.blocks.len()),
        origin,
        (0, 0),
        BlockRotation::Unturned,
        false,
        true,
        processors,
        None,
    );
    assert!(entities.is_empty());
}

#[test]
fn gravity_uses_the_pre_placement_heightmap_for_the_whole_template() {
    let mut chunk = chunk(&[]);
    let template = StructureTemplate {
        size: BlockPos::new(1, 3, 1),
        palette: vec![palette("minecraft:stone")],
        blocks: vec![block(0, 1, 0, 0), block(0, 2, 0, 0)],
    };
    let processors = vec![StructureProcessor::gravity(HeightMap::WorldSurfaceWg, -1)];
    place(
        &mut chunk,
        &template,
        &[STONE],
        BlockPos::new(4, 100, 4),
        &processors,
    );
    assert_eq!(chunk.get_block_state(BlockPos::new(4, 63, 4)), STONE);
    assert_eq!(chunk.get_block_state(BlockPos::new(4, 64, 4)), STONE);
    assert_eq!(chunk.get_block_state(BlockPos::new(4, 65, 4)), AIR);
    // The placed blocks have raised the ground of their column, and of no other.
    assert_eq!(chunk.get_top_y(HeightMap::WorldSurfaceWg, 4, 4), 65);
    assert_eq!(chunk.get_top_y(HeightMap::WorldSurfaceWg, 5, 4), 63);
}

fn street_rule() -> ProcessorRule {
    ProcessorRule {
        input_predicate: RulePredicate::Block(PATH),
        location_predicate: RulePredicate::Block(WATER),
        output_state: oriented(PLANKS),
    }
}

#[test]
fn terrain_matching_street_replaces_water_with_planks() {
    let template = StructureTemplate {
        size: BlockPos::new(1, 1, 1),
        palette: vec![palette("minecraft:dirt_path")],
        blocks: vec![block(0, 0, 0, 0)],
    };
    let processors = processors_for(
        JigsawProjection::TerrainMatching,
        &vec![StructureProcessor::Rules(vec![street_rule()])],
    );
    for (x, expected) in [(4, PLANKS), (5, PATH)] {
        let mut chunk = chunk(&[]);
        place(
            &mut chunk,
            &template,
            &[PATH],
            BlockPos::new(x, 100, 4),
            &processors,
        );
        assert_eq!(chunk.get_block_state(BlockPos::new(x, 62, 4)), expected);
        assert_eq!(chunk.get_block_state(BlockPos::new(x, 100, 4)), AIR);
    }
    assert!(processors_for(JigsawProjection::Rigid, &Vec::new()).is_empty());
}

#[test]
fn village_rules_run_before_waterlogging() {
    let template = StructureTemplate {
        size: BlockPos::new(1, 1, 1),
        palette: vec![palette("minecraft:glass_pane")],
        blocks: vec![block(0, 0, 0, 0)],
    };
    let rules = vec![StructureProcessor::Rules(vec![ProcessorRule {
        input_predicate: RulePredicate::BlockState(oriented(PANE)),
        location_predicate: RulePredicate::AlwaysTrue,
        output_state: oriented(BROWN_PANE),
    }])];
    let at = |x: i32, keep: bool| {
        let mut chunk = chunk(&[]);
        let pos = BlockPos::new(x, 62, 4);
        place_template(
            &mut chunk,
            &template,
            &resolved(&[PANE], 1),
            pos,
            (0, 0),
            BlockRotation::Unturned,
            false,
            keep,
            &rules,
            None,
        );
        chunk.get_block_state(pos)
    };
    assert_eq!(at(4, true), WET_BROWN_PANE);
    assert_eq!(at(5, true), BROWN_PANE);
    assert_eq!(at(4, false), BROWN_PANE);
}

#[test]
fn a_block_is_not_soaked_by_water_that_an_earlier_one_replaced() {
    let template = StructureTemplate {
        size: BlockPos::new(1, 1, 1),
        palette: vec![palette("minecraft:stone"), palette("minecraft:glass_pane")],
        blocks: vec![block(0, 0, 0, 0), block(0, 0, 0, 1)],
    };
    let mut chunk = chunk(&[]);
    place(
        &mut chunk,
        &template,
        &[STONE, BROWN_PANE],
        BlockPos::new(4, 62, 4),
        &Vec::new(),
    );
    assert_eq!(chunk.get_block_state(BlockPos::new(4, 62, 4)), BROWN_PANE);
    chunk.set_block_state(BlockPos::new(4, 62, 4), WATER);
    assert_eq!(chunk.get_block_state(BlockPos::new(4, 62, 4)), WATER);
}

#[test]
fn markers_and_skipped_air_are_left_out() {
    let template = StructureTemplate {
        size: BlockPos::new(5, 1, 1),
        palette: vec![
            palette("minecraft:stone"),
            palette("minecraft:air"),
            palette("minecraft:structure_void"),
            palette("minecraft:structure_block"),
            palette("minecraft:jigsaw"),
        ],
        blocks: (0..5).map(|i| block(i, 0, 0, i as u32)).collect(),
    };
    let mut states_of = resolved(&[STONE, AIR, AIR, AIR, AIR], 5);
    states_of.finals[4] = FinalState {
        name: "minecraft:oak_planks".to_owned(),
        states: states(PLANKS),
    };
    let placed = |skip_air, chunk_box| {
        process_template(
            &pond(&[]),
            &template,
            &states_of,
            BlockPos::new(0, 70, 0),
            (0, 0),
            BlockRotation::Unturned,
            skip_air,
            &Vec::new(),
            chunk_box,
        )
        .iter()
        .map(|b| (b.pos.x, b.state))
        .collect::<Vec<_>>()
    };
    assert_eq!(placed(false, None), [(0, STONE), (1, AIR), (4, PLANKS)]);
    assert_eq!(placed(true, None), [(0, STONE), (4, PLANKS)]);
    let chunk_box = BlockBox::new(0, 0, 0, 3, 255, 15);
    assert_eq!(placed(true, Some(chunk_box)), [(0, STONE)]);
}

fn jigsaw_piece() -> StructurePiece {
    StructurePiece {
        piece_type: StructurePieceType::Jigsaw,
        bounding_box: BlockBox::new(0, 0, 0, 15, 255, 15),
        chain_length: 3,
    }
}

#[test]
fn pieces_turn_within_their_size() {
    let template = StructureTemplate {
        size: BlockPos::new(3, 1, 2),
        palette: vec![palette("minecraft:stone")],
        blocks: vec![block(2, 0, 0, 0)],
    };
    let mut piece = PoolElementStructurePiece {
        piece: jigsaw_piece(),
        element: single("minecraft:a", 1),
        pos: BlockPos::new(10, 64, 20),
        rotation: BlockRotation::Unturned,
        mirror: BlockMirror::Unmirrored,
        jigsaw_blocks: Vec::new(),
        junctions: Vec::new(),
        ground_level_delta: 1,
        liquid_settings: LiquidSettings::ApplyWaterlog,
        projection: JigsawProjection::Rigid,
    };
    assert!(piece.keeps_water());
    let library = TemplateLibrary {
        names: vec!["minecraft:a".to_owned()],
        templates: vec![LoadedTemplate {
            resolved: resolved(&[STONE], 1),
            template,
        }],
    };
    let mut seen = Vec::new();
    for rotation in [
        BlockRotation::Unturned,
        BlockRotation::Clockwise90,
        BlockRotation::Rotate180,
        BlockRotation::CounterClockwise90,
    ] {
        piece.rotation = rotation;
        let mut chunk = chunk(&[]);
        let (entities, feature) = piece.place(
            &mut chunk,
            &library,
            &Vec::new(),
            BlockBox::new(0, 0, 0, 100, 100, 100),
        );
        assert!(entities.is_empty());
        assert_eq!(feature, None);
        for x in 0..3 {
            for z in 0..3 {
                let pos = BlockPos::new(10 + x, 64, 20 + z);
                if chunk.get_block_state(pos) == STONE {
                    seen.push((x, z));
                }
            }
        }
    }
    assert_eq!(seen, [(2, 0), (1, 2), (0, 1), (0, 0)]);
    let junction = JigsawJunction {
        source_x: 1,
        source_ground_y: 2,
        source_z: 3,
        delta_y: 4,
        projection: JigsawProjection::Rigid,
    };
    piece.add_junction(junction);
    assert_eq!(piece.junctions, [junction]);
    assert_eq!(*piece.get_structure_piece(), jigsaw_piece());
}

#[test]
fn a_piece_places_all_its_templates_with_their_processors() {
    let street = |state: u32| StructureTemplate {
        size: BlockPos::new(1, 1, 1),
        palette: vec![palette("minecraft:dirt_path"), palette("minecraft:chest")],
        blocks: vec![block(0, 0, 0, state)],
    };
    let library = TemplateLibrary {
        names: vec!["a".to_owned(), "b".to_owned()],
        templates: (0..2)
            .map(|state| LoadedTemplate {
                template: street(state),
                resolved: resolved(&[PATH, STONE], 1),
            })
            .collect(),
    };
    let lists = vec![ProcessorList {
        name: "streets".to_owned(),
        processors: vec![StructureProcessor::Rules(vec![street_rule()])],
    }];
    let kind = |template: &str, processors: ProcessorListRef| PoolElementKind::Single {
        template: template.to_owned(),
        processors,
        legacy: false,
    };
    let mut piece = PoolElementStructurePiece {
        piece: jigsaw_piece(),
        element: PoolElement {
            weight: 1,
            projection: JigsawProjection::TerrainMatching,
            kind: PoolElementKind::List(vec![
                kind("a", ProcessorListRef::Named("streets".to_owned())),
                kind("unknown", ProcessorListRef::Empty),
            ]),
        },
        pos: BlockPos::new(4, 90, 4),
        rotation: BlockRotation::Unturned,
        mirror: BlockMirror::Unmirrored,
        jigsaw_blocks: Vec::new(),
        junctions: Vec::new(),
        ground_level_delta: 1,
        liquid_settings: LiquidSettings::IgnoreWaterlogDone,
        projection: JigsawProjection::TerrainMatching,
    };
    let bounds = BlockBox::new(0, 0, 0, 15, 255, 15);
    let at = BlockPos::new(4, 62, 4);
    let mut world = chunk(&[]);
    let (entities, _) = piece.place(&mut world, &library, &lists, bounds);
    assert!(entities.is_empty());
    assert_eq!(world.get_block_state(at), PLANKS);

    // The later template sees what the earlier one placed: the water is gone.
    piece.element.kind = PoolElementKind::List(vec![
        kind("b", ProcessorListRef::Empty),
        kind("a", ProcessorListRef::Named("streets".to_owned())),
    ]);
    let mut world = chunk(&[]);
    let (entities, _) = piece.place(&mut world, &library, &lists, bounds);
    assert_eq!(entities.len(), 1);
    assert_eq!(world.get_block_state(at), PATH);

    piece.element.kind = PoolElementKind::Feature(17);
    assert_eq!(piece.place(&mut world, &library, &lists, bounds).1, Some(17));
}

fn text(key: &str, value: &str) -> NbtEntry {
    NbtEntry {
        key: key.to_owned(),
        value: NbtValue::Text(value.to_owned()),
    }
}

#[test]
fn containers_get_their_entities() {
    assert_eq!(
        get_block_entity_id("minecraft:oak_sign").as_deref(),
        Some("minecraft:sign")
    );
    assert_eq!(
        get_block_entity_id("minecraft:barrel").as_deref(),
        Some("minecraft:barrel")
    );
    assert_eq!(get_block_entity_id("minecraft:stone"), None);

    let mut chest = block(0, 0, 0, 0);
    chest.nbt = Some(vec![text("LootTable", "chests/village")]);
    let template = StructureTemplate {
        size: BlockPos::new(1, 1, 1),
        palette: vec![palette("minecraft:chest")],
        blocks: vec![chest],
    };
    let placed = ProcessedBlock {
        pos: BlockPos::new(7, 8, 9),
        state: STONE,
        block: 0,
    };
    let mut world = chunk(&[]);
    let entity =
        place_processed_block(&mut world, &template, &resolved(&[STONE], 1), placed, true).unwrap();
    assert_eq!(world.get_block_state(placed.pos), STONE);
    let value = |key: &str| {
        entity
            .iter()
            .find(|e| e.key == key)
            .map(|e| format!("{:?}", e.value))
    };
    assert_eq!(value("id").unwrap(), "Text(\"minecraft:chest\")");
    assert_eq!(value("x").unwrap(), "Int(7)");
    assert_eq!(value("y").unwrap(), "Int(8)");
    assert_eq!(value("z").unwrap(), "Int(9)");
    assert_eq!(value("LootTableSeed").unwrap(), "Long(99)");

    let mut plain = template;
    plain.palette[0].name = "minecraft:stone".to_owned();
    plain.blocks[0].nbt = None;
    let entity = place_processed_block(&mut world, &plain, &resolved(&[STONE], 1), placed, true);
    assert!(entity.is_none());
}

#[test]
fn processors_rot_protect_and_replace() {
    let terrain = pond(&[500]);
    let at = BlockPos::new(4, 62, 4);
    let run = |p: &StructureProcessor, state| {
        p.process(
            &terrain,
            at,
            at,
            state,
            BlockRotation::Unturned,
            BlockMirror::Unmirrored,
        )
        .map(|(_, s)| s)
    };
    let rot = |integrity| StructureProcessor::BlockRot {
        integrity,
        blocks: BlockTag(vec![STONE]),
    };
    assert_eq!(run(&rot(501), STONE), Some(STONE));
    assert_eq!(run(&rot(500), STONE), None);
    assert_eq!(run(&rot(0), PATH), Some(PATH));
    assert_eq!(
        run(
            &StructureProcessor::ProtectedBlocks(BlockTag(vec![WATER])),
            STONE
        ),
        None
    );
    assert_eq!(
        run(
            &StructureProcessor::ProtectedBlocks(BlockTag(vec![PLANKS])),
            STONE
        ),
        Some(STONE)
    );
    let random = |probability| {
        StructureProcessor::Rules(vec![ProcessorRule {
            input_predicate: RulePredicate::RandomBlock {
                block: STONE,
                probability,
            },
            location_predicate: RulePredicate::Tag(BlockTag(vec![WATER])),
            output_state: oriented(PLANKS),
        }])
    };
    assert_eq!(run(&random(501), STONE), Some(PLANKS));
    assert_eq!(run(&random(500), STONE), Some(STONE));
    assert_eq!(run(&random(UNIT), PATH), Some(PATH));
}

#[test]
fn rules_follow_the_turn_and_the_reflection() {
    let turned = |first: u16| TurnedStates {
        unturned: Some(first),
        clockwise_90: Some(first + 1),
        rotate_180: Some(first + 2),
        counter_clockwise_90: None,
    };
    let states_of = |first: u16| OrientedStates {
        unmirrored: turned(first),
        left_right: turned(first + 10),
        front_back: turned(first + 20),
    };
    let rules = StructureProcessor::Rules(vec![ProcessorRule {
        input_predicate: RulePredicate::BlockState(states_of(100)),
        location_predicate: RulePredicate::AlwaysTrue,
        output_state: states_of(200),
    }]);
    let terrain = pond(&[]);
    let at = BlockPos::new(0, 70, 0);
    let run = |state, rotation, mirror| {
        rules
            .process(&terrain, at, at, state, rotation, mirror)
            .map(|(_, s)| s)
    };
    let (straight, right) = (BlockRotation::Unturned, BlockRotation::Clockwise90);
    assert_eq!(run(100, straight, BlockMirror::Unmirrored), Some(200));
    assert_eq!(run(101, right, BlockMirror::Unmirrored), Some(201));
    assert_eq!(run(110, straight, BlockMirror::LeftRight), Some(210));
    assert_eq!(run(121, right, BlockMirror::FrontBack), Some(221));
    assert_eq!(run(110, straight, BlockMirror::FrontBack), Some(110));
    // A state that the game does not know in this turn equals none.
    let left = BlockRotation::CounterClockwise90;
    assert_eq!(run(100, left, BlockMirror::Unmirrored), Some(100));

    // The place is looked at as it is, not turned or reflected.
    let here = StructureProcessor::Rules(vec![ProcessorRule {
        input_predicate: RulePredicate::AlwaysTrue,
        location_predicate: RulePredicate::BlockState(states_of(AIR)),
        output_state: states_of(200),
    }]);
    let moved = here.process(&terrain, at, at, STONE, right, BlockMirror::LeftRight);
    assert_eq!(moved, Some((at, 211)));
}

#[test]
fn processor_files_leave_unknown_parts_out() {
    let blocks = vec![Entry {
        id: STONE,
        registry_key: "stone".to_owned(),
    }];
    let tags = vec![TagEntry {
        name: "minecraft:doors".to_owned(),
        blocks: vec![8, 9],
    }];
    let rule = |input, output| RawRule {
        input_predicate: input,
        location_predicate: RawRulePredicate::AlwaysTrue,
        output_state: output,
    };
    let named = |name: &str| RawRulePredicate::Block {
        block: name.to_owned(),
    };
    let source = ProcessorSource::Parsed(vec![
        RawProcessor::Rule {
            rules: vec![
                rule(named("minecraft:stone"), Some(oriented(PATH))),
                rule(named("minecraft:unknown"), Some(oriented(PATH))),
                rule(named("minecraft:stone"), None),
                rule(
                    RawRulePredicate::Tag {
                        tag: "#minecraft:doors".to_owned(),
                    },
                    Some(oriented(AIR)),
                ),
                rule(
                    RawRulePredicate::BlockState { block_state: None },
                    Some(oriented(AIR)),
                ),
                rule(
                    RawRulePredicate::RandomBlock {
                        block: "stone".to_owned(),
                        probability: 7,
                    },
                    Some(oriented(AIR)),
                ),
            ],
        },
        RawProcessor::BlockRot {
            integrity: 3,
            rottable_blocks: "#minecraft:unknown".to_owned(),
        },
        RawProcessor::ProtectedBlocks {
            value: "#minecraft:doors".to_owned(),
        },
    ]);
    let list = load_processor_list(&source, &blocks, &tags);
    assert_eq!(list.len(), 2);
    let StructureProcessor::Rules(rules) = &list[0] else {
        panic!("expected rules");
    };
    assert_eq!(rules.len(), 3);
    assert!(matches!(
        rules[0].input_predicate,
        RulePredicate::Block(STONE)
    ));
    assert!(matches!(&rules[1].input_predicate, RulePredicate::Tag(t) if t.contains(9)));
    assert!(matches!(
        rules[2].input_predicate,
        RulePredicate::RandomBlock {
            block: STONE,
            probability: 7
        }
    ));
    assert!(load_processor_list(&ProcessorSource::Missing, &blocks, &tags).is_empty());
    assert!(load_processor_list(&ProcessorSource::Unreadable, &blocks, &tags).is_empty());
}

fn single(template: &str, weight: u32) -> PoolElement {
    PoolElement {
        weight,
        projection: JigsawProjection::Rigid,
        kind: PoolElementKind::Single {
            template: template.to_owned(),
            processors: ProcessorListRef::Empty,
            legacy: false,
        },
    }
}

fn raw(location: &str, weight: u32) -> RawWeightedPoolElement {
    RawWeightedPoolElement {
        weight,
        element: RawPoolElement::LegacySingle {
            location: location.to_owned(),
            processors: RawProcessorList::Named("minecraft:zombie_plains".to_owned()),
            projection: RawProjection::TerrainMatching,
        },
    }
}

#[test]
fn pool_files_become_pools() {
    let source = PoolSource::Parsed(RawTemplatePool {
        fallback: "minecraft:village/terminators".to_owned(),
        elements: vec![
            raw("minecraft:village/plains/zombie/street_1", 3),
            RawWeightedPoolElement {
                weight: 2,
                element: RawPoolElement::Feature {
                    feature: "minecraft:unknown".to_owned(),
                    projection: RawProjection::Rigid,
                },
            },
            RawWeightedPoolElement {
                weight: 4,
                element: RawPoolElement::Feature {
                    feature: "minecraft:oak".to_owned(),
                    projection: RawProjection::Rigid,
                },
            },
            RawWeightedPoolElement {
                weight: 5,
                element: RawPoolElement::Empty,
            },
        ],
    });
    let features = vec![Entry {
        id: 12,
        registry_key: "oak".to_owned(),
    }];
    let pool = TemplatePool::discover("minecraft:village/zombie", &source, &features).unwrap();
    assert_eq!(pool.fallback, "minecraft:village/terminators");
    assert_eq!(
        pool.elements.iter().map(|e| e.weight).collect::<Vec<_>>(),
        [3, 4, 5]
    );
    assert!(contains_zombie_template(&pool.elements[0].kind));
    assert_eq!(
        pool.elements[0].projection,
        JigsawProjection::TerrainMatching
    );
    assert_eq!(pool.elements[1].feature(), Some(12));
    assert!(pool.elements[2].is_empty());
    let templates = vec![
        "minecraft:other".to_owned(),
        "minecraft:village/plains/zombie/street_1".to_owned(),
    ];
    assert_eq!(pool.elements[0].first_template(&templates), Some(1));
    let mut uses = Vec::new();
    pool.elements[0].for_each_template(&templates, &mut uses);
    assert_eq!(uses.len(), 1);
    assert!(uses[0].legacy);
    assert_eq!(uses[0].template, 1);
    assert!(
        matches!(&uses[0].processors, ProcessorListRef::Named(n) if n == "minecraft:zombie_plains")
    );
}

#[test]
fn pools_without_a_file_hold_their_templates() {
    let names = PoolSource::Names(vec!["a".to_owned(), "b".to_owned()]);
    let pool = TemplatePool::discover("minecraft:city/streets", &names, &Vec::new()).unwrap();
    assert_eq!(pool.elements.len(), 2);
    assert_eq!(pool.fallback, "minecraft:empty");
    assert_eq!(
        pool.elements[0].projection,
        JigsawProjection::TerrainMatching
    );
    let pool = TemplatePool::discover("minecraft:city/houses", &names, &Vec::new()).unwrap();
    assert_eq!(pool.elements[0].projection, JigsawProjection::Rigid);
    assert!(TemplatePool::discover("x", &PoolSource::Missing, &Vec::new()).is_none());
    assert!(TemplatePool::discover("x", &PoolSource::Unreadable, &Vec::new()).is_none());
    let empty = TemplatePool::discover("empty", &PoolSource::Missing, &Vec::new()).unwrap();
    assert_eq!(empty.id, "minecraft:empty");
    assert!(empty.elements.is_empty());
}

#[test]
fn elements_are_drawn_by_weight() {
    let pool = TemplatePool {
        id: "p".to_owned(),
        fallback: "minecraft:empty".to_owned(),
        elements: vec![single("a", 2), single("b", 0), single("c", 3)],
    };
    for (number, expected) in [(0, "a"), (1, "a"), (2, "c"), (4, "c"), (5, "a")] {
        let element = pool.get_random_element(&mut ListedDraws::new(&[number]));
        assert!(
            matches!(&element.kind, PoolElementKind::Single { template, .. } if template == expected)
        );
    }
    let mut places = pool.get_shuffled_elements(&mut ListedDraws::new(&[1, 0, 2, 0]));
    assert_ne!(places, [0, 0, 2, 2, 2]);
    places.sort_unstable();
    assert_eq!(places, [0, 0, 2, 2, 2]);
}

#[test]
fn joining_blocks_are_read_off_templates() {
    let mut joint = block(1, 2, 3, 0);
    joint.nbt = Some(vec![
        text("name", "minecraft:city_anchor"),
        text("target", "minecraft:street"),
        text("pool", "minecraft:streets"),
        text("final_state", "minecraft:stone"),
        text("joint", "aligned"),
        NbtEntry {
            key: "selection_priority".to_owned(),
            value: NbtValue::Int(4),
        },
    ]);
    let entry = PaletteEntry {
        name: "minecraft:jigsaw".to_owned(),
        properties: vec![Property {
            key: "orientation".to_owned(),
            value: "down_east".to_owned(),
        }],
    };
    let jigsaw = JigsawBlock::from_template_block(&joint, &entry).unwrap();
    assert_eq!(jigsaw.name, "minecraft:city_anchor");
    assert_eq!(jigsaw.pool, "minecraft:streets");
    assert_eq!(jigsaw.joint, JigsawJointType::Aligned);
    assert_eq!(jigsaw.facing, BlockDirection::Down);
    assert_eq!(jigsaw.up, BlockDirection::East);
    assert_eq!(jigsaw.selection_priority, 4);
    assert_eq!(jigsaw.placement_priority, 0);
    assert!(JigsawBlock::can_attach(
        &jigsaw,
        BlockDirection::Up,
        "minecraft:street"
    ));
    assert!(!JigsawBlock::can_attach(
        &jigsaw,
        BlockDirection::Down,
        "minecraft:street"
    ));
    assert!(!JigsawBlock::can_attach(
        &jigsaw,
        BlockDirection::Up,
        "minecraft:house"
    ));
    assert_eq!(final_state_of(&joint), "minecraft:stone");
    joint.nbt = None;
    assert!(JigsawBlock::from_template_block(&joint, &entry).is_none());
    assert_eq!(final_state_of(&joint), "minecraft:air");
    assert!(JigsawBlock::from_template_block(&joint, &palette("minecraft:stone")).is_none());
    assert_eq!(JigsawJointType::from_str("?"), JigsawJointType::Rollable);
}

#[test]
fn starts_follow_their_settings() {
    let request = start_request(None, 2, -3, 63);
    assert_eq!(request.start_pos, BlockPos::new(32, 63, -48));
    assert_eq!(request.max_distance, 80);
    assert_eq!(request.liquid_settings, LiquidSettings::ApplyWaterlog);
    let settings = StructureSettings {
        start_height: Some(-27),
        project_start_to_heightmap: true,
        max_distance_from_center: Some(116),
        liquid_settings: Some("ignore_waterlogging".to_owned()),
        dimension_padding: Some(10),
    };
    let request = start_request(Some(&settings), 0, 0, 63);
    assert_eq!(request.start_pos.y, -27);
    assert!(request.project_start_to_heightmap);
    assert_eq!(request.max_distance, 116);
    assert_eq!(request.liquid_settings, LiquidSettings::IgnoreWaterlogDone);
    assert_eq!(
        request.dimension_padding,
        DimensionPadding {
            top: 10,
            bottom: 10
        }
    );
    let generator = JigsawGenerator::new("minecraft:ancient_city/city_center", 7)
        .with_start_jigsaw("minecraft:city_anchor")
        .with_expansion_hack(true);
    assert_eq!(generator.start_pool, "minecraft:ancient_city/city_center");
    assert_eq!(generator.size, 7);
    assert_eq!(
        generator.start_jigsaw_name.as_deref(),
        Some("minecraft:city_anchor")
    );
    assert!(generator.use_expansion_hack);
}

#[test]
fn mansions_fill_their_grid() {
    let at = WoodlandMansionGenerator.get_structure_position(2, -1, 63);
    assert_eq!(at, BlockPos::new(40, 67, -8));
    let piece = WoodlandMansionPiece::new(at, 42);
    assert_eq!(piece.rooms.len(), 16);
    let record = piece.get_structure_piece();
    assert_eq!(record.piece_type, StructurePieceType::WoodlandMansion);
    assert_eq!(record.chain_length, 0);
    assert_eq!(record.bounding_box.min, at);
    let plan = piece.place();
    assert!(plan.len() > 16);
    let mut rooms: Vec<_> = piece.rooms.iter().map(|r| (r.x, r.z)).collect();
    rooms.sort_unstable();
    rooms.dedup();
    assert_eq!(rooms.len(), 16);
    assert!(plan
        .iter()
        .any(|p| p.name == "woodland_mansion/2x2_a1"
            && p.pos == BlockPos::new(at.x + 8, at.y + 1, at.z + 8)));
}

#[test]
fn a_mineshaft_is_made_of_several_pieces_that_lie_apart() {
    let generator = MineshaftGenerator {
        mineshaft_type: MineshaftType::Normal,
    };
    let mut state: u64 = 42;
    let numbers: Vec<u32> = (0..20_000)
        .map(|_| {
            state = state
                .wrapping_mul(6_364_136_223_846_793_005)
                .wrapping_add(1_442_695_040_888_963_407);
            (state >> 33) as u32
        })
        .collect();
    let mut found = 0;
    for start in 0..50 {
        let mut rng = ListedDraws::new(&numbers[start * 300..]);
        let Some(position) = generator.get_structure_position(0, 0, &mut rng) else {
            continue;
        };
        assert_eq!(position.start_pos, BlockPos::new(2, 50, 2));
        if position.pieces.len() > 2 {
            found += 1;
        }
        assert_eq!(position.pieces[0].kind, PieceKind::Room);
        for (i, a) in position.pieces.iter().enumerate() {
            assert!(a.chain_length <= MAX_DEPTH);
            let record = a.get_structure_piece();
            assert_eq!(record.bounding_box, a.bounding_box);
            assert_eq!(record.chain_length, a.chain_length);
            assert_eq!(
                record.piece_type == StructurePieceType::MineshaftRoom,
                a.kind == PieceKind::Room
            );
            for b in &position.pieces[..i] {
                assert!(!a.bounding_box.intersects(&b.bounding_box));
            }
        }
    }
    assert!(found > 25, "only {found} mineshafts branch out");
}

#[test]
fn corridors_are_built_of_their_wood() {
    assert_eq!(MineshaftType::Normal.planks(), Material::OakPlanks);
    assert_eq!(MineshaftType::Mesa.log(), Material::DarkOakLog);
    assert_eq!(MineshaftType::Mesa.fence(), Material::DarkOakFence);
    let mut corridor = MineshaftCorridorPiece {
        mineshaft_type: MineshaftType::Normal,
        facing: Some(BlockDirection::North),
        num_sections: 3,
        has_rails: true,
        spider_corridor: true,
        has_placed_spider: false,
    };
    let world = chunk(&[]);
    let bounds = BlockBox::new(0, 30, 0, 2, 32, 14);
    let chunk_box = BlockBox::new(0, 0, 0, 15, 255, 15);
    let edits = corridor.place(&world, &bounds, &chunk_box, &mut ListedDraws::new(&[]));
    let spawners = edits
        .iter()
        .filter(|e| matches!(e, Edit::Spawner { .. }))
        .count();
    assert!(spawners <= 1);
    assert_eq!(corridor.has_placed_spider, spawners == 1);
    assert!(edits.iter().any(|e| matches!(
        e,
        Edit::Block {
            material: Material::OakFence,
            ..
        }
    )));
    assert!(!edits.iter().any(|e| matches!(
        e,
        Edit::Block {
            material: Material::DarkOakPlanks,
            ..
        }
    )));
    assert!(!place_crossing(MineshaftType::Normal, &world, &bounds, &chunk_box).is_empty());
    assert!(!place_stairs(&world, &bounds, &chunk_box).is_empty());

    let flooded = BlockBox::new(4, 62, 4, 6, 64, 18);
    let mut rng = ListedDraws::new(&[]);
    assert!(corridor.place(&world, &flooded, &chunk_box, &mut rng).is_empty());
    assert!(place_crossing(MineshaftType::Mesa, &world, &flooded, &chunk_box).is_empty());
    assert!(place_stairs(&world, &flooded, &chunk_box).is_empty());
}

#[test]
fn mineshafts_keep_to_their_chunk() {
    let chunk_box = BlockBox::new(0, 0, 0, 15, 255, 15);
    let room = BlockBox::new(-4, 50, 3, 20, 56, 9);
    let mut world = chunk(&[]);
    world.ground.filling = STONE;
    place_room(&mut world, &room, &chunk_box, AIR);
    for (pos, expected) in [
        (BlockPos::new(0, 51, 3), AIR),
        (BlockPos::new(15, 56, 9), AIR),
        (BlockPos::new(0, 50, 3), STONE),
        (BlockPos::new(-1, 51, 3), STONE),
        (BlockPos::new(16, 51, 3), STONE),
        (BlockPos::new(5, 57, 5), STONE),
    ] {
        assert_eq!(world.get_block_state(pos), expected, "{pos:?}");
    }
    let inside = BlockPos::new(3, 40, 5);
    let table = "chests/abandoned_mineshaft";
    let chest = place_loot_chest(&mut world, inside, &chunk_box, PLANKS, 77, table).unwrap();
    assert_eq!(world.get_block_state(inside), PLANKS);
    assert_eq!(chest.id, "minecraft:chest");
    assert_eq!(
        chest.loot_table_seed,
        77 ^ 3i64.rotate_left(13) ^ 5i64.rotate_left(7)
    );
    let negative = BlockBox::new(-16, 0, -16, -1, 255, -1);
    let corner = BlockPos::new(-3, 40, -5);
    assert_eq!(
        place_loot_chest(&mut world, corner, &negative, PLANKS, 77, "t")
            .unwrap()
            .loot_table_seed,
        77 ^ (-3i64).rotate_left(13) ^ (-5i64).rotate_left(7)
    );
    let outside = BlockPos::new(16, 40, 5);
    assert!(place_loot_chest(&mut world, outside, &chunk_box, PLANKS, 0, "t").is_none());
    assert_eq!(world.get_block_state(outside), STONE);
    let spawner =
        place_spawner(&mut world, inside, &chunk_box, PATH, "minecraft:cave_spider").unwrap();
    assert_eq!(world.get_block_state(inside), PATH);
    assert_eq!(spawner.id, "minecraft:mob_spawner");
    assert_eq!(spawner.entity_id, "minecraft:cave_spider");
    assert!(place_spawner(&mut world, outside, &chunk_box, PATH, "x").is_none());
    let probes = liquid_probes(&room);
    assert_eq!(probes[0], room.min);
    assert!(!is_in_liquid(&world, &room, &chunk_box));

    let flooded = BlockBox::new(4, 62, 4, 6, 66, 6);
    assert!(is_in_liquid(&world, &flooded, &chunk_box));
    place_room(&mut world, &flooded, &chunk_box, AIR);
    assert_eq!(world.get_block_state(BlockPos::new(5, 64, 5)), STONE);
    let elsewhere = BlockBox::new(16, 0, 0, 31, 255, 15);
    assert!(!is_in_liquid(&world, &flooded, &elsewhere));
}

#[test]
fn corridors_hold_their_loot_and_their_spiders() {
    let chunk_box = BlockBox::new(0, 0, 0, 15, 255, 15);
    let mut world = chunk(&[]);
    let at = BlockPos::new(3, 40, 5);
    let mut make = |edit: Edit, pos| {
        place_corridor_entity(&mut world, &edit, pos, &chunk_box, PLANKS, PATH, 77)
    };
    let chest = Edit::Chest { x: 2, y: 0, z: 1 };
    let spawner = Edit::Spawner { x: 1, y: 0, z: 2 };
    let Some(CorridorEntity::Chest(entity)) = make(chest, at) else {
        panic!("expected a chest");
    };
    assert_eq!(entity.id, "minecraft:chest");
    assert_eq!(entity.pos, at);
    assert_eq!(entity.loot_table, "minecraft:chests/abandoned_mineshaft");
    assert_eq!(
        entity.loot_table_seed,
        77 ^ 3i64.rotate_left(13) ^ 5i64.rotate_left(7)
    );
    let next = BlockPos::new(4, 40, 5);
    let Some(CorridorEntity::Spawner(entity)) = make(spawner, next) else {
        panic!("expected a spawner");
    };
    assert_eq!(entity.id, "minecraft:mob_spawner");
    assert_eq!(entity.pos, next);
    assert_eq!(entity.entity_id, "minecraft:cave_spider");
    let outside = BlockPos::new(16, 40, 5);
    assert!(make(chest, outside).is_none());
    assert!(make(spawner, outside).is_none());
    let air = Edit::Block {
        material: Material::Air,
        x: 0,
        y: 0,
        z: 0,
    };
    assert!(make(air, at).is_none());
    assert_eq!(world.get_block_state(at), PLANKS);
    assert_eq!(world.get_block_state(next), PATH);
    assert_eq!(world.get_block_state(outside), AIR);
}

#[test]
fn a_corridor_without_sections_has_two_pillars() {
    for num_sections in [0, -3] {
        let mut corridor = MineshaftCorridorPiece {
            mineshaft_type: MineshaftType::Normal,
            facing: None,
            num_sections,
            has_rails: true,
            spider_corridor: true,
            has_placed_spider: false,
        };
        let bounds = BlockBox::new(0, 30, 0, 2, 32, 14);
        let chunk_box = BlockBox::new(0, 0, 0, 15, 255, 15);
        let mut rng = ListedDraws::new(&[]);
        let edits = corridor.place(&chunk(&[]), &bounds, &chunk_box, &mut rng);
        let pillar = |x| Edit::FillDown {
            material: Material::OakLog,
            x,
            y: -1,
            z: 2,
        };
        assert_eq!(edits, [pillar(0), pillar(2)]);
    }
}

fn spread(spacing: i32) -> RandomSpreadStructurePlacement {
    RandomSpreadStructurePlacement {
        spacing,
        separation: 0,
        spread_type: SpreadType::Linear,
    }
}

fn placement(kind: StructurePlacementType) -> StructurePlacement {
    StructurePlacement {
        placement_type: kind,
        salt: 7,
    }
}

#[test]
fn the_nearest_structure_is_found() {
    let rings = vec![placement(StructurePlacementType::ConcentricRings)];
    let strongholds = vec![
        ChunkPos { x: 100, z: 0 },
        ChunkPos { x: 3, z: -4 },
        ChunkPos { x: -50, z: 1 },
    ];
    let origin = BlockPos::new(0, 64, 0);
    assert_eq!(
        find_nearest_structure(&SingleChunkRegions, origin, &rings, 10, &strongholds),
        Some(BlockPos::new(3 * 16 + 8, 0, -4 * 16 + 8))
    );
    assert_eq!(
        find_nearest_structure(&SingleChunkRegions, origin, &rings, 10, &Vec::new()),
        None
    );
    let regions = vec![placement(StructurePlacementType::RandomSpread(spread(1)))];
    assert_eq!(
        find_nearest_structure(
            &SingleChunkRegions,
            BlockPos::new(-20, 64, 33),
            &regions,
            5,
            &Vec::new()
        ),
        Some(BlockPos::new(-24, 0, 40))
    );
    assert_eq!(
        horizontal_distance_sq(BlockPos::new(1, 9, 1), BlockPos::new(4, -9, 5)),
        25
    );
}

#[test]
fn the_nearest_of_all_placements_is_found() {
    let at = |spacing| placement(StructurePlacementType::RandomSpread(spread(spacing)));
    let origin = BlockPos::new(168, 64, 168);
    let find = |placements: &Vec<StructurePlacement>, strongholds: &Vec<ChunkPos>| {
        find_nearest_structure(&SingleChunkRegions, origin, placements, 5, strongholds)
    };
    let near = Some(BlockPos::new(168, 0, 168));
    let far = Some(BlockPos::new(88, 0, 88));
    assert_eq!(find(&vec![at(2)], &Vec::new()), far);
    assert_eq!(find(&vec![at(2), at(1)], &Vec::new()), near);
    assert_eq!(find(&vec![at(1), at(2)], &Vec::new()), near);
    let rings = placement(StructurePlacementType::ConcentricRings);
    let strongholds = vec![ChunkPos { x: 9, z: 10 }];
    let ringed = Some(BlockPos::new(152, 0, 168));
    assert_eq!(find(&vec![at(2), rings], &strongholds), ringed);
    assert_eq!(find(&vec![rings, at(1)], &strongholds), near);
    assert_eq!(find(&Vec::new(), &strongholds), None);
}

fn village(structure: u16, weight: u32) -> VillageStructure {
    VillageStructure {
        structure,
        weight,
        has_start_pool: true,
        settings: StructureSettings {
            start_height: None,
            project_start_to_heightmap: true,
            max_distance_from_center: None,
            liquid_settings: None,
            dimension_padding: None,
        },
        allowed_biomes: Some(vec![1]),
    }
}

fn start(structure: u16, x: i32, z: i32, template: &str) -> ListedStart {
    ListedStart {
        structure,
        chunk: ChunkPos { x, z },
        start: VillageStart {
            start_pos: BlockPos::new(x * 16, 70, z * 16),
            element: single(template, 1).kind,
        },
    }
}

#[test]
fn the_nearest_abandoned_village_is_found() {
    let starts = [
        start(5, 1, 0, "minecraft:village/plains/town_centers/fountain"),
        start(5, -2, 2, "minecraft:village/plains/zombie/town_centers/fountain"),
        start(5, 4, 4, "minecraft:village/plains/zombie/town_centers/fountain"),
        start(6, 0, 0, "minecraft:village/desert/zombie/town_centers/well"),
    ];
    let world = ListedVillages {
        starts: &starts,
        biome: 1,
        draws: &[],
    };
    let mut villages = VillageSet {
        placement: placement(StructurePlacementType::RandomSpread(spread(1))),
        structures: vec![village(5, 1), village(6, 1)],
    };
    let origin = BlockPos::new(0, 64, 0);
    let find = |villages: &VillageSet, variant, radius, overworld| {
        find_nearest_abandoned_village(
            &SingleChunkRegions,
            &world,
            origin,
            variant,
            radius,
            overworld,
            villages,
            63,
        )
    };
    assert_eq!(
        find(&villages, 5, 10, true),
        Some(BlockPos::new(-32, 70, 32))
    );
    assert_eq!(find(&villages, 6, 10, true), Some(BlockPos::new(0, 70, 0)));
    assert_eq!(find(&villages, 5, 1, true), None);
    assert_eq!(find(&villages, 5, 10, false), None);
    assert_eq!(find(&villages, 9, 10, true), None);
    let generated = generated_village_at_chunk(
        &world,
        &villages.structures,
        ChunkPos { x: 1, z: 0 },
        63,
    )
    .unwrap();
    assert_eq!(generated.variant, 5);
    assert!(!generated.abandoned);
    villages.structures[0].allowed_biomes = Some(vec![2]);
    assert_eq!(find(&villages, 5, 10, true), None);
}

#[test]
fn boxes_and_turns() {
    let a = BlockBox::new(0, 1, 2, 5, 6, 7);
    assert_eq!(a.min, BlockPos::new(0, 1, 2));
    assert!(a.contains(5, 1, 7));
    assert!(!a.contains(6, 1, 7));
    assert!(a.intersects(&BlockBox::new(5, 6, 7, 9, 9, 9)));
    assert!(!a.intersects(&BlockBox::new(6, 6, 7, 9, 9, 9)));
    assert_eq!(BlockDirection::North.opposite(), BlockDirection::South);
    assert_eq!(BlockDirection::Up.opposite(), BlockDirection::Down);
    assert_eq!(BlockRotation::Clockwise90.rotate_offset(1, 0), (0, 1));
    assert_eq!(BlockRotation::Rotate180.rotate_offset(1, 2), (-1, -2));
    assert_eq!(
        BlockRotation::CounterClockwise90.transform_pos(
            BlockPos::new(0, 3, 0),
            BlockPos::new(4, 4, 2)
        ),
        BlockPos::new(0, 3, 3)
    );
    assert_eq!(floor_div(-1, 16), -1);
    assert_eq!(floor_div(31, 16), 1);
}
