use pumpkin::loot::chest::{fill_chest_inventory, shuffle_and_split_items};
use pumpkin::loot::condition::{
    apply_bonus_formula, apply_explosion_decay, chance_for, check_condition, count_successes, draw,
    handling_of, Handling,
};
use pumpkin::loot::generate::{draw_between, generate_loot, generate_loot_with_context};
use pumpkin::loot::table::{
    EnchantmentLevel, ItemStack, LootBonusFormula, LootCondition, LootContextParameters, LootEntry,
    LootPool, LootTable, Tool, AIR,
};
use pumpkin::random::{shuffle, ListedDraws, UNIT};
use pumpkin::registry::{from_name, from_registry_key, Entry};

const PLAIN: Handling = Handling {
    has_silk_touch: false,
    has_shears: false,
    fortune_level: 0,
};

fn enchanted_tool(name: &str, level: u16) -> Tool {
    Tool {
        registry_key: "minecraft:diamond_hoe".to_owned(),
        enchantments: vec![EnchantmentLevel {
            name: name.to_owned(),
            level,
        }],
    }
}

fn with_tool(tool: Option<Tool>) -> LootContextParameters {
    let mut params = LootContextParameters::default();
    params.tool = tool;
    params
}

fn items() -> Vec<Entry> {
    ["air", "oak_leaves", "oak_sapling", "stick", "apple"]
        .iter()
        .enumerate()
        .map(|(id, key)| Entry {
            id: id as u16,
            registry_key: (*key).to_owned(),
        })
        .collect()
}

const LEAVES: u16 = 1;
const SAPLING: u16 = 2;
const STICK: u16 = 3;

fn entry(item: &str, condition: LootCondition) -> LootEntry {
    LootEntry {
        item: item.to_owned(),
        weight: 1,
        min_count: 1,
        max_count: 1,
        condition,
        bonus_formula: None,
        explosion_decay: false,
    }
}

fn pool(entries: Vec<LootEntry>, condition: LootCondition) -> LootPool {
    LootPool {
        entries,
        min_rolls: 1,
        max_rolls: 1,
        empty_weight: 0,
        condition,
    }
}

/// Leaves that drop themselves, or else saplings and sticks.
fn leaves() -> LootTable {
    let mut sticks = entry("minecraft:stick", LootCondition::Always);
    sticks.max_count = 2;
    sticks.explosion_decay = true;
    LootTable {
        pools: vec![
            pool(
                vec![entry("minecraft:oak_leaves", LootCondition::Always)],
                LootCondition::SilkTouchOrShears,
            ),
            pool(
                vec![entry(
                    "minecraft:oak_sapling",
                    LootCondition::SurvivesExplosion,
                )],
                LootCondition::AllOf(vec![
                    LootCondition::NoSilkTouchOrShears,
                    LootCondition::TableBonus {
                        enchantment: "minecraft:fortune".to_owned(),
                        chances: vec![UNIT / 2, UNIT],
                    },
                ]),
            ),
            pool(vec![sticks], LootCondition::NoSilkTouchOrShears),
        ],
    }
}

fn drops(params: &LootContextParameters, numbers: &[u32]) -> Vec<(u16, u8)> {
    generate_loot_with_context(&leaves(), &items(), params, &mut ListedDraws::new(numbers))
        .iter()
        .map(|stack| (stack.item, stack.item_count))
        .collect()
}

#[test]
fn leaves_drop_only_themselves_with_shears_or_silk_touch() {
    let shears = Tool {
        registry_key: "minecraft:shears".to_owned(),
        enchantments: Vec::new(),
    };
    for tool in [shears, enchanted_tool("silk_touch", 1)] {
        let params = with_tool(Some(tool));
        for number in 0..64 {
            assert_eq!(
                drops(&params, &[number, number * 7, number]),
                [(LEAVES, 1)]
            );
        }
    }
}

#[test]
fn leaves_drop_saplings_and_sticks_by_chance() {
    let none = LootContextParameters::default();
    // The sapling's chance, its pick, the stick's pick, its count.
    assert_eq!(
        drops(&none, &[UNIT / 2 - 1, 0, 0, 1]),
        [(SAPLING, 1), (STICK, 2)]
    );
    assert_eq!(drops(&none, &[UNIT / 2, 0, 0]), [(STICK, 1)]);
    let fortune = with_tool(Some(enchanted_tool("minecraft:fortune", 3)));
    assert_eq!(
        drops(&fortune, &[UNIT - 1, 0, 0, 0]),
        [(SAPLING, 1), (STICK, 1)]
    );
    let looting = with_tool(Some(enchanted_tool("looting", 3)));
    for number in [0, UNIT / 2, UNIT - 1] {
        assert_eq!(drops(&looting, &[number]), drops(&none, &[number]));
    }
}

#[test]
fn explosions_take_drops_away() {
    let mut params = LootContextParameters::default();
    params.explosion_survival = Some(0);
    for number in 0..64 {
        assert!(drops(&params, &[number * 1_000_003, 5, number]).is_empty());
    }
    params.explosion_survival = Some(UNIT / 2);
    // No sapling; two sticks, of which the second survives.
    assert_eq!(
        drops(&params, &[UNIT - 1, 0, 1, UNIT / 2, UNIT / 2 - 1]),
        [(STICK, 1)]
    );
    assert_eq!(
        apply_explosion_decay(3, None, &mut ListedDraws::new(&[0])),
        3
    );
}

#[test]
fn table_bonus_uses_the_requested_enchantment_and_clamps_its_level() {
    let condition = LootCondition::TableBonus {
        enchantment: "minecraft:fortune".to_owned(),
        chances: vec![0, 0, UNIT],
    };
    for (tool, expected) in [
        (None, false),
        (Some(enchanted_tool("fortune", 1)), false),
        (Some(enchanted_tool("fortune", 2)), true),
        (Some(enchanted_tool("fortune", 100)), true),
        (Some(enchanted_tool("looting", 3)), false),
    ] {
        let params = with_tool(tool);
        for number in [0, 12_345, u32::MAX] {
            assert_eq!(
                check_condition(
                    &condition,
                    Handling {
                        has_silk_touch: false,
                        has_shears: false,
                        fortune_level: 100,
                    },
                    &params,
                    &mut ListedDraws::new(&[number])
                ),
                expected
            );
        }
    }
}

#[test]
fn conditions_hold_or_not() {
    let mut killed = LootContextParameters::default();
    killed.killed_by_player = Some(true);
    let none = LootContextParameters::default();
    let mut rng = ListedDraws::new(&[]);
    assert!(check_condition(
        &LootCondition::KilledByPlayer,
        PLAIN,
        &killed,
        &mut rng
    ));
    assert!(!check_condition(
        &LootCondition::KilledByPlayer,
        PLAIN,
        &none,
        &mut rng
    ));
    assert!(check_condition(
        &LootCondition::NoSilkTouch,
        PLAIN,
        &none,
        &mut rng
    ));
    assert!(!check_condition(
        &LootCondition::SilkTouch,
        PLAIN,
        &none,
        &mut rng
    ));
    assert!(!check_condition(
        &LootCondition::Shears,
        PLAIN,
        &none,
        &mut rng
    ));
    assert!(check_condition(
        &LootCondition::SurvivesExplosion,
        PLAIN,
        &none,
        &mut rng
    ));
    let bonus = LootCondition::RandomChanceWithEnchantedBonus {
        unenchanted_chance: 10,
        enchanted_chance_base: 20,
        enchanted_chance_per_level_above_first: 7,
    };
    for (level, below) in [(0, 10), (1, 20), (2, 27), (9, 76), (u16::MAX, 458_758)] {
        let with = Handling {
            fortune_level: level,
            ..PLAIN
        };
        let numbers = [below - 1, below];
        let mut rng = ListedDraws::new(&numbers[..1]);
        assert!(check_condition(&bonus, with, &none, &mut rng));
        let mut rng = ListedDraws::new(&numbers[1..]);
        assert!(!check_condition(&bonus, with, &none, &mut rng));
    }
    // A falling chance ends below zero, a rising one above the whole: one draw is made anyway.
    for (step, holds) in [(-11, false), (i32::MIN, false), (i32::MAX, true)] {
        let bonus = LootCondition::RandomChanceWithEnchantedBonus {
            unenchanted_chance: 10,
            enchanted_chance_base: 20,
            enchanted_chance_per_level_above_first: step,
        };
        let with = Handling {
            fortune_level: 3,
            ..PLAIN
        };
        for number in [0, UNIT - 1] {
            let numbers = [number, 0];
            let mut rng = ListedDraws::new(&numbers);
            assert_eq!(check_condition(&bonus, with, &none, &mut rng), holds);
            assert_eq!(rng.next, 1);
        }
    }
    // The first condition that fails is the last that draws.
    let all = LootCondition::AllOf(vec![
        LootCondition::RandomChance { chance: 5 },
        LootCondition::RandomChance { chance: 5 },
    ]);
    let mut rng = ListedDraws::new(&[5, 0, 0]);
    assert!(!check_condition(&all, PLAIN, &none, &mut rng));
    assert_eq!(rng.next, 1);
    let mut rng = ListedDraws::new(&[4, 4]);
    assert!(check_condition(&all, PLAIN, &none, &mut rng));
    assert_eq!(chance_for(&vec![1, 2], 7), Some(2));
    assert_eq!(chance_for(&Vec::new(), 0), None);
}

#[test]
fn the_better_of_fortune_and_looting_counts() {
    let mut tool = enchanted_tool("fortune", 2);
    tool.enchantments.push(EnchantmentLevel {
        name: "minecraft:looting".to_owned(),
        level: 3,
    });
    assert_eq!(tool.get_enchantment_level("looting"), 3);
    assert_eq!(tool.get_enchantment_level("mending"), 0);
    assert_eq!(
        handling_of(&with_tool(Some(tool))),
        Handling {
            fortune_level: 3,
            ..PLAIN
        }
    );
    assert_eq!(handling_of(&LootContextParameters::default()), PLAIN);
}

#[test]
fn bonuses_follow_their_formulas() {
    let ore = LootBonusFormula::OreDrops;
    for (number, expected) in [(0, 3), (1, 3), (2, 6), (3, 9), (4, 12)] {
        let numbers = [number];
        let mut rng = ListedDraws::new(&numbers);
        assert_eq!(apply_bonus_formula(3, ore, 3, &mut rng), expected);
    }
    let mut rng = ListedDraws::new(&[4]);
    assert_eq!(apply_bonus_formula(3, ore, 0, &mut rng), 3);
    assert_eq!(rng.next, 0);
    let uniform = LootBonusFormula::UniformBonusCount(2);
    let mut rng = ListedDraws::new(&[6]);
    assert_eq!(apply_bonus_formula(1, uniform, 3, &mut rng), 7);
    let binomial = LootBonusFormula::BinomialWithBonusCount {
        extra: 1,
        probability: 10,
    };
    let mut rng = ListedDraws::new(&[9, 10, 0]);
    assert_eq!(apply_bonus_formula(1, binomial, 2, &mut rng), 3);
    assert_eq!(
        count_successes(10, 4, &mut ListedDraws::new(&[9, 10, 11, 0])),
        2
    );
    assert!(draw(1, &mut ListedDraws::new(&[0])));
    assert!(!draw(0, &mut ListedDraws::new(&[0])));
}

#[test]
fn rolls_are_drawn_by_weight() {
    let mut heavy = entry("stick", LootCondition::Always);
    heavy.weight = 3;
    let mut table = LootTable {
        pools: vec![pool(
            vec![entry("apple", LootCondition::Always), heavy],
            LootCondition::Always,
        )],
    };
    table.pools[0].empty_weight = 2;
    for (number, expected) in [
        (0, None),
        (1, None),
        (2, Some(4)),
        (3, Some(3)),
        (5, Some(3)),
        (6, None),
    ] {
        let found = generate_loot(&table, &items(), &mut ListedDraws::new(&[number]));
        assert_eq!(found.first().map(|s| s.item), expected, "{number}");
    }
    table.pools[0].max_rolls = 3;
    let found = generate_loot(&table, &items(), &mut ListedDraws::new(&[2, 2, 0, 3]));
    assert_eq!(found.iter().map(|s| s.item).collect::<Vec<_>>(), [4, 3]);
    table.pools[0].entries[0].item = "unknown".to_owned();
    assert!(generate_loot(&table, &items(), &mut ListedDraws::new(&[0, 2])).is_empty());
    assert_eq!(draw_between(2, 5, &mut ListedDraws::new(&[3])), 5);
    assert_eq!(draw_between(2, 2, &mut ListedDraws::new(&[3])), 2);
}

fn total(stacks: &[ItemStack], item: u16) -> u32 {
    stacks
        .iter()
        .filter(|s| s.item == item)
        .map(|s| u32::from(s.item_count))
        .sum()
}

#[test]
fn splitting_keeps_every_item() {
    let numbers: Vec<u32> = (0..200).map(|i| i * 2_654_435_761u32.rotate_left(3)).collect();
    for slots in 0..40 {
        let mut stacks = vec![
            ItemStack::new(64, STICK),
            ItemStack::new(1, SAPLING),
            ItemStack::new(0, LEAVES),
            ItemStack::new(9, LEAVES),
        ];
        shuffle_and_split_items(&mut stacks, slots, &mut ListedDraws::new(&numbers));
        assert_eq!(total(&stacks, STICK), 64);
        assert_eq!(total(&stacks, SAPLING), 1);
        assert_eq!(total(&stacks, LEAVES), 9);
        assert!((3..=slots.max(3)).contains(&stacks.len()));
        assert!(stacks.iter().all(|s| !s.is_empty()));
    }
}

#[test]
fn chests_keep_what_they_hold() {
    let mut bundle = entry("stick", LootCondition::Always);
    bundle.min_count = 10;
    bundle.max_count = 10;
    let table = LootTable {
        pools: vec![pool(vec![bundle], LootCondition::Always)],
    };
    let mut inventory = vec![ItemStack::new(0, AIR); 27];
    inventory[5] = ItemStack::new(3, LEAVES);
    let numbers: Vec<u32> = (0..300).map(|i| i * 97 + 13).collect();
    let rng = ListedDraws::new(&numbers);
    assert!(fill_chest_inventory(&mut inventory, &table, &items(), &rng));
    assert_eq!(inventory[5], ItemStack::new(3, LEAVES));
    assert_eq!(total(&inventory, STICK), 10);
    assert_eq!(rng.next, 0);

    let mut full = vec![ItemStack::new(1, LEAVES); 3];
    assert!(!fill_chest_inventory(&mut full, &table, &items(), &rng));
    assert_eq!(full, vec![ItemStack::new(1, LEAVES); 3]);
    let empty = LootTable { pools: Vec::new() };
    assert!(fill_chest_inventory(&mut full, &empty, &items(), &rng));
}

#[test]
fn names_may_leave_out_the_namespace() {
    assert_eq!(from_name(&items(), "minecraft:stick"), Some(STICK));
    assert_eq!(from_name(&items(), "stick"), Some(STICK));
    assert_eq!(from_registry_key(&items(), "minecraft:stick"), None);
    assert_eq!(from_name(&items(), "other:stick"), None);
}

#[test]
fn shuffling_keeps_the_items() {
    let mut items: Vec<u32> = (0..10).collect();
    shuffle(&mut items, &mut ListedDraws::new(&[3, 8, 1, 1, 4, 0, 2]));
    assert_ne!(items, (0..10).collect::<Vec<_>>());
    items.sort_unstable();
    assert_eq!(items, (0..10).collect::<Vec<_>>());
}
