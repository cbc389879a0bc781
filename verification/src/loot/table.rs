//! Loot tables and the circumstances that they are rolled in.

use crate::random::Chance;
use crate::registry::{plain_key, plain_key_of};
use crate::text::str_eq;
use vstd::prelude::*;

verus! {

/// The id of the item that stands for nothing.
pub const AIR: u16 = 0;

/// A number of items of one kind.
#[derive(Clone, Copy, Debug, PartialEq, Eq, Structural)]
pub struct ItemStack {
    pub item: u16,
    pub item_count: u8,
}

impl ItemStack {
    /// A stack of `count` items.
    pub fn new(item_count: u8, item: u16) -> (r: Self)
        ensures
            r == (ItemStack { item, item_count }),
    {
        ItemStack { item, item_count }
    }

    /// Whether the stack stands for nothing.
    pub open spec fn nothing(self) -> bool {
        self.item_count == 0 || self.item == AIR
    }

    /// Whether the stack stands for nothing.
    pub fn is_empty(&self) -> (r: bool)
        ensures
            r == self.nothing(),
    {
        self.item_count == 0 || self.item == AIR
    }
}

/// An enchantment on a tool.
#[derive(Debug)]
pub struct EnchantmentLevel {
    pub name: String,
    pub level: u16,
}

/// The tool that loot is taken with.
#[derive(Debug)]
pub struct Tool {
    pub registry_key: String,
    pub enchantments: Vec<EnchantmentLevel>,
}

/// The level of the first enchantment with a name, looked up from the `from`th on.
pub open spec fn level_from(
    enchantments: Seq<EnchantmentLevel>,
    name: Seq<char>,
    from: int,
) -> u16
    decreases enchantments.len() - from,
{
    if from < 0 || from >= enchantments.len() {
        0
    } else if plain_key(enchantments[from].name@) == plain_key(name) {
        enchantments[from].level
    } else {
        level_from(enchantments, name, from + 1)
    }
}

impl Tool {
    /// The level of an enchantment, zero where the tool does not have it.
    pub open spec fn level(self, name: Seq<char>) -> u16 {
        level_from(self.enchantments@, name, 0)
    }

    /// The level of an enchantment, zero where the tool does not have it.
    pub fn get_enchantment_level(&self, name: &str) -> (r: u16)
        ensures
            r == self.level(name@),
    {
        let wanted = plain_key_of(name);
        let mut i: usize = 0;
        while i < self.enchantments.len()
            invariant
                i <= self.enchantments@.len(),
                wanted@ == plain_key(name@),
                self.level(name@) == level_from(self.enchantments@, name@, i as int),
            decreases self.enchantments.len() - i,
        {
            let key = plain_key_of(self.enchantments[i].name.as_str());
            if str_eq(key.as_str(), wanted.as_str()) {
                return self.enchantments[i].level;
            }
            i = i + 1;
        }
        0
    }
}

/// The circumstances of a drop. What floating-point numbers say of a drop's odds is held
/// as chances; the others are held as their bits.
#[derive(Debug)]
pub struct LootContextParameters {
    /// The chance of what an explosion takes part in to survive it.
    pub explosion_survival: Option<Chance>,
    pub block_state: Option<u16>,
    pub killed_by_player: Option<bool>,
    pub luck_bits: u32,
    pub this_entity: Option<u16>,
    pub killer_entity: Option<u16>,
    pub direct_killer_entity: Option<u16>,
    pub position_bits: Option<(u64, u64, u64)>,
    pub world_time: u64,
    pub damage_type: Option<u8>,
    pub tool: Option<Tool>,
    pub is_raining: Option<bool>,
    pub is_thundering: Option<bool>,
    /// Whether a killed entity was on fire when it died.
    pub is_on_fire: Option<bool>,
}

impl Default for LootContextParameters {
    fn default() -> (r: Self)
        ensures
            r == no_circumstances(),
    {
        LootContextParameters {
            explosion_survival: None,
            block_state: None,
            killed_by_player: None,
            luck_bits: 0,
            this_entity: None,
            killer_entity: None,
            direct_killer_entity: None,
            position_bits: None,
            world_time: 0,
            damage_type: None,
            tool: None,
            is_raining: None,
            is_thundering: None,
            is_on_fire: None,
        }
    }
}

/// Circumstances that nothing is known of.
pub open spec fn no_circumstances() -> LootContextParameters {
    LootContextParameters {
        explosion_survival: None,
        block_state: None,
        killed_by_player: None,
        luck_bits: 0,
        this_entity: None,
        killer_entity: None,
        direct_killer_entity: None,
        position_bits: None,
        world_time: 0,
        damage_type: None,
        tool: None,
        is_raining: None,
        is_thundering: None,
        is_on_fire: None,
    }
}

/// When a pool or an entry takes part.
#[derive(Debug)]
pub enum LootCondition {
    Always,
    SilkTouch,
    NoSilkTouch,
    Shears,
    SilkTouchOrShears,
    NoSilkTouchOrShears,
    KilledByPlayer,
    SurvivesExplosion,
    RandomChance { chance: Chance },
    /// One chance without the enchantment, and one for its first level that changes by a step
    /// with each level above. The step is on the scale of chances, and may be negative.
    RandomChanceWithEnchantedBonus {
        unenchanted_chance: Chance,
        enchanted_chance_base: Chance,
        enchanted_chance_per_level_above_first: i32,
    },
    /// A chance for each level of an enchantment from zero on: those above the last one
    /// listed have that of the last.
    TableBonus { enchantment: String, chances: Vec<Chance> },
    AllOf(Vec<LootCondition>),
}

/// How an enchantment raises a count.
#[derive(Clone, Copy, Debug, PartialEq, Eq, Structural)]
pub enum LootBonusFormula {
    OreDrops,
    UniformBonusCount(i32),
    BinomialWithBonusCount { extra: i32, probability: Chance },
}

/// One thing that a pool can drop.
#[derive(Debug)]
pub struct LootEntry {
    pub item: String,
    pub weight: i32,
    pub min_count: i32,
    pub max_count: i32,
    pub condition: LootCondition,
    pub bonus_formula: Option<LootBonusFormula>,
    pub explosion_decay: bool,
}

/// Entries that are rolled together.
#[derive(Debug)]
pub struct LootPool {
    pub entries: Vec<LootEntry>,
    pub min_rolls: i32,
    pub max_rolls: i32,
    pub empty_weight: i32,
    pub condition: LootCondition,
}

/// The pools of one source of loot.
#[derive(Debug)]
pub struct LootTable {
    pub pools: Vec<LootPool>,
}

/// The level of an enchantment is that of the first with its name, with or without the game's
/// own namespace, and zero where there is none.
pub proof fn law_levels_are_found_by_name(
    enchantments: Seq<EnchantmentLevel>,
    name: Seq<char>,
    k: int,
)
    ensures
        0 <= k < enchantments.len() && plain_key(enchantments[k].name@) == plain_key(name) && (
        forall|j: int|
            0 <= j < k ==> plain_key((#[trigger] enchantments[j]).name@) != plain_key(name))
            ==> level_from(enchantments, name, 0) == enchantments[k].level,
        (forall|j: int|
            0 <= j < enchantments.len() ==> plain_key((#[trigger] enchantments[j]).name@)
                != plain_key(name)) ==> level_from(enchantments, name, 0) == 0,
{
    if 0 <= k < enchantments.len() && plain_key(enchantments[k].name@) == plain_key(name) && (
    forall|j: int|
        0 <= j < k ==> plain_key((#[trigger] enchantments[j]).name@) != plain_key(name)) {
        lemma_first_level(enchantments, name, 0, k);
    }
    if forall|j: int|
        0 <= j < enchantments.len() ==> plain_key((#[trigger] enchantments[j]).name@) != plain_key(
            name,
        ) {
        lemma_no_level(enchantments, name, 0);
    }
}

proof fn lemma_first_level(
    enchantments: Seq<EnchantmentLevel>,
    name: Seq<char>,
    from: int,
    k: int,
)
    requires
        0 <= from <= k < enchantments.len(),
        plain_key(enchantments[k].name@) == plain_key(name),
        forall|j: int|
            from <= j < k ==> plain_key((#[trigger] enchantments[j]).name@) != plain_key(name),
    ensures
        level_from(enchantments, name, from) == enchantments[k].level,
    decreases k - from,
{
    if from < k {
        lemma_first_level(enchantments, name, from + 1, k);
    }
}

proof fn lemma_no_level(enchantments: Seq<EnchantmentLevel>, name: Seq<char>, from: int)
    requires
        0 <= from,
        forall|j: int|
            from <= j < enchantments.len() ==> plain_key((#[trigger] enchantments[j]).name@)
                != plain_key(name),
    ensures
        level_from(enchantments, name, from) == 0,
    decreases enchantments.len() - from,
{
    if from < enchantments.len() {
        lemma_no_level(enchantments, name, from + 1);
    }
}

/// A stack stands for something just where it has items that are not air.
pub proof fn law_stacks_of_air_are_nothing(stack: ItemStack)
    ensures
        stack.nothing() <==> stack.item_count == 0 || stack.item == 0,
{
}

} // verus!
