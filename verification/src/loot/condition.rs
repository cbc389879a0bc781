//! Conditions, bonuses and decay: the draws that a loot table makes.

use super::table::{LootBonusFormula, LootCondition, LootContextParameters};
use crate::random::{Chance, RandomSource};
use vstd::prelude::*;

verus! {

/// What a tool says of a drop.
#[derive(Clone, Copy, Debug, PartialEq, Eq, Structural)]
pub struct Handling {
    pub has_silk_touch: bool,
    pub has_shears: bool,
    pub fortune_level: u16,
}

/// The handling by the tool of some circumstances.
pub open spec fn handling(params: LootContextParameters) -> Handling {
    match params.tool {
        None => Handling { has_silk_touch: false, has_shears: false, fortune_level: 0 },
        Some(tool) => {
            let fortune = tool.level("fortune"@);
            let looting = tool.level("looting"@);
            Handling {
                has_silk_touch: tool.level("silk_touch"@) > 0,
                has_shears: crate::registry::plain_key(tool.registry_key@) == "shears"@,
                fortune_level: if fortune >= looting {
                    fortune
                } else {
                    looting
                },
            }
        },
    }
}

/// Reads off the tool what it says of a drop.
pub fn handling_of(params: &LootContextParameters) -> (r: Handling)
    ensures
        r == handling(*params),
{
    match &params.tool {
        None => Handling { has_silk_touch: false, has_shears: false, fortune_level: 0 },
        Some(tool) => {
            let fortune: u16 = tool.get_enchantment_level("fortune");
            let looting: u16 = tool.get_enchantment_level("looting");
            let key = crate::registry::plain_key_of(tool.registry_key.as_str());
            Handling {
                has_silk_touch: tool.get_enchantment_level("silk_touch") > 0,
                has_shears: crate::text::str_eq(key.as_str(), "shears"),
                fortune_level: if fortune >= looting {
                    fortune
                } else {
                    looting
                },
            }
        },
    }
}

/// A draw against a chance.
pub open spec fn drawn<R: RandomSource>(chance: Chance, rng: R) -> (bool, R) {
    (rng.unit() < chance, rng.after_unit())
}

/// Draws against a chance.
pub fn draw<R: RandomSource>(chance: Chance, rng: &mut R) -> (r: bool)
    ensures
        (r, *final(rng)) == drawn(chance, *old(rng)),
{
    rng.next_unit() < chance
}

/// The chance with an enchantment of some level, of which level zero is that of none. It may
/// lie below zero or above the whole: then every draw fails or succeeds.
pub open spec fn enchanted_chance(unenchanted: Chance, base: Chance, step: i32, level: u16) -> int {
    if level > 0 {
        base + step * (level - 1)
    } else {
        unenchanted as int
    }
}

/// The chance with an enchantment of some level.
pub fn chance_with_enchantment(unenchanted: Chance, base: Chance, step: i32, level: u16) -> (r: i64)
    ensures
        r == enchanted_chance(unenchanted, base, step, level),
{
    if level > 0 {
        assert(-0x8000_0000 * 0xffff <= step * (level - 1) <= 0x7fff_ffff * 0xffff)
            by (nonlinear_arith)
            requires
                0 < level <= 0xffff,
                -0x8000_0000 <= step <= 0x7fff_ffff,
        ;
        base as i64 + step as i64 * (level as i64 - 1)
    } else {
        unenchanted as i64
    }
}

/// The chance that a list gives a level: its last chance stands for all levels above.
pub open spec fn chance_at(chances: Seq<Chance>, level: int) -> Option<Chance> {
    if chances.len() == 0 {
        None
    } else if level < chances.len() {
        Some(chances[level])
    } else {
        Some(chances.last())
    }
}

/// The chance that a list gives a level.
pub fn chance_for(chances: &Vec<Chance>, level: usize) -> (r: Option<Chance>)
    ensures
        r == chance_at(chances@, level as int),
{
    if chances.len() == 0 {
        None
    } else if level < chances.len() {
        Some(chances[level])
    } else {
        Some(chances[chances.len() - 1])
    }
}

/// A draw against a chance that may not be there: without one nothing is drawn, and it
/// fails.
pub open spec fn drawn_if_any<R: RandomSource>(chance: Option<Chance>, rng: R) -> (bool, R) {
    match chance {
        None => (false, rng),
        Some(chance) => drawn(chance, rng),
    }
}

fn draw_if_any<R: RandomSource>(chance: Option<Chance>, rng: &mut R) -> (r: bool)
    ensures
        (r, *final(rng)) == drawn_if_any(chance, *old(rng)),
{
    match chance {
        None => false,
        Some(chance) => draw(chance, rng),
    }
}

/// Whether a condition holds, and the source behind the draws that this takes.
pub open spec fn condition_holds<R: RandomSource>(
    cond: LootCondition,
    with: Handling,
    params: LootContextParameters,
    rng: R,
) -> (bool, R)
    decreases cond, 0nat,
{
    match cond {
        LootCondition::Always => (true, rng),
        LootCondition::SilkTouch => (with.has_silk_touch, rng),
        LootCondition::NoSilkTouch => (!with.has_silk_touch, rng),
        LootCondition::Shears => (with.has_shears, rng),
        LootCondition::SilkTouchOrShears => (with.has_silk_touch || with.has_shears, rng),
        LootCondition::NoSilkTouchOrShears => (!with.has_silk_touch && !with.has_shears, rng),
        LootCondition::KilledByPlayer => (params.killed_by_player == Some(true), rng),
        LootCondition::SurvivesExplosion => match params.explosion_survival {
            None => (true, rng),
            Some(chance) => drawn(chance, rng),
        },
        LootCondition::RandomChance { chance } => drawn(chance, rng),
        LootCondition::RandomChanceWithEnchantedBonus {
            unenchanted_chance,
            enchanted_chance_base,
            enchanted_chance_per_level_above_first,
        } => (
            rng.unit() < enchanted_chance(
                unenchanted_chance,
                enchanted_chance_base,
                enchanted_chance_per_level_above_first,
                with.fortune_level,
            ),
            rng.after_unit(),
        ),
        LootCondition::TableBonus { enchantment, chances } => {
            let level = match params.tool {
                None => 0,
                Some(tool) => tool.level(enchantment@),
            };
            drawn_if_any(chance_at(chances@, level as int), rng)
        },
        LootCondition::AllOf(conditions) => all_hold(conditions, 0, with, params, rng),
    }
}

/// Whether the conditions from the `from`th on all hold: the first that does not is the
/// last that is looked at.
pub open spec fn all_hold<R: RandomSource>(
    conditions: Vec<LootCondition>,
    from: nat,
    with: Handling,
    params: LootContextParameters,
    rng: R,
) -> (bool, R)
    decreases conditions, conditions@.len() - from,
{
    if from >= conditions@.len() {
        (true, rng)
    } else {
        let (holds, after) = condition_holds(conditions@[from as int], with, params, rng);
        if holds {
            all_hold(conditions, from + 1, with, params, after)
        } else {
            (false, after)
        }
    }
}

/// Whether a condition holds.
pub fn check_condition<R: RandomSource>(
    cond: &LootCondition,
    with: Handling,
    params: &LootContextParameters,
    rng: &mut R,
) -> (r: bool)
    ensures
        (r, *final(rng)) == condition_holds(*cond, with, *params, *old(rng)),
    decreases cond,
{
    match cond {
        LootCondition::Always => true,
        LootCondition::SilkTouch => with.has_silk_touch,
        LootCondition::NoSilkTouch => !with.has_silk_touch,
        LootCondition::Shears => with.has_shears,
        LootCondition::SilkTouchOrShears => with.has_silk_touch || with.has_shears,
        LootCondition::NoSilkTouchOrShears => !with.has_silk_touch && !with.has_shears,
        LootCondition::KilledByPlayer => match params.killed_by_player {
            Some(killed) => killed,
            None => false,
        },
        LootCondition::SurvivesExplosion => match params.explosion_survival {
            None => true,
            Some(chance) => draw(chance, rng),
        },
        LootCondition::RandomChance { chance } => draw(*chance, rng),
        LootCondition::RandomChanceWithEnchantedBonus {
            unenchanted_chance,
            enchanted_chance_base,
            enchanted_chance_per_level_above_first,
        } => {
            let chance: i64 = chance_with_enchantment(
                *unenchanted_chance,
                *enchanted_chance_base,
                *enchanted_chance_per_level_above_first,
                with.fortune_level,
            );
            (rng.next_unit() as i64) < chance
        },
        LootCondition::TableBonus { enchantment, chances } => {
            let level: u16 = match &params.tool {
                None => 0,
                Some(tool) => tool.get_enchantment_level(enchantment.as_str()),
            };
            draw_if_any(chance_for(chances, level as usize), rng)
        },
        LootCondition::AllOf(conditions) => {
            let mut i: usize = 0;
            while i < conditions.len()
                invariant
                    i <= conditions@.len(),
                    *cond == LootCondition::AllOf(*conditions),
                    all_hold(*conditions, 0, with, *params, *old(rng)) == all_hold(
                        *conditions,
                        i as nat,
                        with,
                        *params,
                        *rng,
                    ),
                decreases conditions.len() - i,
            {
                assert(decreases_to!(cond => cond->AllOf_0));
                assert(decreases_to!(conditions => conditions@));
                assert(decreases_to!(conditions@ => conditions@[i as int]));
                if !check_condition(&conditions[i], with, params, rng) {
                    return false;
                }
                i = i + 1;
            }
            true
        },
    }
}

/// How many of `n` draws succeed, and the source behind them.
pub open spec fn successes<R: RandomSource>(chance: Chance, n: nat, rng: R) -> (nat, R)
    decreases n,
{
    if n == 0 {
        (0, rng)
    } else {
        let (before, last) = successes(chance, (n - 1) as nat, rng);
        let (hit, after) = drawn(chance, last);
        (
            before + if hit {
                1nat
            } else {
                0
            },
            after,
        )
    }
}

/// Counts the draws that succeed.
pub fn count_successes<R: RandomSource>(chance: Chance, n: i32, rng: &mut R) -> (r: i32)
    ensures
        0 <= r,
        n >= 0 ==> r <= n,
        (r as nat, *final(rng)) == successes(
            chance,
            (if n > 0 {
                n as nat
            } else {
                0
            }),
            *old(rng),
        ),
{
    let mut i: i32 = 0;
    let mut hits: i32 = 0;
    while i < n
        invariant
            0 <= hits <= i,
            n > 0 ==> i <= n,
            n <= 0 ==> i == 0,
            (hits as nat, *rng) == successes(chance, i as nat, *old(rng)),
        decreases n - i,
    {
        if draw(chance, rng) {
            hits = hits + 1;
        }
        i = i + 1;
    }
    hits
}

/// A count raised by a bonus, and the source behind the draws that this takes.
pub open spec fn bonus_applied<R: RandomSource>(
    base: int,
    bonus: LootBonusFormula,
    fortune_level: u16,
    rng: R,
) -> (int, R) {
    match bonus {
        LootBonusFormula::OreDrops => if fortune_level > 0 {
            let draw = rng.bounded(fortune_level + 2);
            (
                base * if draw >= 1 {
                    draw
                } else {
                    1
                },
                rng.after_bounded(fortune_level + 2),
            )
        } else {
            (base, rng)
        },
        LootBonusFormula::UniformBonusCount(multiplier) => {
            let most = fortune_level * multiplier;
            if most > 0 {
                (base + rng.bounded(most + 1), rng.after_bounded(most + 1))
            } else {
                (base, rng)
            }
        },
        LootBonusFormula::BinomialWithBonusCount { extra, probability } => {
            let n = fortune_level + extra;
            let (hits, after) = successes(
                probability,
                if n > 0 {
                    n as nat
                } else {
                    0
                },
                rng,
            );
            (base + hits, after)
        },
    }
}

/// Whether a raised count always fits in its type.
pub open spec fn bonus_fits(base: int, bonus: LootBonusFormula, fortune_level: u16) -> bool {
    match bonus {
        LootBonusFormula::OreDrops => i32::MIN <= base * (fortune_level + 1) <= i32::MAX,
        LootBonusFormula::UniformBonusCount(multiplier) => {
            &&& i32::MIN <= fortune_level * multiplier < i32::MAX
            &&& fortune_level * multiplier > 0 ==> base + fortune_level * multiplier <= i32::MAX
        },
        LootBonusFormula::BinomialWithBonusCount { extra, .. } => {
            &&& fortune_level + extra <= i32::MAX
            &&& fortune_level + extra > 0 ==> base + fortune_level + extra <= i32::MAX
        },
    }
}

/// Raises a count by a bonus.
pub fn apply_bonus_formula<R: RandomSource>(
    base_count: i32,
    bonus: LootBonusFormula,
    fortune_level: u16,
    rng: &mut R,
) -> (r: i32)
    requires
        bonus_fits(base_count as int, bonus, fortune_level),
    ensures
        (r as int, *final(rng)) == bonus_applied(base_count as int, bonus, fortune_level, *old(rng)),
{
    let level: i32 = fortune_level as i32;
    match bonus {
        LootBonusFormula::OreDrops => if level > 0 {
            let draw: i32 = rng.next_bounded_i32(level + 2);
            let factor: i32 = if draw >= 1 {
                draw
            } else {
                1
            };
            assert(i32::MIN <= base_count * factor <= i32::MAX) by (nonlinear_arith)
                requires
                    1 <= factor <= level + 1,
                    i32::MIN <= base_count * (level + 1) <= i32::MAX,
                    i32::MIN <= base_count <= i32::MAX,
            ;
            base_count * factor
        } else {
            base_count
        },
        LootBonusFormula::UniformBonusCount(multiplier) => {
            let most: i32 = level * multiplier;
            if most > 0 {
                base_count + rng.next_bounded_i32(most + 1)
            } else {
                base_count
            }
        },
        LootBonusFormula::BinomialWithBonusCount { extra, probability } => {
            base_count + count_successes(probability, level + extra, rng)
        },
    }
}

/// What an explosion leaves of a count, and the source behind the draws that this takes.
pub open spec fn decayed<R: RandomSource>(count: int, survival: Option<Chance>, rng: R) -> (int, R) {
    match survival {
        None => (count, rng),
        Some(chance) => {
            let (left, after) = successes(
                chance,
                if count > 0 {
                    count as nat
                } else {
                    0
                },
                rng,
            );
            (left as int, after)
        },
    }
}

/// Lets each of a number of items survive an explosion by chance.
pub fn apply_explosion_decay<R: RandomSource>(
    count: i32,
    survival: Option<Chance>,
    rng: &mut R,
) -> (r: i32)
    ensures
        (r as int, *final(rng)) == decayed(count as int, survival, *old(rng)),
{
    match survival {
        None => count,
        Some(chance) => count_successes(chance, count, rng),
    }
}

proof fn lemma_successes_bound<R: RandomSource>(chance: Chance, n: nat, rng: R)
    ensures
        successes(chance, n, rng).0 <= n,
    decreases n,
{
    if n > 0 {
        lemma_successes_bound(chance, (n - 1) as nat, rng);
    }
}

/// An explosion never adds items: of a positive count at most the count is left.
pub proof fn law_decay_only_removes<R: RandomSource>(count: int, survival: Option<Chance>, rng: R)
    requires
        count >= 0,
    ensures
        0 <= decayed(count, survival, rng).0 <= count,
{
    if survival is Some {
        lemma_successes_bound(survival->0, count as nat, rng);
    }
}

/// A bonus never lowers a positive count.
pub proof fn law_bonus_only_adds<R: RandomSource>(
    base: int,
    bonus: LootBonusFormula,
    fortune_level: u16,
    rng: R,
)
    requires
        base >= 0,
    ensures
        bonus_applied(base, bonus, fortune_level, rng).0 >= base,
{
    match bonus {
        LootBonusFormula::OreDrops => {
            if fortune_level > 0 {
                rng.draws_below(fortune_level + 2);
                let draw = rng.bounded(fortune_level + 2);
                if draw >= 1 {
                    assert(base * draw >= base) by (nonlinear_arith)
                        requires
                            base >= 0,
                            draw >= 1,
                    ;
                }
            }
        },
        LootBonusFormula::UniformBonusCount(multiplier) => {
            if fortune_level * multiplier > 0 {
                rng.draws_below(fortune_level * multiplier + 1);
            }
        },
        LootBonusFormula::BinomialWithBonusCount { .. } => {},
    }
}

/// What the tool alone decides: the conditions on silk touch and shears are what their names
/// say, their opposites are their negations, and none of them draws.
pub proof fn law_tools_decide_without_a_draw<R: RandomSource>(
    with: Handling,
    params: LootContextParameters,
    rng: R,
)
    ensures
        condition_holds(LootCondition::Always, with, params, rng) == (true, rng),
        condition_holds(LootCondition::SilkTouch, with, params, rng) == (with.has_silk_touch, rng),
        condition_holds(LootCondition::Shears, with, params, rng) == (with.has_shears, rng),
        condition_holds(LootCondition::NoSilkTouch, with, params, rng) == (
            !condition_holds(LootCondition::SilkTouch, with, params, rng).0,
            rng,
        ),
        condition_holds(LootCondition::SilkTouchOrShears, with, params, rng) == (
            condition_holds(LootCondition::SilkTouch, with, params, rng).0 || condition_holds(
                LootCondition::Shears,
                with,
                params,
                rng,
            ).0,
            rng,
        ),
        condition_holds(LootCondition::NoSilkTouchOrShears, with, params, rng) == (
            !condition_holds(LootCondition::SilkTouchOrShears, with, params, rng).0,
            rng,
        ),
        condition_holds(LootCondition::KilledByPlayer, with, params, rng) == (
            params.killed_by_player is Some && params.killed_by_player->0,
            rng,
        ),
{
}

/// A chance is a draw below it: none is ever made for nothing, and none is needed where there
/// was no explosion.
pub proof fn law_chances_are_draws<R: RandomSource>(
    chance: Chance,
    with: Handling,
    params: LootContextParameters,
    rng: R,
)
    ensures
        condition_holds(LootCondition::RandomChance { chance }, with, params, rng).0
            <==> rng.unit() < chance,
        condition_holds(LootCondition::RandomChance { chance }, with, params, rng).1
            == rng.after_unit(),
        params.explosion_survival is None ==> condition_holds(
            LootCondition::SurvivesExplosion,
            with,
            params,
            rng,
        ) == (true, rng),
        params.explosion_survival == Some(chance) ==> condition_holds(
            LootCondition::SurvivesExplosion,
            with,
            params,
            rng,
        ) == condition_holds(LootCondition::RandomChance { chance }, with, params, rng),
{
}

/// Each level of an enchantment above the first changes its chance by the step; the first has
/// the base, and without the enchantment there is a chance of its own.
pub proof fn law_each_level_changes_the_chance<R: RandomSource>(
    unenchanted: Chance,
    base: Chance,
    step: i32,
    level: u16,
    with: Handling,
    params: LootContextParameters,
    rng: R,
)
    requires
        level < u16::MAX,
    ensures
        enchanted_chance(unenchanted, base, step, 0) == unenchanted,
        enchanted_chance(unenchanted, base, step, 1) == base,
        level > 0 ==> enchanted_chance(unenchanted, base, step, (level + 1) as u16)
            - enchanted_chance(unenchanted, base, step, level) == step,
        ({
            let bonus = LootCondition::RandomChanceWithEnchantedBonus {
                unenchanted_chance: unenchanted,
                enchanted_chance_base: base,
                enchanted_chance_per_level_above_first: step,
            };
            &&& condition_holds(bonus, with, params, rng).0 <==> rng.unit() < enchanted_chance(
                unenchanted,
                base,
                step,
                with.fortune_level,
            )
            &&& condition_holds(bonus, with, params, rng).1 == rng.after_unit()
        }),
{
    if level > 0 {
        assert(step * level - step * (level - 1) == step) by (nonlinear_arith);
    }
}

/// A table of chances is read at the level that the tool has of the named enchantment, and
/// at its end for all levels above. A tool without it, and no tool, have level zero.
pub proof fn law_tables_are_read_at_the_level<R: RandomSource>(
    enchantment: String,
    chances: Vec<Chance>,
    with: Handling,
    params: LootContextParameters,
    rng: R,
)
    ensures
        ({
            let level = match params.tool {
                Some(tool) => tool.level(enchantment@) as int,
                None => 0,
            };
            let held = condition_holds(
                LootCondition::TableBonus { enchantment, chances },
                with,
                params,
                rng,
            );
            &&& chances@.len() == 0 ==> held == (false, rng)
            &&& chances@.len() > 0 ==> held.1 == rng.after_unit()
            &&& 0 <= level < chances@.len() ==> (held.0 <==> rng.unit() < chances@[level])
            &&& 0 < chances@.len() <= level ==> (held.0 <==> rng.unit() < chances@[chances@.len()
                - 1])
        }),
{
}

proof fn lemma_all_hold_prefix<R: RandomSource>(
    shorter: Vec<LootCondition>,
    longer: Vec<LootCondition>,
    last: LootCondition,
    from: nat,
    with: Handling,
    params: LootContextParameters,
    rng: R,
)
    requires
        longer@ == shorter@.push(last),
        from <= shorter@.len(),
    ensures
        all_hold(longer, from, with, params, rng) == ({
            let (held, after) = all_hold(shorter, from, with, params, rng);
            if held {
                condition_holds(last, with, params, after)
            } else {
                (held, after)
            }
        }),
    decreases shorter@.len() - from,
{
    if from < shorter@.len() {
        assert(longer@[from as int] == shorter@[from as int]);
        let (held, after) = condition_holds(shorter@[from as int], with, params, rng);
        if held {
            lemma_all_hold_prefix(shorter, longer, last, from + 1, with, params, after);
        }
    } else {
        assert(longer@[from as int] == last);
        assert(all_hold(longer, from + 1, with, params, rng) == (true, rng));
        let (held, after) = condition_holds(last, with, params, rng);
        assert(all_hold(longer, from + 1, with, params, after) == (true, after));
    }
}

/// Several conditions hold where all of them do, one after the other: one more is looked at
/// only where those before it hold, and draws behind them. No conditions hold without a draw.
pub proof fn law_all_conditions_have_to_hold<R: RandomSource>(
    shorter: Vec<LootCondition>,
    longer: Vec<LootCondition>,
    last: LootCondition,
    with: Handling,
    params: LootContextParameters,
    rng: R,
)
    requires
        longer@ == shorter@.push(last),
    ensures
        shorter@.len() == 0 ==> condition_holds(
            LootCondition::AllOf(shorter),
            with,
            params,
            rng,
        ) == (true, rng),
        ({
            let (held, after) = condition_holds(LootCondition::AllOf(shorter), with, params, rng);
            condition_holds(LootCondition::AllOf(longer), with, params, rng) == (if held {
                condition_holds(last, with, params, after)
            } else {
                (false, after)
            })
        }),
{
    lemma_all_hold_prefix(shorter, longer, last, 0, with, params, rng);
}

/// Draws are counted one by one: each succeeds below the chance, and what two runs of draws
/// count is what one run of both counts.
pub proof fn law_successes_add_up<R: RandomSource>(chance: Chance, n: nat, m: nat, rng: R)
    ensures
        successes(chance, 0, rng) == (0nat, rng),
        successes(chance, 1, rng) == (
            if rng.unit() < chance {
                1nat
            } else {
                0
            },
            rng.after_unit(),
        ),
        ({
            let (first, between) = successes(chance, n, rng);
            let (second, after) = successes(chance, m, between);
            successes(chance, n + m, rng) == (first + second, after)
        }),
    decreases m,
{
    reveal_with_fuel(successes, 2);
    if m > 0 {
        law_successes_add_up(chance, n, (m - 1) as nat, rng);
    }
}

/// What a bonus makes of a count: of an ore as many times the count as is drawn below two more
/// than the level, once at least; or a number up to a multiple of the level more; or as many
/// more as of a number of draws, one for each level and some others, succeed. Without the
/// enchantment an ore's count stays, and so does one whose multiple or number is not above
/// zero.
pub proof fn law_bonuses_are_what_they_say<R: RandomSource>(
    base: int,
    multiplier: i32,
    extra: i32,
    probability: Chance,
    fortune_level: u16,
    rng: R,
)
    ensures
        ({
            let (count, after) = bonus_applied(base, LootBonusFormula::OreDrops, fortune_level, rng);
            let draw = rng.bounded(fortune_level + 2);
            let bonus = if draw - 1 > 0 {
                draw - 1
            } else {
                0
            };
            if fortune_level == 0 {
                (count, after) == (base, rng)
            } else {
                count == base * (bonus + 1) && after == rng.after_bounded(fortune_level + 2)
            }
        }),
        ({
            let (count, after) = bonus_applied(
                base,
                LootBonusFormula::UniformBonusCount(multiplier),
                fortune_level,
                rng,
            );
            let most = fortune_level * multiplier;
            if most <= 0 {
                (count, after) == (base, rng)
            } else {
                count - base == rng.bounded(most + 1) && after == rng.after_bounded(most + 1)
            }
        }),
        ({
            let (count, after) = bonus_applied(
                base,
                LootBonusFormula::BinomialWithBonusCount { extra, probability },
                fortune_level,
                rng,
            );
            let n = fortune_level + extra;
            if n <= 0 {
                (count, after) == (base, rng)
            } else {
                (count - base, after) == (
                    successes(probability, n as nat, rng).0 as int,
                    successes(probability, n as nat, rng).1,
                )
            }
        }),
{
}

/// Each item survives an explosion by a draw of its own: what is left of a count and one more
/// item is what is left of the count, and that item where its draw succeeds.
pub proof fn law_each_item_survives_by_itself<R: RandomSource>(
    count: nat,
    survival: Chance,
    rng: R,
)
    ensures
        decayed(count as int, None, rng) == (count as int, rng),
        decayed(0, Some(survival), rng) == (0int, rng),
        ({
            let (left, between) = decayed(count as int, Some(survival), rng);
            decayed(count as int + 1, Some(survival), rng) == (
                left + if between.unit() < survival {
                    1int
                } else {
                    0
                },
                between.after_unit(),
            )
        }),
{
}

/// The level that counts is the better of fortune and looting, zero without a tool.
pub proof fn law_the_better_enchantment_counts(params: LootContextParameters)
    ensures
        params.tool is None ==> handling(params) == (Handling {
            has_silk_touch: false,
            has_shears: false,
            fortune_level: 0,
        }),
        params.tool matches Some(tool) ==> {
            let h = handling(params);
            &&& h.fortune_level >= tool.level("fortune"@)
            &&& h.fortune_level >= tool.level("looting"@)
            &&& h.fortune_level == tool.level("fortune"@) || h.fortune_level == tool.level(
                "looting"@,
            )
            &&& h.has_silk_touch <==> tool.level("silk_touch"@) > 0
            &&& h.has_shears <==> crate::registry::plain_key(tool.registry_key@) == "shears"@
        },
{
}

} // verus!
