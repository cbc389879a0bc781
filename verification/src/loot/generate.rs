//! Rolling a loot table.

use super::condition::{
    apply_bonus_formula, apply_explosion_decay, bonus_applied, bonus_fits, check_condition,
    condition_holds, decayed, handling, handling_of, Handling,
};
use super::table::{
    no_circumstances, ItemStack, LootContextParameters, LootEntry, LootPool, LootTable,
};
use crate::random::RandomSource;
use crate::registry::{from_name, id_with_key, plain_key, Entry};
use vstd::prelude::*;

verus! {

/// The larger of two numbers.
pub open spec fn larger(a: int, b: int) -> int {
    if a >= b {
        a
    } else {
        b
    }
}

/// A number from `least` to `most`, and the source behind the draw: where `most` is not
/// above `least` nothing is drawn.
pub open spec fn drawn_between<R: RandomSource>(least: int, most: int, rng: R) -> (int, R) {
    if most > least {
        (least + rng.bounded(most - least + 1), rng.after_bounded(most - least + 1))
    } else {
        (least, rng)
    }
}

/// Draws a number from `least` to `most`.
pub fn draw_between<R: RandomSource>(least: i32, most: i32, rng: &mut R) -> (r: i32)
    requires
        i32::MIN <= most - least < i32::MAX,
    ensures
        (r as int, *final(rng)) == drawn_between(least as int, most as int, *old(rng)),
        least <= r <= larger(least as int, most as int),
{
    let range: i32 = most - least;
    if range > 0 {
        least + rng.next_bounded_i32(range + 1)
    } else {
        least
    }
}

/// The places of the first `n` entries whose condition holds, and the source behind the
/// draws that this takes.
pub open spec fn eligible<R: RandomSource>(
    entries: Seq<LootEntry>,
    n: nat,
    with: Handling,
    params: LootContextParameters,
    rng: R,
) -> (Seq<usize>, R)
    decreases n,
{
    if n == 0 {
        (Seq::empty(), rng)
    } else {
        let (before, last) = eligible(entries, (n - 1) as nat, with, params, rng);
        let (holds, after) = condition_holds(entries[n - 1].condition, with, params, last);
        (
            if holds {
                before.push((n - 1) as usize)
            } else {
                before
            },
            after,
        )
    }
}

/// The weights of the entries at the given places, together.
pub open spec fn weight_at(entries: Seq<LootEntry>, places: Seq<usize>) -> int
    decreases places.len(),
{
    if places.len() == 0 {
        0
    } else {
        weight_at(entries, places.drop_last()) + entries[places.last() as int].weight
    }
}

/// The weights of the first `n` entries, together.
pub open spec fn weight_of_first(entries: Seq<LootEntry>, n: nat) -> int
    decreases n,
{
    if n == 0 {
        0
    } else {
        weight_of_first(entries, (n - 1) as nat) + entries[n - 1].weight
    }
}

/// The place that a pick falls on: each place takes as many picks as its entry weighs.
pub open spec fn picked(
    entries: Seq<LootEntry>,
    places: Seq<usize>,
    pick: int,
    from: nat,
) -> Option<usize>
    decreases places.len() - from,
{
    if from >= places.len() {
        None
    } else {
        let weight = entries[places[from as int] as int].weight;
        if pick < weight {
            Some(places[from as int])
        } else {
            picked(entries, places, pick - weight, from + 1)
        }
    }
}

/// How many items an entry drops, and the source behind the draws that this takes.
pub open spec fn entry_count<R: RandomSource>(
    entry: LootEntry,
    with: Handling,
    params: LootContextParameters,
    rng: R,
) -> (int, R) {
    let (base, r1) = drawn_between(entry.min_count as int, entry.max_count as int, rng);
    let (raised, r2) = match entry.bonus_formula {
        None => (base, r1),
        Some(bonus) => bonus_applied(base, bonus, with.fortune_level, r1),
    };
    if entry.explosion_decay {
        decayed(raised, params.explosion_survival, r2)
    } else {
        (raised, r2)
    }
}

/// The stack of a number of items: a stack holds the number's lowest byte.
pub open spec fn stack_of(items: Seq<Entry>, name: Seq<char>, count: int) -> Option<ItemStack> {
    if count > 0 {
        match id_with_key(items, plain_key(name), 0) {
            None => None,
            Some(item) => Some(ItemStack { item, item_count: (count % 256) as u8 }),
        }
    } else {
        None
    }
}

/// What one roll of a pool drops, and the source behind the draws that this takes.
pub open spec fn rolled_once<R: RandomSource>(
    pool: LootPool,
    places: Seq<usize>,
    items: Seq<Entry>,
    with: Handling,
    params: LootContextParameters,
    rng: R,
) -> (Option<ItemStack>, R) {
    let total = weight_at(pool.entries@, places) + pool.empty_weight;
    if total == 0 {
        (None, rng)
    } else {
        let pick = rng.bounded(total) - pool.empty_weight;
        let after = rng.after_bounded(total);
        if pick < 0 {
            (None, after)
        } else {
            match picked(pool.entries@, places, pick, 0) {
                None => (None, after),
                Some(place) => {
                    let entry = pool.entries@[place as int];
                    let (count, done) = entry_count(entry, with, params, after);
                    (stack_of(items, entry.item@, count), done)
                },
            }
        }
    }
}

/// What `n` rolls of a pool drop, and the source behind the draws that this takes.
pub open spec fn rolled<R: RandomSource>(
    pool: LootPool,
    places: Seq<usize>,
    items: Seq<Entry>,
    with: Handling,
    params: LootContextParameters,
    rng: R,
    n: nat,
) -> (Seq<ItemStack>, R)
    decreases n,
{
    if n == 0 {
        (Seq::empty(), rng)
    } else {
        let (before, last) = rolled(pool, places, items, with, params, rng, (n - 1) as nat);
        let (drop, after) = rolled_once(pool, places, items, with, params, last);
        (
            match drop {
                None => before,
                Some(stack) => before.push(stack),
            },
            after,
        )
    }
}

/// What a pool drops, and the source behind the draws that this takes.
pub open spec fn pool_loot<R: RandomSource>(
    pool: LootPool,
    items: Seq<Entry>,
    with: Handling,
    params: LootContextParameters,
    rng: R,
) -> (Seq<ItemStack>, R) {
    let (holds, r1) = condition_holds(pool.condition, with, params, rng);
    if !holds {
        (Seq::empty(), r1)
    } else {
        let (places, r2) = eligible(pool.entries@, pool.entries@.len(), with, params, r1);
        if places.len() == 0 && pool.empty_weight == 0 {
            (Seq::empty(), r2)
        } else {
            let (rolls, r3) = drawn_between(pool.min_rolls as int, pool.max_rolls as int, r2);
            rolled(
                pool,
                places,
                items,
                with,
                params,
                r3,
                if rolls > 0 {
                    rolls as nat
                } else {
                    0
                },
            )
        }
    }
}

/// What the first `n` pools drop, and the source behind the draws that this takes.
pub open spec fn pools_loot<R: RandomSource>(
    pools: Seq<LootPool>,
    n: nat,
    items: Seq<Entry>,
    params: LootContextParameters,
    rng: R,
) -> (Seq<ItemStack>, R)
    decreases n,
{
    if n == 0 {
        (Seq::empty(), rng)
    } else {
        let (before, last) = pools_loot(pools, (n - 1) as nat, items, params, rng);
        let (drops, after) = pool_loot(pools[n - 1], items, handling(params), params, last);
        (before + drops, after)
    }
}

/// What a table drops, and the source behind the draws that this takes.
pub open spec fn loot<R: RandomSource>(
    table: LootTable,
    items: Seq<Entry>,
    params: LootContextParameters,
    rng: R,
) -> (Seq<ItemStack>, R) {
    pools_loot(table.pools@, table.pools@.len(), items, params, rng)
}

/// Whether an entry's counts fit in their type, whatever is drawn.
pub open spec fn entry_fits(entry: LootEntry, fortune_level: u16) -> bool {
    let most = larger(entry.min_count as int, entry.max_count as int);
    &&& entry.weight >= 0
    &&& i32::MIN <= entry.max_count - entry.min_count < i32::MAX
    &&& entry.bonus_formula matches Some(bonus) ==> {
        &&& bonus_fits(entry.min_count as int, bonus, fortune_level)
        &&& bonus_fits(most, bonus, fortune_level)
    }
}

/// Whether a pool's weights are weights, and its numbers fit in their types.
pub open spec fn pool_fits(pool: LootPool, fortune_level: u16) -> bool {
    &&& pool.empty_weight >= 0
    &&& i32::MIN <= pool.max_rolls - pool.min_rolls < i32::MAX
    &&& weight_of_first(pool.entries@, pool.entries@.len()) + pool.empty_weight <= i32::MAX
    &&& forall|i: int|
        0 <= i < pool.entries@.len() ==> #[trigger] entry_fits(pool.entries@[i], fortune_level)
}

/// Whether a table's weights are weights, and its numbers fit in their types.
pub open spec fn table_fits(table: LootTable, fortune_level: u16) -> bool {
    forall|i: int|
        0 <= i < table.pools@.len() ==> #[trigger] pool_fits(table.pools@[i], fortune_level)
}

proof fn lemma_bonus_fits_between(
    base: int,
    least: int,
    most: int,
    bonus: super::table::LootBonusFormula,
    fortune_level: u16,
)
    requires
        least <= base <= most,
        bonus_fits(least, bonus, fortune_level),
        bonus_fits(most, bonus, fortune_level),
    ensures
        bonus_fits(base, bonus, fortune_level),
{
    let f = fortune_level + 1;
    assert(least * f <= base * f <= most * f) by (nonlinear_arith)
        requires
            least <= base <= most,
            f >= 0,
    ;
}

proof fn lemma_weight_at_push(entries: Seq<LootEntry>, places: Seq<usize>, place: usize)
    ensures
        weight_at(entries, places.push(place)) == weight_at(entries, places)
            + entries[place as int].weight,
{
    assert(places.push(place).drop_last() =~= places);
}

/// The eligible entries are entries, and weigh no more than all of them.
proof fn lemma_eligible<R: RandomSource>(
    entries: Seq<LootEntry>,
    n: nat,
    with: Handling,
    params: LootContextParameters,
    rng: R,
)
    requires
        n <= entries.len() <= usize::MAX,
        forall|i: int| 0 <= i < entries.len() ==> (#[trigger] entries[i]).weight >= 0,
    ensures
        ({
            let places = eligible(entries, n, with, params, rng).0;
            &&& forall|i: int| 0 <= i < places.len() ==> (#[trigger] places[i]) < n
            &&& 0 <= weight_at(entries, places) <= weight_of_first(entries, n)
        }),
    decreases n,
{
    if n > 0 {
        let m = (n - 1) as nat;
        lemma_eligible(entries, m, with, params, rng);
        let before = eligible(entries, m, with, params, rng).0;
        lemma_weight_at_push(entries, before, m as usize);
        assert(entries[n - 1].weight >= 0);
    }
}

proof fn lemma_weight_at_take(entries: Seq<LootEntry>, places: Seq<usize>, n: nat)
    requires
        n < places.len(),
    ensures
        weight_at(entries, places.take(n as int + 1)) == weight_at(entries, places.take(n as int))
            + entries[places[n as int] as int].weight,
{
    assert(places.take(n as int + 1).drop_last() =~= places.take(n as int));
}

proof fn lemma_weight_at_monotone(entries: Seq<LootEntry>, places: Seq<usize>, n: nat)
    requires
        n <= places.len(),
        forall|i: int| 0 <= i < entries.len() ==> (#[trigger] entries[i]).weight >= 0,
        forall|i: int| 0 <= i < places.len() ==> (#[trigger] places[i]) < entries.len(),
    ensures
        0 <= weight_at(entries, places.take(n as int)) <= weight_at(entries, places),
    decreases places.len(),
{
    assert(places.take(places.len() as int) =~= places);
    if places.len() == 0 {
        assert(places.take(0) =~= places);
    } else {
        let shorter = places.drop_last();
        let k = if n < places.len() {
            n
        } else {
            (n - 1) as nat
        };
        lemma_weight_at_monotone(entries, shorter, k);
        assert(shorter.take(k as int) =~= places.take(k as int));
        assert(entries[places.last() as int].weight >= 0);
        assert(places.last() == places[places.len() - 1]);
    }
}

/// The weights of the entries at the given places.
fn weigh(entries: &Vec<LootEntry>, places: &Vec<usize>) -> (r: i32)
    requires
        forall|i: int| 0 <= i < entries@.len() ==> (#[trigger] entries@[i]).weight >= 0,
        forall|i: int| 0 <= i < places@.len() ==> (#[trigger] places@[i]) < entries@.len(),
        weight_at(entries@, places@) <= i32::MAX,
    ensures
        r == weight_at(entries@, places@),
{
    let mut sum: i32 = 0;
    let mut i: usize = 0;
    while i < places.len()
        invariant
            i <= places@.len(),
            forall|i: int| 0 <= i < entries@.len() ==> (#[trigger] entries@[i]).weight >= 0,
            forall|i: int| 0 <= i < places@.len() ==> (#[trigger] places@[i]) < entries@.len(),
            weight_at(entries@, places@) <= i32::MAX,
            sum == weight_at(entries@, places@.take(i as int)),
        decreases places.len() - i,
    {
        proof {
            lemma_weight_at_take(entries@, places@, i as nat);
            lemma_weight_at_monotone(entries@, places@, (i + 1) as nat);
            lemma_weight_at_monotone(entries@, places@, i as nat);
        }
        sum = sum + entries[places[i]].weight;
        i = i + 1;
    }
    assert(places@.take(i as int) =~= places@);
    sum
}

/// Collects the places of the entries whose condition holds.
fn collect_eligible<R: RandomSource>(
    entries: &Vec<LootEntry>,
    with: Handling,
    params: &LootContextParameters,
    rng: &mut R,
) -> (r: Vec<usize>)
    ensures
        (r@, *final(rng)) == eligible(entries@, entries@.len(), with, *params, *old(rng)),
{
    let mut places: Vec<usize> = Vec::new();
    let mut i: usize = 0;
    while i < entries.len()
        invariant
            i <= entries@.len(),
            (places@, *rng) == eligible(entries@, i as nat, with, *params, *old(rng)),
        decreases entries.len() - i,
    {
        if check_condition(&entries[i].condition, with, params, rng) {
            places.push(i);
        }
        i = i + 1;
    }
    places
}

/// Finds the place that a pick falls on.
fn find_picked(entries: &Vec<LootEntry>, places: &Vec<usize>, pick: i32) -> (r: Option<usize>)
    requires
        0 <= pick,
        forall|i: int| 0 <= i < entries@.len() ==> (#[trigger] entries@[i]).weight >= 0,
        forall|i: int| 0 <= i < places@.len() ==> (#[trigger] places@[i]) < entries@.len(),
    ensures
        r == picked(entries@, places@, pick as int, 0),
        r is Some ==> r->0 < entries@.len(),
{
    let mut left: i32 = pick;
    let mut i: usize = 0;
    while i < places.len()
        invariant
            i <= places@.len(),
            0 <= left,
            forall|i: int| 0 <= i < entries@.len() ==> (#[trigger] entries@[i]).weight >= 0,
            forall|i: int| 0 <= i < places@.len() ==> (#[trigger] places@[i]) < entries@.len(),
            picked(entries@, places@, pick as int, 0) == picked(
                entries@,
                places@,
                left as int,
                i as nat,
            ),
        decreases places.len() - i,
    {
        let weight: i32 = entries[places[i]].weight;
        if left < weight {
            return Some(places[i]);
        }
        left = left - weight;
        i = i + 1;
    }
    None
}

/// Draws how many items an entry drops.
fn draw_count<R: RandomSource>(
    entry: &LootEntry,
    with: Handling,
    params: &LootContextParameters,
    rng: &mut R,
) -> (r: i32)
    requires
        entry_fits(*entry, with.fortune_level),
    ensures
        (r as int, *final(rng)) == entry_count(*entry, with, *params, *old(rng)),
{
    let base: i32 = draw_between(entry.min_count, entry.max_count, rng);
    let mut count: i32 = base;
    if let Some(bonus) = entry.bonus_formula {
        proof {
            lemma_bonus_fits_between(
                base as int,
                entry.min_count as int,
                larger(entry.min_count as int, entry.max_count as int),
                bonus,
                with.fortune_level,
            );
        }
        count = apply_bonus_formula(count, bonus, with.fortune_level, rng);
    }
    if entry.explosion_decay {
        count = apply_explosion_decay(count, params.explosion_survival, rng);
    }
    count
}

/// The stack of a number of items.
fn make_stack(items: &Vec<Entry>, name: &str, count: i32) -> (r: Option<ItemStack>)
    ensures
        r == stack_of(items@, name@, count as int),
{
    if count > 0 {
        match from_name(items, name) {
            None => None,
            Some(item) => Some(ItemStack::new((count % 256) as u8, item)),
        }
    } else {
        None
    }
}

/// Rolls a pool once.
fn roll_once<R: RandomSource>(
    pool: &LootPool,
    places: &Vec<usize>,
    items: &Vec<Entry>,
    with: Handling,
    params: &LootContextParameters,
    rng: &mut R,
) -> (r: Option<ItemStack>)
    requires
        pool_fits(*pool, with.fortune_level),
        forall|i: int| 0 <= i < places@.len() ==> (#[trigger] places@[i]) < pool.entries@.len(),
        0 <= weight_at(pool.entries@, places@) <= weight_of_first(
            pool.entries@,
            pool.entries@.len(),
        ),
    ensures
        (r, *final(rng)) == rolled_once(*pool, places@, items@, with, *params, *old(rng)),
{
    proof {
        assert forall|i: int| 0 <= i < pool.entries@.len() implies (#[trigger] pool.entries@[i]).weight
            >= 0 by {
            assert(entry_fits(pool.entries@[i], with.fortune_level));
        }
    }
    let total: i32 = weigh(&pool.entries, places) + pool.empty_weight;
    if total == 0 {
        return None;
    }
    let pick: i32 = rng.next_bounded_i32(total) - pool.empty_weight;
    if pick < 0 {
        return None;
    }
    match find_picked(&pool.entries, places, pick) {
        None => None,
        Some(place) => {
            assert(entry_fits(pool.entries@[place as int], with.fortune_level));
            let entry = &pool.entries[place];
            let count: i32 = draw_count(entry, with, params, rng);
            make_stack(items, entry.item.as_str(), count)
        },
    }
}

/// Rolls a pool as often as is drawn, and adds what it drops.
fn roll_pool<R: RandomSource>(
    pool: &LootPool,
    items: &Vec<Entry>,
    with: Handling,
    params: &LootContextParameters,
    rng: &mut R,
    out: &mut Vec<ItemStack>,
)
    requires
        pool_fits(*pool, with.fortune_level),
    ensures
        ({
            let (drops, after) = pool_loot(*pool, items@, with, *params, *old(rng));
            &&& final(out)@ == old(out)@ + drops
            &&& *final(rng) == after
        }),
{
    if !check_condition(&pool.condition, with, params, rng) {
        assert(out@ =~= old(out)@ + Seq::<ItemStack>::empty());
        return;
    }
    let ghost r1 = *rng;
    let places = collect_eligible(&pool.entries, with, params, rng);
    proof {
        assert(pool.entries.len() == pool.entries@.len());
        assert forall|i: int| 0 <= i < pool.entries@.len() implies (#[trigger] pool.entries@[i]).weight
            >= 0 by {
            assert(entry_fits(pool.entries@[i], with.fortune_level));
        }
        lemma_eligible(pool.entries@, pool.entries@.len(), with, *params, r1);
    }
    if places.len() == 0 && pool.empty_weight == 0 {
        assert(out@ =~= old(out)@ + Seq::<ItemStack>::empty());
        return;
    }
    let rolls: i32 = draw_between(pool.min_rolls, pool.max_rolls, rng);
    let ghost r3 = *rng;
    let mut i: i32 = 0;
    assert(out@ =~= old(out)@ + Seq::<ItemStack>::empty());
    while i < rolls
        invariant
            0 <= i,
            rolls > 0 ==> i <= rolls,
            rolls <= 0 ==> i == 0,
            pool_fits(*pool, with.fortune_level),
            forall|i: int| 0 <= i < places@.len() ==> (#[trigger] places@[i]) < pool.entries@.len(),
            0 <= weight_at(pool.entries@, places@) <= weight_of_first(
                pool.entries@,
                pool.entries@.len(),
            ),
            out@ == old(out)@ + rolled(*pool, places@, items@, with, *params, r3, i as nat).0,
            *rng == rolled(*pool, places@, items@, with, *params, r3, i as nat).1,
        decreases rolls - i,
    {
        let ghost before = rolled(*pool, places@, items@, with, *params, r3, i as nat).0;
        if let Some(stack) = roll_once(pool, &places, items, with, params, rng) {
            out.push(stack);
            assert(out@ =~= old(out)@ + before.push(stack));
        }
        i = i + 1;
    }
}

/// Rolls a table without circumstances.
pub fn generate_loot<R: RandomSource>(table: &LootTable, items: &Vec<Entry>, rng: &mut R) -> (r: Vec<
    ItemStack,
>)
    requires
        table_fits(*table, 0),
    ensures
        (r@, *final(rng)) == loot(*table, items@, no_circumstances(), *old(rng)),
{
    generate_loot_with_context(table, items, &LootContextParameters::default(), rng)
}

/// Rolls a table: each pool whose condition holds is rolled as often as is drawn, and each
/// roll drops one of its eligible entries, drawn by weight, or nothing.
pub fn generate_loot_with_context<R: RandomSource>(
    table: &LootTable,
    items: &Vec<Entry>,
    params: &LootContextParameters,
    rng: &mut R,
) -> (r: Vec<ItemStack>)
    requires
        table_fits(*table, handling(*params).fortune_level),
    ensures
        (r@, *final(rng)) == loot(*table, items@, *params, *old(rng)),
{
    let with = handling_of(params);
    let mut out: Vec<ItemStack> = Vec::new();
    let mut i: usize = 0;
    while i < table.pools.len()
        invariant
            i <= table.pools@.len(),
            with == handling(*params),
            table_fits(*table, with.fortune_level),
            (out@, *rng) == pools_loot(table.pools@, i as nat, items@, *params, *old(rng)),
        decreases table.pools.len() - i,
    {
        assert(pool_fits(table.pools@[i as int], with.fortune_level));
        roll_pool(&table.pools[i], items, with, params, rng, &mut out);
        i = i + 1;
    }
    out
}

/// How many stacks the first `n` pools drop at most: one for each roll.
pub open spec fn rolls_of_first(pools: Seq<LootPool>, n: nat) -> int
    decreases n,
{
    if n == 0 {
        0
    } else {
        rolls_of_first(pools, (n - 1) as nat) + larger(
            0,
            larger(pools[n - 1].min_rolls as int, pools[n - 1].max_rolls as int),
        )
    }
}

/// How many stacks a table drops at most.
pub open spec fn most_rolls(table: LootTable) -> int {
    rolls_of_first(table.pools@, table.pools@.len())
}

proof fn lemma_rolled_len<R: RandomSource>(
    pool: LootPool,
    places: Seq<usize>,
    items: Seq<Entry>,
    with: Handling,
    params: LootContextParameters,
    rng: R,
    n: nat,
)
    ensures
        rolled(pool, places, items, with, params, rng, n).0.len() <= n,
    decreases n,
{
    if n > 0 {
        lemma_rolled_len(pool, places, items, with, params, rng, (n - 1) as nat);
    }
}

proof fn lemma_pools_loot_len<R: RandomSource>(
    pools: Seq<LootPool>,
    n: nat,
    items: Seq<Entry>,
    params: LootContextParameters,
    rng: R,
)
    ensures
        pools_loot(pools, n, items, params, rng).0.len() <= rolls_of_first(pools, n),
    decreases n,
{
    if n > 0 {
        lemma_pools_loot_len(pools, (n - 1) as nat, items, params, rng);
        let last = pools_loot(pools, (n - 1) as nat, items, params, rng).1;
        let pool = pools[n - 1];
        let with = handling(params);
        let r1 = condition_holds(pool.condition, with, params, last).1;
        let (places, r2) = eligible(pool.entries@, pool.entries@.len(), with, params, r1);
        let (rolls, r3) = drawn_between(pool.min_rolls as int, pool.max_rolls as int, r2);
        if pool.max_rolls > pool.min_rolls {
            r2.draws_below(pool.max_rolls - pool.min_rolls + 1);
        }
        let count: nat = if rolls > 0 {
            rolls as nat
        } else {
            0
        };
        lemma_rolled_len(pool, places, items, with, params, r3, count);
    }
}

/// A table drops at most one stack for each roll that its pools can make.
pub proof fn law_one_stack_per_roll<R: RandomSource>(
    table: LootTable,
    items: Seq<Entry>,
    params: LootContextParameters,
    rng: R,
)
    ensures
        loot(table, items, params, rng).0.len() <= most_rolls(table),
{
    lemma_pools_loot_len(table.pools@, table.pools@.len(), items, params, rng);
}

/// A pick below the weight of some places falls on one of them.
proof fn lemma_picked(entries: Seq<LootEntry>, places: Seq<usize>, pick: int, from: nat)
    requires
        from <= places.len(),
        0 <= pick < weight_at(entries, places) - weight_at(entries, places.take(from as int)),
    ensures
        picked(entries, places, pick, from) is Some,
        places.contains(picked(entries, places, pick, from)->0),
    decreases places.len() - from,
{
    assert(places.take(places.len() as int) =~= places);
    if from < places.len() {
        lemma_weight_at_take(entries, places, from);
        let weight = entries[places[from as int] as int].weight;
        if pick >= weight {
            lemma_picked(entries, places, pick - weight, from + 1);
        } else {
            assert(places.contains(places[from as int]));
        }
    }
}

/// A roll that does not fall on nothing falls on an eligible entry.
pub proof fn law_roll_falls_on_an_entry<R: RandomSource>(
    pool: LootPool,
    places: Seq<usize>,
    rng: R,
)
    requires
        pool.empty_weight >= 0,
        weight_at(pool.entries@, places) + pool.empty_weight > 0,
        rng.bounded(weight_at(pool.entries@, places) + pool.empty_weight) >= pool.empty_weight,
    ensures
        ({
            let pick = rng.bounded(weight_at(pool.entries@, places) + pool.empty_weight)
                - pool.empty_weight;
            &&& picked(pool.entries@, places, pick, 0) is Some
            &&& places.contains(picked(pool.entries@, places, pick, 0)->0)
        }),
{
    let total = weight_at(pool.entries@, places) + pool.empty_weight;
    rng.draws_below(total);
    assert(places.take(0) =~= Seq::<usize>::empty());
    lemma_picked(pool.entries@, places, rng.bounded(total) - pool.empty_weight, 0);
}

/// Whether a stack is of an item that an entry names.
pub open spec fn named_by(stack: ItemStack, entry: LootEntry, items: Seq<Entry>) -> bool {
    id_with_key(items, plain_key(entry.item@), 0) == Some(stack.item)
}

/// Whether a stack is of an item that some entry of a pool names.
pub open spec fn comes_from(stack: ItemStack, pool: LootPool, items: Seq<Entry>) -> bool {
    exists|i: int|
        0 <= i < pool.entries@.len() && named_by(stack, #[trigger] pool.entries@[i], items)
}

proof fn lemma_picked_is_a_place(
    entries: Seq<LootEntry>,
    places: Seq<usize>,
    pick: int,
    from: nat,
)
    requires
        picked(entries, places, pick, from) is Some,
    ensures
        places.contains(picked(entries, places, pick, from)->0),
    decreases places.len() - from,
{
    let weight = entries[places[from as int] as int].weight;
    if pick < weight {
        assert(places.contains(places[from as int]));
    } else {
        lemma_picked_is_a_place(entries, places, pick - weight, from + 1);
    }
}

proof fn lemma_rolled_from_pool<R: RandomSource>(
    pool: LootPool,
    places: Seq<usize>,
    items: Seq<Entry>,
    with: Handling,
    params: LootContextParameters,
    rng: R,
    n: nat,
)
    requires
        forall|i: int| 0 <= i < places.len() ==> (#[trigger] places[i]) < pool.entries@.len(),
    ensures
        forall|k: int|
            0 <= k < rolled(pool, places, items, with, params, rng, n).0.len() ==> comes_from(
                #[trigger] rolled(pool, places, items, with, params, rng, n).0[k],
                pool,
                items,
            ),
    decreases n,
{
    if n > 0 {
        lemma_rolled_from_pool(pool, places, items, with, params, rng, (n - 1) as nat);
        let last = rolled(pool, places, items, with, params, rng, (n - 1) as nat).1;
        let drop = rolled_once(pool, places, items, with, params, last).0;
        if drop is Some {
            let total = weight_at(pool.entries@, places) + pool.empty_weight;
            let pick = last.bounded(total) - pool.empty_weight;
            lemma_picked_is_a_place(pool.entries@, places, pick, 0);
            let place = picked(pool.entries@, places, pick, 0)->0;
            assert(named_by(drop->0, pool.entries@[place as int], items));
        }
    }
}

proof fn lemma_eligible_places<R: RandomSource>(
    entries: Seq<LootEntry>,
    n: nat,
    with: Handling,
    params: LootContextParameters,
    rng: R,
)
    requires
        n <= entries.len() <= usize::MAX,
    ensures
        forall|i: int|
            0 <= i < eligible(entries, n, with, params, rng).0.len() ==> (#[trigger] eligible(
                entries,
                n,
                with,
                params,
                rng,
            ).0[i]) < n,
    decreases n,
{
    if n > 0 {
        lemma_eligible_places(entries, (n - 1) as nat, with, params, rng);
        let before = eligible(entries, (n - 1) as nat, with, params, rng).0;
        let places = eligible(entries, n, with, params, rng).0;
        assert forall|i: int| 0 <= i < places.len() implies (#[trigger] places[i]) < n by {
            if i < before.len() {
                assert(places[i] == before[i]);
            }
        }
    }
}

proof fn lemma_pools_loot<R: RandomSource>(
    pools: Seq<LootPool>,
    n: nat,
    items: Seq<Entry>,
    params: LootContextParameters,
    rng: R,
)
    requires
        n <= pools.len(),
        forall|i: int| 0 <= i < pools.len() ==> (#[trigger] pools[i]).entries@.len() <= usize::MAX,
    ensures
        forall|k: int|
            0 <= k < pools_loot(pools, n, items, params, rng).0.len() ==> exists|i: int|
                0 <= i < pools.len() && comes_from(
                    #[trigger] pools_loot(pools, n, items, params, rng).0[k],
                    #[trigger] pools[i],
                    items,
                ),
    decreases n,
{
    if n > 0 {
        lemma_pools_loot(pools, (n - 1) as nat, items, params, rng);
        let (before, last) = pools_loot(pools, (n - 1) as nat, items, params, rng);
        let pool = pools[n - 1];
        let with = handling(params);
        let drops = pool_loot(pool, items, with, params, last).0;
        let (holds, r1) = condition_holds(pool.condition, with, params, last);
        let (places, r2) = eligible(pool.entries@, pool.entries@.len(), with, params, r1);
        let (rolls, r3) = drawn_between(pool.min_rolls as int, pool.max_rolls as int, r2);
        lemma_eligible_places(pool.entries@, pool.entries@.len(), with, params, r1);
        let count: nat = if rolls > 0 {
            rolls as nat
        } else {
            0
        };
        lemma_rolled_from_pool(pool, places, items, with, params, r3, count);
        let all = pools_loot(pools, n, items, params, rng).0;
        assert(all == before + drops);
        assert forall|k: int| 0 <= k < all.len() implies exists|i: int|
            0 <= i < pools.len() && comes_from(#[trigger] all[k], #[trigger] pools[i], items) by {
            if k < before.len() {
                assert(all[k] == before[k]);
            } else {
                let j = k - before.len();
                assert(all[k] == drops[j]);
                assert(comes_from(drops[j], pool, items));
                assert(comes_from(all[k], pools[n - 1], items));
            }
        }
    }
}

/// A table drops nothing but items that its own entries name.
pub proof fn law_loot_comes_from_the_table<R: RandomSource>(
    table: LootTable,
    items: Seq<Entry>,
    params: LootContextParameters,
    rng: R,
)
    requires
        forall|i: int|
            0 <= i < table.pools@.len() ==> (#[trigger] table.pools@[i]).entries@.len()
                <= usize::MAX,
    ensures
        forall|k: int|
            0 <= k < loot(table, items, params, rng).0.len() ==> exists|i: int|
                0 <= i < table.pools@.len() && comes_from(
                    #[trigger] loot(table, items, params, rng).0[k],
                    #[trigger] table.pools@[i],
                    items,
                ),
{
    lemma_pools_loot(table.pools@, table.pools@.len(), items, params, rng);
}

/// Weights add up: those of two lists of places together are those of both, and that of one
/// place is its entry's.
pub proof fn law_weights_add_up(
    entries: Seq<LootEntry>,
    a: Seq<usize>,
    b: Seq<usize>,
    place: usize,
)
    ensures
        weight_at(entries, a + b) == weight_at(entries, a) + weight_at(entries, b),
        weight_at(entries, seq![place]) == entries[place as int].weight,
    decreases b.len(),
{
    let one = seq![place];
    assert(one.drop_last() =~= Seq::<usize>::empty());
    assert(weight_at(entries, one.drop_last()) == 0);
    if b.len() == 0 {
        assert(a + b =~= a);
    } else {
        law_weights_add_up(entries, a, b.drop_last(), place);
        assert((a + b).drop_last() =~= a + b.drop_last());
    }
}

proof fn lemma_picked_at(entries: Seq<LootEntry>, places: Seq<usize>, pick: int, from: nat, k: int)
    requires
        from <= k < places.len(),
        forall|i: int|
            0 <= i < places.len() ==> entries[(#[trigger] places[i]) as int].weight >= 0,
        weight_at(entries, places.take(k)) - weight_at(entries, places.take(from as int)) <= pick,
        pick < weight_at(entries, places.take(k + 1)) - weight_at(
            entries,
            places.take(from as int),
        ),
    ensures
        picked(entries, places, pick, from) == Some(places[k]),
    decreases k - from,
{
    lemma_weight_at_take(entries, places, from);
    if from < k {
        lemma_taken_grows(entries, places, from as int + 1, k);
        lemma_picked_at(entries, places, pick - entries[places[from as int] as int].weight, from + 1, k);
    }
}

proof fn lemma_taken_grows(entries: Seq<LootEntry>, places: Seq<usize>, a: int, b: int)
    requires
        0 <= a <= b <= places.len(),
        forall|i: int|
            0 <= i < places.len() ==> entries[(#[trigger] places[i]) as int].weight >= 0,
    ensures
        weight_at(entries, places.take(a)) <= weight_at(entries, places.take(b)),
    decreases b - a,
{
    if a < b {
        lemma_weight_at_take(entries, places, a as nat);
        lemma_taken_grows(entries, places, a + 1, b);
    }
}

/// A pick falls on a place exactly where it lies between the weights before it and those up to
/// it: each place takes as many picks as its entry weighs.
pub proof fn law_a_pick_falls_by_weight(
    entries: Seq<LootEntry>,
    places: Seq<usize>,
    pick: int,
    k: int,
)
    requires
        0 <= k < places.len(),
        forall|i: int|
            0 <= i < places.len() ==> entries[(#[trigger] places[i]) as int].weight >= 0,
        weight_at(entries, places.take(k)) <= pick < weight_at(entries, places.take(k + 1)),
    ensures
        picked(entries, places, pick, 0) == Some(places[k]),
{
    assert(places.take(0) =~= Seq::<usize>::empty());
    lemma_picked_at(entries, places, pick, 0, k);
}

/// An entry takes part where its own condition holds, looked at behind those of the entries
/// before it.
pub proof fn law_entries_take_part_where_they_may<R: RandomSource>(
    entries: Seq<LootEntry>,
    n: nat,
    with: Handling,
    params: LootContextParameters,
    rng: R,
    i: int,
)
    requires
        0 <= i < n <= entries.len() <= usize::MAX,
    ensures
        ({
            let places = eligible(entries, n, with, params, rng).0;
            let source = eligible(entries, i as nat, with, params, rng).1;
            let (holds, after) = condition_holds(entries[i].condition, with, params, source);
            &&& places.contains(i as usize) <==> holds
            &&& eligible(entries, (i + 1) as nat, with, params, rng).1 == after
        }),
    decreases n,
{
    let m = (n - 1) as nat;
    let before = eligible(entries, m, with, params, rng).0;
    let places = eligible(entries, n, with, params, rng).0;
    lemma_eligible_places(entries, m, with, params, rng);
    if i < m {
        law_entries_take_part_where_they_may(entries, m, with, params, rng, i);
        if before.contains(i as usize) {
            let k = choose|k: int| 0 <= k < before.len() && before[k] == i as usize;
            assert(places[k] == i as usize);
        }
        if places.contains(i as usize) {
            let k = choose|k: int| 0 <= k < places.len() && places[k] == i as usize;
            assert(before[k] == i as usize);
        }
    } else {
        let holds = condition_holds(
            entries[i].condition,
            with,
            params,
            eligible(entries, m, with, params, rng).1,
        ).0;
        if holds {
            assert(places[places.len() - 1] == i as usize);
        } else if places.contains(i as usize) {
            let k = choose|k: int| 0 <= k < places.len() && places[k] == i as usize;
            assert(before[k] < m);
        }
    }
}

/// What an entry drops: a number between its least and its most, raised by its bonus at the
/// tool's level, of which an explosion leaves some where the entry decays.
pub proof fn law_counts_are_raised_and_decay<R: RandomSource>(
    entry: LootEntry,
    with: Handling,
    params: LootContextParameters,
    rng: R,
)
    ensures
        ({
            let range = entry.max_count - entry.min_count;
            let base = if range > 0 {
                entry.min_count + rng.bounded(range + 1)
            } else {
                entry.min_count as int
            };
            let r1 = if range > 0 {
                rng.after_bounded(range + 1)
            } else {
                rng
            };
            let counted = entry_count(entry, with, params, rng);
            &&& entry.bonus_formula is None && !entry.explosion_decay ==> counted == (base, r1)
            &&& entry.bonus_formula matches Some(bonus) ==> !entry.explosion_decay ==> counted
                == bonus_applied(base, bonus, with.fortune_level, r1)
            &&& entry.bonus_formula == Some(super::table::LootBonusFormula::OreDrops)
                && !entry.explosion_decay && with.fortune_level > 0 ==> {
                let draw = r1.bounded(with.fortune_level + 2);
                counted.0 == base * ((if draw > 1 {
                    draw - 1
                } else {
                    0
                }) + 1)
            }
            &&& entry.explosion_decay ==> counted == ({
                let (raised, r2) = match entry.bonus_formula {
                    None => (base, r1),
                    Some(bonus) => bonus_applied(base, bonus, with.fortune_level, r1),
                };
                decayed(raised, params.explosion_survival, r2)
            })
        }),
{
}

/// A roll below the weight of nothing drops nothing. Any other drops of the entry that it falls
/// on as many items as are drawn for it, where that is more than none and the item is known; a
/// stack holds the lowest byte of the number.
pub proof fn law_a_roll_drops_its_entry<R: RandomSource>(
    pool: LootPool,
    places: Seq<usize>,
    items: Seq<Entry>,
    with: Handling,
    params: LootContextParameters,
    rng: R,
    k: int,
)
    requires
        pool.empty_weight >= 0,
        forall|i: int|
            0 <= i < places.len() ==> pool.entries@[(#[trigger] places[i]) as int].weight >= 0,
        weight_at(pool.entries@, places) + pool.empty_weight > 0,
    ensures
        ({
            let total = weight_at(pool.entries@, places) + pool.empty_weight;
            let draw = rng.bounded(total);
            let dropped = rolled_once(pool, places, items, with, params, rng);
            &&& draw < pool.empty_weight ==> dropped == (None::<ItemStack>, rng.after_bounded(total))
            &&& (0 <= k < places.len() && pool.empty_weight + weight_at(
                pool.entries@,
                places.take(k),
            ) <= draw < pool.empty_weight + weight_at(pool.entries@, places.take(k + 1))) ==> {
                let entry = pool.entries@[places[k] as int];
                let (count, after) = entry_count(entry, with, params, rng.after_bounded(total));
                let item = id_with_key(items, plain_key(entry.item@), 0);
                &&& dropped.1 == after
                &&& dropped.0 is Some <==> count > 0 && item is Some
                &&& dropped.0 matches Some(stack) ==> Some(stack.item) == item
                    && stack.item_count == count % 256
            }
        }),
{
    let total = weight_at(pool.entries@, places) + pool.empty_weight;
    let draw = rng.bounded(total);
    if 0 <= k < places.len() && pool.empty_weight + weight_at(pool.entries@, places.take(k)) <= draw
        < pool.empty_weight + weight_at(pool.entries@, places.take(k + 1)) {
        assert(places.take(0) =~= Seq::<usize>::empty());
        lemma_taken_grows(pool.entries@, places, 0, k);
        law_a_pick_falls_by_weight(pool.entries@, places, draw - pool.empty_weight, k);
    }
}

/// Rolls follow one another: what more rolls drop is what the first of them drop, and behind it
/// what the others drop, drawn behind the first.
pub proof fn law_rolls_follow_one_another<R: RandomSource>(
    pool: LootPool,
    places: Seq<usize>,
    items: Seq<Entry>,
    with: Handling,
    params: LootContextParameters,
    rng: R,
    n: nat,
    m: nat,
)
    ensures
        ({
            let (first, between) = rolled(pool, places, items, with, params, rng, n);
            let (others, after) = rolled(pool, places, items, with, params, between, m);
            rolled(pool, places, items, with, params, rng, n + m) == (first + others, after)
        }),
        ({
            let (drop, after) = rolled_once(pool, places, items, with, params, rng);
            rolled(pool, places, items, with, params, rng, 1) == (
                match drop {
                    Some(stack) => seq![stack],
                    None => Seq::empty(),
                },
                after,
            )
        }),
    decreases m,
{
    reveal_with_fuel(rolled, 2);
    let (first, between) = rolled(pool, places, items, with, params, rng, n);
    let one = rolled(pool, places, items, with, params, rng, 1);
    assert(one.0 =~= match rolled_once(pool, places, items, with, params, rng).0 {
        Some(stack) => seq![stack],
        None => Seq::empty(),
    });
    if m == 0 {
        assert(first + Seq::<ItemStack>::empty() =~= first);
    } else {
        law_rolls_follow_one_another(
            pool,
            places,
            items,
            with,
            params,
            rng,
            n,
            (m - 1) as nat,
        );
        let (others, last) = rolled(pool, places, items, with, params, between, (m - 1) as nat);
        let drop = rolled_once(pool, places, items, with, params, last).0;
        if drop is Some {
            assert((first + others).push(drop->0) =~= first + others.push(drop->0));
        }
    }
}

/// A pool whose condition fails, or none of whose entries takes part where nothing weighs
/// nothing, drops nothing. Any other is rolled as often as is drawn between its least and its
/// most rolls.
pub proof fn law_pools_are_rolled_as_drawn<R: RandomSource>(
    pool: LootPool,
    items: Seq<Entry>,
    with: Handling,
    params: LootContextParameters,
    rng: R,
    rolls: nat,
)
    ensures
        ({
            let (holds, r1) = condition_holds(pool.condition, with, params, rng);
            let (places, r2) = eligible(pool.entries@, pool.entries@.len(), with, params, r1);
            let range = pool.max_rolls - pool.min_rolls;
            let dropped = pool_loot(pool, items, with, params, rng);
            let drawn = places.len() > 0 || pool.empty_weight != 0;
            &&& !holds ==> dropped == (Seq::<ItemStack>::empty(), r1)
            &&& holds && !drawn ==> dropped == (Seq::<ItemStack>::empty(), r2)
            &&& holds && drawn && range > 0 && pool.min_rolls + r2.bounded(range + 1) == rolls
                ==> dropped == rolled(
                pool,
                places,
                items,
                with,
                params,
                r2.after_bounded(range + 1),
                rolls,
            )
            &&& holds && drawn && range <= 0 && pool.min_rolls == rolls ==> dropped == rolled(
                pool,
                places,
                items,
                with,
                params,
                r2,
                rolls,
            )
            &&& holds && drawn && pool.min_rolls < 0 && range <= 0 ==> dropped == (
                Seq::<ItemStack>::empty(),
                r2,
            )
        }),
{
}

/// The pools of a table are rolled one after the other: one more adds what it drops by itself,
/// drawn behind the others.
pub proof fn law_pools_follow_one_another<R: RandomSource>(
    shorter: Seq<LootPool>,
    last: LootPool,
    items: Seq<Entry>,
    params: LootContextParameters,
    rng: R,
)
    ensures
        pools_loot(Seq::empty(), 0, items, params, rng) == (Seq::<ItemStack>::empty(), rng),
        ({
            let (before, between) = pools_loot(shorter, shorter.len(), items, params, rng);
            let (drops, after) = pool_loot(last, items, handling(params), params, between);
            pools_loot(shorter.push(last), shorter.len() + 1, items, params, rng) == (
                before + drops,
                after,
            )
        }),
{
    lemma_pools_prefix(shorter, shorter.push(last), shorter.len(), items, params, rng);
}

proof fn lemma_pools_prefix<R: RandomSource>(
    a: Seq<LootPool>,
    b: Seq<LootPool>,
    n: nat,
    items: Seq<Entry>,
    params: LootContextParameters,
    rng: R,
)
    requires
        n <= a.len(),
        n <= b.len(),
        forall|i: int| 0 <= i < n ==> a[i] == b[i],
    ensures
        pools_loot(a, n, items, params, rng) == pools_loot(b, n, items, params, rng),
    decreases n,
{
    if n > 0 {
        lemma_pools_prefix(a, b, (n - 1) as nat, items, params, rng);
    }
}

} // verus!
