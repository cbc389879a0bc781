//! Laying loot into a container.

use super::generate::{generate_loot, loot, most_rolls, table_fits};
use super::table::{no_circumstances, ItemStack, LootTable, AIR};
use crate::random::{shuffle, shuffled, swapped, RandomSource};
use crate::registry::Entry;
use vstd::prelude::*;

verus! {

/// A list whose item at `i` left, with the last one in its place.
pub open spec fn dropped<T>(s: Seq<T>, i: int) -> Seq<T> {
    s.update(i, s.last()).drop_last()
}

/// The stacks of one item and the larger ones, apart, from the `i`th on: stacks of nothing
/// leave.
pub open spec fn parted(
    result: Seq<ItemStack>,
    splittable: Seq<ItemStack>,
    i: nat,
) -> (Seq<ItemStack>, Seq<ItemStack>)
    decreases result.len() - i,
{
    if i >= result.len() {
        (result, splittable)
    } else if result[i as int].nothing() {
        parted(dropped(result, i as int), splittable, i)
    } else if result[i as int].item_count > 1 {
        parted(dropped(result, i as int), splittable.push(result[i as int]), i)
    } else {
        parted(result, splittable, i + 1)
    }
}

/// A split stack put back: one that can be split again is drawn to stay so or not.
pub open spec fn put_back<R: RandomSource>(
    stack: ItemStack,
    result: Seq<ItemStack>,
    splittable: Seq<ItemStack>,
    rng: R,
) -> (Seq<ItemStack>, Seq<ItemStack>, R) {
    if stack.item_count > 1 {
        if rng.flag() {
            (result, splittable.push(stack), rng.after_flag())
        } else {
            (result.push(stack), splittable, rng.after_flag())
        }
    } else {
        (result.push(stack), splittable, rng)
    }
}

/// The stacks after as many splits as there is room for: each takes a drawn stack and
/// moves a drawn number of its items, half of them at most, to a stack of their own.
pub open spec fn split<R: RandomSource>(
    result: Seq<ItemStack>,
    splittable: Seq<ItemStack>,
    slots: nat,
    rng: R,
) -> (Seq<ItemStack>, Seq<ItemStack>, R)
    decreases slots - (result.len() + splittable.len()),
{
    if slots > result.len() + splittable.len() && splittable.len() > 0 {
        proof {
            rng.draws_below(splittable.len() as int);
        }
        let at = rng.bounded(splittable.len() as int);
        let r1 = rng.after_bounded(splittable.len() as int);
        let stack = splittable[at];
        let half = stack.item_count as int / 2;
        let moved = 1 + r1.bounded(half);
        let r2 = r1.after_bounded(half);
        let kept = ItemStack { item: stack.item, item_count: (stack.item_count - moved) as u8 };
        let copy = ItemStack { item: stack.item, item_count: moved as u8 };
        let (result1, splittable1, r3) = put_back(kept, result, dropped(splittable, at), r2);
        let (result2, splittable2, r4) = put_back(copy, result1, splittable1, r3);
        split(result2, splittable2, slots, r4)
    } else {
        (result, splittable, rng)
    }
}

/// Stacks, split over the slots that there are and shuffled.
pub open spec fn split_and_shuffled<R: RandomSource>(
    items: Seq<ItemStack>,
    slots: nat,
    rng: R,
) -> (Seq<ItemStack>, R) {
    let (result, splittable) = parted(items, Seq::empty(), 0);
    let (result2, splittable2, after) = split(result, splittable, slots, rng);
    let all = result2 + splittable2;
    shuffled(all, all.len() - 1, after)
}

/// Whether every stack can be split.
pub open spec fn all_large(s: Seq<ItemStack>) -> bool {
    forall|i: int| 0 <= i < s.len() ==> (#[trigger] s[i]).item_count > 1
}

proof fn lemma_dropped_large(s: Seq<ItemStack>, i: int)
    requires
        all_large(s),
        0 <= i < s.len(),
    ensures
        all_large(dropped(s, i)),
        dropped(s, i).len() == s.len() - 1,
{
}

/// Parts the stacks of one item from the larger ones.
fn part(result: &mut Vec<ItemStack>) -> (splittable: Vec<ItemStack>)
    ensures
        (final(result)@, splittable@) == parted(old(result)@, Seq::empty(), 0),
        all_large(splittable@),
        final(result)@.len() + splittable@.len() <= old(result)@.len(),
{
    let mut splittable: Vec<ItemStack> = Vec::new();
    let mut i: usize = 0;
    while i < result.len()
        invariant
            i <= result@.len(),
            all_large(splittable@),
            result@.len() + splittable@.len() <= old(result)@.len(),
            parted(old(result)@, Seq::empty(), 0) == parted(result@, splittable@, i as nat),
        decreases result@.len() - i,
    {
        if result[i].is_empty() {
            let _ = result.swap_remove(i);
        } else if result[i].item_count > 1 {
            let stack = result.swap_remove(i);
            splittable.push(stack);
        } else {
            i = i + 1;
        }
    }
    splittable
}

/// Puts a split stack back.
fn put<R: RandomSource>(
    stack: ItemStack,
    result: &mut Vec<ItemStack>,
    splittable: &mut Vec<ItemStack>,
    rng: &mut R,
)
    requires
        all_large(old(splittable)@),
    ensures
        (final(result)@, final(splittable)@, *final(rng)) == put_back(
            stack,
            old(result)@,
            old(splittable)@,
            *old(rng),
        ),
        all_large(final(splittable)@),
        final(result)@.len() + final(splittable)@.len() == old(result)@.len() + old(
            splittable,
        )@.len() + 1,
{
    if stack.item_count > 1 && rng.next_bool() {
        splittable.push(stack);
    } else {
        result.push(stack);
    }
}

/// Splits the larger stacks while there is room for more, and shuffles all of them.
pub fn shuffle_and_split_items<R: RandomSource>(
    result: &mut Vec<ItemStack>,
    available_slots: usize,
    rng: &mut R,
)
    requires
        old(result)@.len() <= i32::MAX,
        available_slots <= i32::MAX,
    ensures
        (final(result)@, *final(rng)) == split_and_shuffled(
            old(result)@,
            available_slots as nat,
            *old(rng),
        ),
{
    let mut splittable = part(result);
    let ghost start = split(result@, splittable@, available_slots as nat, *rng);
    while available_slots > result.len() + splittable.len() && splittable.len() > 0
        invariant
            all_large(splittable@),
            available_slots <= i32::MAX,
            result@.len() + splittable@.len() <= i32::MAX,
            start == split(result@, splittable@, available_slots as nat, *rng),
        decreases available_slots - (result@.len() + splittable@.len()),
    {
        let at: usize = rng.next_bounded_i32(splittable.len() as i32) as usize;
        proof {
            lemma_dropped_large(splittable@, at as int);
        }
        let mut stack = splittable.swap_remove(at);
        let count: i32 = stack.item_count as i32;
        let moved: i32 = 1 + rng.next_bounded_i32(count / 2);
        stack.item_count = (count - moved) as u8;
        let copy = ItemStack { item: stack.item, item_count: moved as u8 };
        put(stack, result, &mut splittable, rng);
        put(copy, result, &mut splittable, rng);
    }
    result.append(&mut splittable);
    shuffle(result, rng);
}

/// The empty places of a container, from the first `n`.
pub open spec fn free_slots(inventory: Seq<ItemStack>, n: nat) -> Seq<usize>
    decreases n,
{
    if n == 0 {
        Seq::empty()
    } else if inventory[n - 1].nothing() {
        free_slots(inventory, (n - 1) as nat).push((n - 1) as usize)
    } else {
        free_slots(inventory, (n - 1) as nat)
    }
}

/// A container after the first `n` stacks went to the listed slots, the last slot first.
pub open spec fn placed(
    inventory: Seq<ItemStack>,
    slots: Seq<usize>,
    stacks: Seq<ItemStack>,
    n: nat,
) -> Seq<ItemStack>
    decreases n,
{
    if n == 0 {
        inventory
    } else {
        placed(inventory, slots, stacks, (n - 1) as nat).update(
            slots[slots.len() - n] as int,
            stacks[n - 1],
        )
    }
}

/// A container after loot was laid into it, and whether all of it found room. The loot and
/// its places are drawn by two sources that start in the same state.
pub open spec fn filled<R: RandomSource>(
    inventory: Seq<ItemStack>,
    table: LootTable,
    items: Seq<Entry>,
    rng: R,
) -> (Seq<ItemStack>, bool) {
    let drops = loot(table, items, no_circumstances(), rng).0;
    if drops.len() == 0 {
        (inventory, true)
    } else {
        let free = free_slots(inventory, inventory.len());
        let (slots, after) = shuffled(free, free.len() - 1, rng);
        let stacks = split_and_shuffled(drops, slots.len(), after).0;
        let room = stacks.len() <= slots.len();
        (
            placed(
                inventory,
                slots,
                stacks,
                if room {
                    stacks.len()
                } else {
                    slots.len()
                },
            ),
            room,
        )
    }
}

proof fn lemma_free_slots(inventory: Seq<ItemStack>, n: nat)
    requires
        n <= inventory.len() <= usize::MAX,
    ensures
        free_slots(inventory, n).len() <= n,
        forall|i: int|
            0 <= i < free_slots(inventory, n).len() ==> (#[trigger] free_slots(inventory, n)[i]) < n
                && inventory[free_slots(inventory, n)[i] as int].nothing(),
    decreases n,
{
    if n > 0 {
        lemma_free_slots(inventory, (n - 1) as nat);
        let before = free_slots(inventory, (n - 1) as nat);
        let all = free_slots(inventory, n);
        assert forall|i: int| 0 <= i < all.len() implies (#[trigger] all[i]) < n
            && inventory[all[i] as int].nothing() by {
            if i < before.len() {
                assert(all[i] == before[i]);
            }
        }
    }
}

/// Lists the empty places of a container.
fn list_free(inventory: &Vec<ItemStack>) -> (r: Vec<usize>)
    ensures
        r@ == free_slots(inventory@, inventory@.len()),
{
    let mut slots: Vec<usize> = Vec::new();
    let mut i: usize = 0;
    while i < inventory.len()
        invariant
            i <= inventory@.len(),
            slots@ == free_slots(inventory@, i as nat),
        decreases inventory.len() - i,
    {
        if inventory[i].is_empty() {
            slots.push(i);
        }
        i = i + 1;
    }
    slots
}

proof fn lemma_shuffled_slots<R: RandomSource>(free: Seq<usize>, rng: R, bound: nat)
    requires
        forall|i: int| 0 <= i < free.len() ==> (#[trigger] free[i]) < bound,
    ensures
        shuffled(free, free.len() - 1, rng).0.len() == free.len(),
        forall|i: int|
            0 <= i < free.len() ==> (#[trigger] shuffled(free, free.len() - 1, rng).0[i]) < bound
                && free.contains(shuffled(free, free.len() - 1, rng).0[i]),
{
    broadcast use vstd::seq_lib::group_to_multiset_ensures;

    crate::random::law_shuffle_keeps_items(free, rng);
    let slots = shuffled(free, free.len() - 1, rng).0;
    assert forall|i: int| 0 <= i < free.len() implies (#[trigger] slots[i]) < bound
        && free.contains(slots[i]) by {
        assert(slots.contains(slots[i]));
        assert(slots.to_multiset().count(slots[i]) > 0);
        assert(free.to_multiset().count(slots[i]) > 0);
        assert(free.contains(slots[i]));
    }
}

/// Lays the loot of a table into a container. Tells whether all of it found room.
pub fn fill_chest_inventory<R: RandomSource>(
    inventory: &mut Vec<ItemStack>,
    table: &LootTable,
    items: &Vec<Entry>,
    rng: &R,
) -> (r: bool)
    requires
        table_fits(*table, 0),
        old(inventory)@.len() <= i32::MAX,
        most_rolls(*table) <= i32::MAX,
    ensures
        (final(inventory)@, r) == filled(old(inventory)@, *table, items@, *rng),
{
    let mut loot_rng = rng.twin();
    let mut stacks = generate_loot(table, items, &mut loot_rng);
    proof {
        super::generate::law_one_stack_per_roll(*table, items@, no_circumstances(), *rng);
    }
    if stacks.len() == 0 {
        return true;
    }
    let mut place_rng = rng.twin();
    let mut slots = list_free(inventory);
    proof {
        lemma_free_slots(inventory@, inventory@.len());
        lemma_shuffled_slots(slots@, *rng, inventory@.len());
    }
    shuffle(&mut slots, &mut place_rng);
    let ghost all = slots@;
    let room: usize = slots.len();
    shuffle_and_split_items(&mut stacks, room, &mut place_rng);
    let mut i: usize = 0;
    while i < stacks.len()
        invariant
            i <= stacks@.len(),
            i <= all.len() == room,
            slots@ == all.take(all.len() - i),
            inventory@.len() == old(inventory)@.len(),
            forall|k: int| 0 <= k < all.len() ==> (#[trigger] all[k]) < inventory@.len(),
            inventory@ == placed(old(inventory)@, all, stacks@, i as nat),
            filled(old(inventory)@, *table, items@, *rng) == (
                placed(
                    old(inventory)@,
                    all,
                    stacks@,
                    (if stacks@.len() <= all.len() {
                        stacks@.len()
                    } else {
                        all.len()
                    }),
                ),
                stacks@.len() <= all.len(),
            ),
        decreases stacks.len() - i,
    {
        match slots.pop() {
            None => {
                return false;
            },
            Some(slot) => {
                assert(slot == all[all.len() - i - 1]);
                inventory.set(slot, stacks[i]);
                assert(slots@ =~= all.take(all.len() - (i + 1)));
            },
        }
        i = i + 1;
    }
    true
}

/// How many items of one kind some stacks hold.
pub open spec fn total(stacks: Seq<ItemStack>, item: u16) -> int
    decreases stacks.len(),
{
    if stacks.len() == 0 {
        0
    } else {
        total(stacks.drop_last(), item) + amount(stacks.last(), item)
    }
}

/// How many items of one kind a stack holds.
pub open spec fn amount(stack: ItemStack, item: u16) -> int {
    if stack.item == item {
        stack.item_count as int
    } else {
        0
    }
}

proof fn lemma_total_push(s: Seq<ItemStack>, stack: ItemStack, item: u16)
    ensures
        total(s.push(stack), item) == total(s, item) + amount(stack, item),
{
    assert(s.push(stack).drop_last() =~= s);
}

proof fn lemma_total_concat(a: Seq<ItemStack>, b: Seq<ItemStack>, item: u16)
    ensures
        total(a + b, item) == total(a, item) + total(b, item),
    decreases b.len(),
{
    if b.len() == 0 {
        assert(a + b =~= a);
    } else {
        lemma_total_concat(a, b.drop_last(), item);
        assert((a + b).drop_last() =~= a + b.drop_last());
    }
}

proof fn lemma_total_update(s: Seq<ItemStack>, i: int, stack: ItemStack, item: u16)
    requires
        0 <= i < s.len(),
    ensures
        total(s.update(i, stack), item) == total(s, item) - amount(s[i], item) + amount(stack, item),
    decreases s.len(),
{
    if i == s.len() - 1 {
        assert(s.update(i, stack).drop_last() =~= s.drop_last());
    } else {
        lemma_total_update(s.drop_last(), i, stack, item);
        assert(s.update(i, stack).drop_last() =~= s.drop_last().update(i, stack));
    }
}

proof fn lemma_total_dropped(s: Seq<ItemStack>, i: int, item: u16)
    requires
        0 <= i < s.len(),
    ensures
        total(dropped(s, i), item) == total(s, item) - amount(s[i], item),
{
    let u = s.update(i, s.last());
    lemma_total_update(s, i, s.last(), item);
    assert(u.last() == s.last());
}

proof fn lemma_total_shuffled<R: RandomSource>(s: Seq<ItemStack>, top: int, rng: R, item: u16)
    requires
        top < s.len(),
    ensures
        total(shuffled(s, top, rng).0, item) == total(s, item),
    decreases top,
{
    if top >= 1 {
        rng.draws_below(top + 1);
        let j = rng.bounded(top + 1);
        let first = s.update(top, s[j]);
        lemma_total_update(s, top, s[j], item);
        lemma_total_update(first, j, s[top], item);
        lemma_total_shuffled(swapped(s, top, j), top - 1, rng.after_bounded(top + 1), item);
    }
}

proof fn lemma_total_parted(
    result: Seq<ItemStack>,
    splittable: Seq<ItemStack>,
    i: nat,
    item: u16,
)
    requires
        item != AIR,
        all_large(splittable),
    ensures
        ({
            let (a, b) = parted(result, splittable, i);
            &&& total(a, item) + total(b, item) == total(result, item) + total(splittable, item)
            &&& all_large(b)
        }),
    decreases result.len() - i,
{
    if i < result.len() {
        let stack = result[i as int];
        lemma_total_dropped(result, i as int, item);
        lemma_total_push(splittable, stack, item);
        if stack.nothing() {
            lemma_total_parted(dropped(result, i as int), splittable, i, item);
        } else if stack.item_count > 1 {
            lemma_total_parted(dropped(result, i as int), splittable.push(stack), i, item);
        } else {
            lemma_total_parted(result, splittable, i + 1, item);
        }
    }
}

proof fn lemma_total_put_back<R: RandomSource>(
    stack: ItemStack,
    result: Seq<ItemStack>,
    splittable: Seq<ItemStack>,
    rng: R,
    item: u16,
)
    requires
        all_large(splittable),
    ensures
        ({
            let (a, b, _) = put_back(stack, result, splittable, rng);
            &&& total(a, item) + total(b, item) == total(result, item) + total(splittable, item)
                + amount(stack, item)
            &&& all_large(b)
            &&& a.len() + b.len() == result.len() + splittable.len() + 1
        }),
{
    lemma_total_push(result, stack, item);
    lemma_total_push(splittable, stack, item);
}

proof fn lemma_total_split<R: RandomSource>(
    result: Seq<ItemStack>,
    splittable: Seq<ItemStack>,
    slots: nat,
    rng: R,
    item: u16,
)
    requires
        all_large(splittable),
    ensures
        ({
            let (a, b, _) = split(result, splittable, slots, rng);
            total(a, item) + total(b, item) == total(result, item) + total(splittable, item)
        }),
    decreases slots - (result.len() + splittable.len()),
{
    if slots > result.len() + splittable.len() && splittable.len() > 0 {
        let at = rng.bounded(splittable.len() as int);
        rng.draws_below(splittable.len() as int);
        let r1 = rng.after_bounded(splittable.len() as int);
        let stack = splittable[at];
        let half = stack.item_count as int / 2;
        r1.draws_below(half);
        let moved = 1 + r1.bounded(half);
        let r2 = r1.after_bounded(half);
        let kept = ItemStack { item: stack.item, item_count: (stack.item_count - moved) as u8 };
        let copy = ItemStack { item: stack.item, item_count: moved as u8 };
        lemma_dropped_large(splittable, at);
        lemma_total_dropped(splittable, at, item);
        lemma_total_put_back(kept, result, dropped(splittable, at), r2, item);
        let (result1, splittable1, r3) = put_back(kept, result, dropped(splittable, at), r2);
        lemma_total_put_back(copy, result1, splittable1, r3, item);
        let (result2, splittable2, r4) = put_back(copy, result1, splittable1, r3);
        lemma_total_split(result2, splittable2, slots, r4, item);
    }
}

/// Splitting and shuffling stacks neither loses nor makes an item: of every kind there are
/// as many as before.
pub proof fn law_splitting_keeps_the_items<R: RandomSource>(
    items: Seq<ItemStack>,
    slots: nat,
    rng: R,
    item: u16,
)
    requires
        item != AIR,
    ensures
        total(split_and_shuffled(items, slots, rng).0, item) == total(items, item),
{
    let none = Seq::<ItemStack>::empty();
    lemma_total_parted(items, none, 0, item);
    let (result, splittable) = parted(items, none, 0);
    lemma_total_split(result, splittable, slots, rng, item);
    let (result2, splittable2, after) = split(result, splittable, slots, rng);
    let all = result2 + splittable2;
    lemma_total_concat(result2, splittable2, item);
    lemma_total_shuffled(all, all.len() - 1, after, item);
}

/// How many stacks stand for something.
pub open spec fn solid_count(stacks: Seq<ItemStack>) -> nat
    decreases stacks.len(),
{
    if stacks.len() == 0 {
        0
    } else {
        solid_count(stacks.drop_last()) + solid(stacks.last())
    }
}

/// One for a stack that stands for something, and else none.
pub open spec fn solid(stack: ItemStack) -> nat {
    if stack.nothing() {
        0
    } else {
        1
    }
}

/// Whether every stack stands for something.
pub open spec fn all_solid(stacks: Seq<ItemStack>) -> bool {
    forall|i: int| 0 <= i < stacks.len() ==> !(#[trigger] stacks[i]).nothing()
}

proof fn lemma_solid_update(s: Seq<ItemStack>, i: int, stack: ItemStack)
    requires
        0 <= i < s.len(),
    ensures
        solid_count(s.update(i, stack)) + solid(s[i]) == solid_count(s) + solid(stack),
    decreases s.len(),
{
    if i == s.len() - 1 {
        assert(s.update(i, stack).drop_last() =~= s.drop_last());
    } else {
        lemma_solid_update(s.drop_last(), i, stack);
        assert(s.update(i, stack).drop_last() =~= s.drop_last().update(i, stack));
    }
}

proof fn lemma_solid_bounds(s: Seq<ItemStack>)
    ensures
        solid_count(s) <= s.len(),
        all_solid(s) ==> solid_count(s) == s.len(),
    decreases s.len(),
{
    if s.len() > 0 {
        lemma_solid_bounds(s.drop_last());
        if all_solid(s) {
            assert(all_solid(s.drop_last()));
            assert(!s[s.len() - 1].nothing());
        }
    }
}

proof fn lemma_solid_parted(result: Seq<ItemStack>, splittable: Seq<ItemStack>, i: nat)
    requires
        i <= result.len(),
        all_solid(result.take(i as int)),
        all_solid(splittable),
        all_large(splittable),
    ensures
        ({
            let (a, b) = parted(result, splittable, i);
            &&& all_solid(a)
            &&& all_solid(b)
            &&& all_large(b)
            &&& a.len() + b.len() == solid_count(result) + splittable.len()
        }),
    decreases result.len() - i,
{
    if i >= result.len() {
        assert(result.take(i as int) =~= result);
        lemma_solid_bounds(result);
    } else {
        let stack = result[i as int];
        let rest = dropped(result, i as int);
        lemma_solid_update(result, i as int, result.last());
        assert(rest.take(i as int) =~= result.take(i as int));
        if stack.nothing() {
            lemma_solid_parted(rest, splittable, i);
        } else if stack.item_count > 1 {
            lemma_solid_parted(rest, splittable.push(stack), i);
        } else {
            let longer = result.take(i as int + 1);
            assert forall|k: int| 0 <= k < longer.len() implies !(#[trigger] longer[k]).nothing() by {
                if k < i {
                    assert(longer[k] == result.take(i as int)[k]);
                }
            }
            lemma_solid_parted(result, splittable, i + 1);
        }
    }
}

proof fn lemma_solid_split<R: RandomSource>(
    result: Seq<ItemStack>,
    splittable: Seq<ItemStack>,
    slots: nat,
    rng: R,
)
    requires
        all_solid(result),
        all_solid(splittable),
        all_large(splittable),
    ensures
        ({
            let (a, b, _) = split(result, splittable, slots, rng);
            let before = result.len() + splittable.len();
            &&& all_solid(a)
            &&& all_solid(b)
            &&& before <= a.len() + b.len()
            &&& a.len() + b.len() <= before || a.len() + b.len() <= slots
        }),
    decreases slots - (result.len() + splittable.len()),
{
    if slots > result.len() + splittable.len() && splittable.len() > 0 {
        let at = rng.bounded(splittable.len() as int);
        rng.draws_below(splittable.len() as int);
        let r1 = rng.after_bounded(splittable.len() as int);
        let stack = splittable[at];
        let half = stack.item_count as int / 2;
        r1.draws_below(half);
        let moved = 1 + r1.bounded(half);
        let r2 = r1.after_bounded(half);
        let kept = ItemStack { item: stack.item, item_count: (stack.item_count - moved) as u8 };
        let copy = ItemStack { item: stack.item, item_count: moved as u8 };
        lemma_dropped_large(splittable, at);
        assert(!stack.nothing());
        assert(!kept.nothing() && !copy.nothing());
        assert(all_solid(dropped(splittable, at)));
        let (result1, splittable1, r3) = put_back(kept, result, dropped(splittable, at), r2);
        let (result2, splittable2, r4) = put_back(copy, result1, splittable1, r3);
        lemma_solid_split(result2, splittable2, slots, r4);
    }
}

/// Splitting leaves no stack of nothing. There are at least as many stacks as stood for
/// something before, and no more than that, or else than there is room for.
pub proof fn law_splitting_leaves_no_empty_stack<R: RandomSource>(
    items: Seq<ItemStack>,
    slots: nat,
    rng: R,
)
    ensures
        all_solid(split_and_shuffled(items, slots, rng).0),
        solid_count(items) <= split_and_shuffled(items, slots, rng).0.len(),
        split_and_shuffled(items, slots, rng).0.len() <= (if solid_count(items) >= slots {
            solid_count(items)
        } else {
            slots
        }),
{
    broadcast use vstd::seq_lib::group_to_multiset_ensures;

    let none = Seq::<ItemStack>::empty();
    lemma_solid_parted(items, none, 0);
    let (result, splittable) = parted(items, none, 0);
    lemma_solid_split(result, splittable, slots, rng);
    let (result2, splittable2, after) = split(result, splittable, slots, rng);
    let all = result2 + splittable2;
    crate::random::law_shuffle_keeps_items(all, after);
    let out = split_and_shuffled(items, slots, rng).0;
    assert forall|i: int| 0 <= i < out.len() implies !(#[trigger] out[i]).nothing() by {
        assert(out.contains(out[i]));
        assert(out.to_multiset().count(out[i]) > 0);
        assert(all.contains(out[i]));
    }
}

/// Splitting makes no more stacks than there is room for: loot that fits still fits.
pub proof fn law_splitting_keeps_to_the_room<R: RandomSource>(
    items: Seq<ItemStack>,
    slots: nat,
    rng: R,
)
    requires
        items.len() <= slots,
    ensures
        split_and_shuffled(items, slots, rng).0.len() <= slots,
{
    lemma_solid_bounds(items);
    law_splitting_leaves_no_empty_stack(items, slots, rng);
}

proof fn lemma_placed_keeps(
    inventory: Seq<ItemStack>,
    slots: Seq<usize>,
    stacks: Seq<ItemStack>,
    n: nat,
    k: int,
)
    requires
        n <= slots.len(),
        forall|i: int| 0 <= i < slots.len() ==> (#[trigger] slots[i]) < inventory.len(),
        0 <= k < inventory.len(),
        forall|i: int| 0 <= i < slots.len() ==> (#[trigger] slots[i]) != k,
    ensures
        placed(inventory, slots, stacks, n).len() == inventory.len(),
        placed(inventory, slots, stacks, n)[k] == inventory[k],
    decreases n,
{
    if n > 0 {
        lemma_placed_keeps(inventory, slots, stacks, (n - 1) as nat, k);
        assert(slots[slots.len() - n] != k);
    }
}

/// Filling a container leaves alone what is already in it.
pub proof fn law_filling_keeps_what_is_there<R: RandomSource>(
    inventory: Seq<ItemStack>,
    table: LootTable,
    items: Seq<Entry>,
    rng: R,
    k: int,
)
    requires
        inventory.len() <= usize::MAX,
        0 <= k < inventory.len(),
        !inventory[k].nothing(),
    ensures
        filled(inventory, table, items, rng).0[k] == inventory[k],
{
    let drops = loot(table, items, no_circumstances(), rng).0;
    if drops.len() > 0 {
        let free = free_slots(inventory, inventory.len());
        lemma_free_slots(inventory, inventory.len());
        lemma_shuffled_slots(free, rng, inventory.len());
        let (slots, after) = shuffled(free, free.len() - 1, rng);
        let stacks = split_and_shuffled(drops, slots.len(), after).0;
        assert forall|i: int| 0 <= i < slots.len() implies (#[trigger] slots[i]) != k by {
            assert(free.contains(slots[i]));
            let j = choose|j: int| 0 <= j < free.len() && free[j] == slots[i];
            assert(inventory[free[j] as int].nothing());
        }
        let n = if stacks.len() <= slots.len() {
            stacks.len()
        } else {
            slots.len()
        };
        lemma_placed_keeps(inventory, slots, stacks, n, k);
    }
}

/// Whether no place is listed twice.
spec fn distinct(slots: Seq<usize>) -> bool {
    forall|i: int, j: int| 0 <= i < j < slots.len() ==> slots[i] != slots[j]
}

proof fn lemma_distinct_shuffled<R: RandomSource>(s: Seq<usize>, top: int, rng: R)
    requires
        top < s.len(),
        distinct(s),
    ensures
        distinct(shuffled(s, top, rng).0),
    decreases top,
{
    if top >= 1 {
        rng.draws_below(top + 1);
        let next = swapped(s, top, rng.bounded(top + 1));
        assert(distinct(next));
        lemma_distinct_shuffled(next, top - 1, rng.after_bounded(top + 1));
    }
}

proof fn lemma_free_distinct(inventory: Seq<ItemStack>, n: nat)
    requires
        n <= inventory.len() <= usize::MAX,
    ensures
        distinct(free_slots(inventory, n)),
        free_slots(inventory, n).len() + solid_count(inventory.take(n as int)) == n,
    decreases n,
{
    if n > 0 {
        lemma_free_distinct(inventory, (n - 1) as nat);
        lemma_free_slots(inventory, (n - 1) as nat);
        assert(inventory.take(n as int).drop_last() =~= inventory.take(n - 1));
        assert(inventory.take(n as int).last() == inventory[n - 1]);
    }
}

proof fn lemma_free_listed(inventory: Seq<ItemStack>, n: nat, k: int)
    requires
        n <= inventory.len() <= usize::MAX,
        0 <= k < n,
        inventory[k].nothing(),
    ensures
        free_slots(inventory, n).contains(k as usize),
    decreases n,
{
    let before = free_slots(inventory, (n - 1) as nat);
    if k == n - 1 {
        assert(free_slots(inventory, n)[before.len() as int] == k);
    } else {
        lemma_free_listed(inventory, (n - 1) as nat, k);
        let i = choose|i: int| 0 <= i < before.len() && before[i] == k as usize;
        assert(free_slots(inventory, n)[i] == before[i]);
    }
}

proof fn lemma_total_placed(
    inventory: Seq<ItemStack>,
    slots: Seq<usize>,
    stacks: Seq<ItemStack>,
    n: nat,
    item: u16,
)
    requires
        item != AIR,
        n <= slots.len(),
        n <= stacks.len(),
        distinct(slots),
        forall|i: int|
            0 <= i < slots.len() ==> (#[trigger] slots[i]) < inventory.len()
                && inventory[slots[i] as int].nothing(),
    ensures
        placed(inventory, slots, stacks, n).len() == inventory.len(),
        total(placed(inventory, slots, stacks, n), item) == total(inventory, item) + total(
            stacks.take(n as int),
            item,
        ),
        forall|i: int|
            0 <= i < slots.len() - n ==> placed(inventory, slots, stacks, n)[(
            #[trigger] slots[i]) as int] == inventory[slots[i] as int],
        forall|i: int|
            slots.len() - n <= i < slots.len() ==> placed(inventory, slots, stacks, n)[(
            #[trigger] slots[i]) as int] == stacks[slots.len() - 1 - i],
    decreases n,
{
    if n > 0 {
        let m = (n - 1) as nat;
        lemma_total_placed(inventory, slots, stacks, m, item);
        let before = placed(inventory, slots, stacks, m);
        let at = slots[slots.len() - n] as int;
        assert(before[at] == inventory[at]);
        lemma_total_update(before, at, stacks[n - 1], item);
        assert(stacks.take(n as int).drop_last() =~= stacks.take(n - 1));
        assert(stacks.take(n as int).last() == stacks[n - 1]);
    } else {
        assert(stacks.take(0).len() == 0);
    }
}

/// All loot that finds room is laid into the container: of every kind there are as many items
/// more as the loot holds.
pub proof fn law_all_loot_is_laid_down<R: RandomSource>(
    inventory: Seq<ItemStack>,
    table: LootTable,
    items: Seq<Entry>,
    rng: R,
    item: u16,
)
    requires
        inventory.len() <= usize::MAX,
        item != AIR,
        filled(inventory, table, items, rng).1,
    ensures
        total(filled(inventory, table, items, rng).0, item) == total(inventory, item) + total(
            loot(table, items, no_circumstances(), rng).0,
            item,
        ),
{
    let drops = loot(table, items, no_circumstances(), rng).0;
    if drops.len() > 0 {
        let free = free_slots(inventory, inventory.len());
        let (slots, after) = shuffled(free, free.len() - 1, rng);
        let stacks = split_and_shuffled(drops, slots.len(), after).0;
        lemma_free_slots(inventory, inventory.len());
        lemma_free_distinct(inventory, inventory.len());
        lemma_distinct_shuffled(free, free.len() - 1, rng);
        lemma_shuffled_slots(free, rng, inventory.len());
        assert forall|i: int| 0 <= i < slots.len() implies (#[trigger] slots[i]) < inventory.len()
            && inventory[slots[i] as int].nothing() by {
            assert(free.contains(slots[i]));
        }
        lemma_total_placed(inventory, slots, stacks, stacks.len(), item);
        assert(stacks.take(stacks.len() as int) =~= stacks);
        law_splitting_keeps_the_items(drops, slots.len(), after, item);
    }
}

/// Loot finds room just where it has no more stacks than the container has empty places. Where
/// it does not, no place of the container stays empty.
pub proof fn law_loot_finds_room_in_empty_places<R: RandomSource>(
    inventory: Seq<ItemStack>,
    table: LootTable,
    items: Seq<Entry>,
    rng: R,
)
    requires
        inventory.len() <= usize::MAX,
    ensures
        filled(inventory, table, items, rng).1 <==> solid_count(
            loot(table, items, no_circumstances(), rng).0,
        ) + solid_count(inventory) <= inventory.len(),
        filled(inventory, table, items, rng).0.len() == inventory.len(),
        !filled(inventory, table, items, rng).1 ==> all_solid(
            filled(inventory, table, items, rng).0,
        ),
{
    let drops = loot(table, items, no_circumstances(), rng).0;
    lemma_free_distinct(inventory, inventory.len());
    assert(inventory.take(inventory.len() as int) =~= inventory);
    lemma_solid_bounds(inventory);
    if drops.len() > 0 {
        let free = free_slots(inventory, inventory.len());
        let (slots, after) = shuffled(free, free.len() - 1, rng);
        let stacks = split_and_shuffled(drops, slots.len(), after).0;
        lemma_free_slots(inventory, inventory.len());
        lemma_distinct_shuffled(free, free.len() - 1, rng);
        lemma_shuffled_slots(free, rng, inventory.len());
        assert forall|i: int| 0 <= i < slots.len() implies (#[trigger] slots[i]) < inventory.len()
            && inventory[slots[i] as int].nothing() by {
            assert(free.contains(slots[i]));
        }
        law_splitting_leaves_no_empty_stack(drops, slots.len(), after);
        let n = if stacks.len() <= slots.len() {
            stacks.len()
        } else {
            slots.len()
        };
        lemma_total_placed(inventory, slots, stacks, n, (AIR + 1) as u16);
        let done = placed(inventory, slots, stacks, n);
        if stacks.len() > slots.len() {
            assert forall|k: int| 0 <= k < done.len() implies !(#[trigger] done[k]).nothing() by {
                if inventory[k].nothing() {
                    lemma_free_listed(inventory, inventory.len(), k);
                    lemma_slot_shuffled(free, rng, k as usize);
                    let i = choose|i: int| 0 <= i < slots.len() && slots[i] == k as usize;
                    assert(done[slots[i] as int] == stacks[slots.len() - 1 - i]);
                } else {
                    law_filling_keeps_what_is_there(inventory, table, items, rng, k);
                }
            }
        }
    } else {
        assert(solid_count(drops) == 0);
    }
}

proof fn lemma_slot_shuffled<R: RandomSource>(free: Seq<usize>, rng: R, k: usize)
    requires
        free.contains(k),
    ensures
        shuffled(free, free.len() - 1, rng).0.contains(k),
{
    crate::random::law_shuffle_keeps_items(free, rng);
    free.to_multiset_ensures();
    shuffled(free, free.len() - 1, rng).0.to_multiset_ensures();
    assert(free.to_multiset().count(k) > 0);
    assert(shuffled(free, free.len() - 1, rng).0.to_multiset().count(k) > 0);
}

/// A split moves one to half of a stack's items, as drawn, to a stack of their own, and leaves
/// the rest.
pub proof fn law_a_split_moves_a_drawn_part<R: RandomSource>(stack: ItemStack, rng: R)
    requires
        stack.item_count > 1,
    ensures
        ({
            let (result, splittable, _) = split(Seq::empty(), seq![stack], 2, rng);
            let moved = 1 + rng.after_bounded(1).bounded(stack.item_count as int / 2);
            let kept = ItemStack { item: stack.item, item_count: (stack.item_count - moved) as u8 };
            let copy = ItemStack { item: stack.item, item_count: moved as u8 };
            let all = result + splittable;
            &&& 1 <= moved <= stack.item_count - moved
            &&& all.len() == 2
            &&& all == seq![kept, copy] || all == seq![copy, kept]
        }),
{
    rng.draws_below(1);
    let half = stack.item_count as int / 2;
    let r1 = rng.after_bounded(1);
    r1.draws_below(half);
    reveal_with_fuel(split, 2);
    let one = seq![stack];
    assert(dropped(one, 0) =~= Seq::<ItemStack>::empty());
    let moved = 1 + r1.bounded(half);
    let kept = ItemStack { item: stack.item, item_count: (stack.item_count - moved) as u8 };
    let copy = ItemStack { item: stack.item, item_count: moved as u8 };
    let (result, splittable, _) = split(Seq::empty(), one, 2, rng);
    let all = result + splittable;
    assert(all =~= seq![kept, copy] || all =~= seq![copy, kept]);
}

} // verus!
