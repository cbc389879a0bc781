//! Random draws, and what is built from them alone.

use vstd::prelude::*;

verus! {

/// How many values a unit draw can take: a unit draw `k` stands for the fraction
/// `k / UNIT`.
pub const UNIT: u32 = 0x0100_0000;

/// A chance: how many of the `UNIT` values of a unit draw mean success. A draw succeeds
/// where it lies below the chance.
pub type Chance = u32;

/// A source of random draws. What it draws next is a function of its state.
pub trait RandomSource: Sized {
    /// The number below `bound` that comes next.
    spec fn bounded(&self, bound: int) -> int;

    /// The source behind that draw.
    spec fn after_bounded(&self, bound: int) -> Self;

    /// The unit draw that comes next.
    spec fn unit(&self) -> int;

    /// The source behind that draw.
    spec fn after_unit(&self) -> Self;

    /// The flag that comes next.
    spec fn flag(&self) -> bool;

    /// The source behind that draw.
    spec fn after_flag(&self) -> Self;

    /// The source behind the draw of a fraction in double precision.
    spec fn after_double(&self) -> Self;

    /// A number that is drawn lies within its bound.
    proof fn draws_below(&self, bound: int)
        requires
            bound > 0,
        ensures
            0 <= self.bounded(bound) < bound,
    ;

    /// Draws a number below `bound`.
    fn next_bounded_i32(&mut self, bound: i32) -> (r: i32)
        requires
            bound > 0,
        ensures
            0 <= r < bound,
            r == old(self).bounded(bound as int),
            *final(self) == old(self).after_bounded(bound as int),
    ;

    /// Draws one of the `UNIT` fractions.
    fn next_unit(&mut self) -> (r: u32)
        ensures
            r < UNIT,
            r == old(self).unit(),
            *final(self) == old(self).after_unit(),
    ;

    /// Draws a flag.
    fn next_bool(&mut self) -> (r: bool)
        ensures
            r == old(self).flag(),
            *final(self) == old(self).after_flag(),
    ;

    /// Draws a fraction in double precision that nobody looks at.
    fn skip_f64(&mut self)
        ensures
            *final(self) == old(self).after_double(),
    ;

    /// A second source in the same state.
    fn twin(&self) -> (r: Self)
        ensures
            r == *self,
    ;
}

/// A source that draws from a list: each draw takes the next number of the list, reduced
/// to the range that is asked for. Behind the list's end every number is zero.
pub struct ListedDraws<'a> {
    pub numbers: &'a [u32],
    pub next: usize,
}

impl<'a> ListedDraws<'a> {
    /// A source at the start of a list.
    pub fn new(numbers: &'a [u32]) -> (r: Self)
        ensures
            r.numbers == numbers,
            r.next == 0,
    {
        ListedDraws { numbers, next: 0 }
    }

    /// The number that comes next.
    pub open spec fn number(&self) -> u32 {
        if self.next < self.numbers@.len() {
            self.numbers@[self.next as int]
        } else {
            0
        }
    }

    /// The source behind one number.
    pub open spec fn behind(&self) -> Self {
        if self.next < self.numbers@.len() {
            ListedDraws { numbers: self.numbers, next: (self.next + 1) as usize }
        } else {
            *self
        }
    }

    fn take_number(&mut self) -> (r: u32)
        ensures
            r == old(self).number(),
            *final(self) == old(self).behind(),
    {
        if self.next < self.numbers.len() {
            let r: u32 = self.numbers[self.next];
            self.next = self.next + 1;
            r
        } else {
            0
        }
    }
}

impl<'a> RandomSource for ListedDraws<'a> {
    open spec fn bounded(&self, bound: int) -> int {
        self.number() as int % bound
    }

    open spec fn after_bounded(&self, bound: int) -> Self {
        self.behind()
    }

    open spec fn unit(&self) -> int {
        self.number() as int % UNIT as int
    }

    open spec fn after_unit(&self) -> Self {
        self.behind()
    }

    open spec fn flag(&self) -> bool {
        self.number() % 2 == 1
    }

    open spec fn after_flag(&self) -> Self {
        self.behind()
    }

    open spec fn after_double(&self) -> Self {
        self.behind()
    }

    proof fn draws_below(&self, bound: int) {
    }

    fn next_bounded_i32(&mut self, bound: i32) -> (r: i32) {
        let n: u32 = self.take_number();
        (n % bound as u32) as i32
    }

    fn next_unit(&mut self) -> (r: u32) {
        self.take_number() % UNIT
    }

    fn next_bool(&mut self) -> (r: bool) {
        self.take_number() % 2 == 1
    }

    fn skip_f64(&mut self) {
        let _ = self.take_number();
    }

    fn twin(&self) -> (r: Self) {
        ListedDraws { numbers: self.numbers, next: self.next }
    }
}

/// Two items of a list, exchanged.
pub open spec fn swapped<T>(s: Seq<T>, i: int, j: int) -> Seq<T> {
    s.update(i, s[j]).update(j, s[i])
}

/// A list after the items from `top` down have each changed places with one at or before
/// them, drawn in turn.
pub open spec fn shuffled<T, R: RandomSource>(s: Seq<T>, top: int, rng: R) -> (Seq<T>, R)
    decreases top,
{
    if top < 1 {
        (s, rng)
    } else {
        shuffled(
            swapped(s, top, rng.bounded(top + 1)),
            top - 1,
            rng.after_bounded(top + 1),
        )
    }
}

/// Exchanges two items of a list.
pub fn swap<T: Copy>(v: &mut Vec<T>, i: usize, j: usize)
    requires
        i < old(v)@.len(),
        j < old(v)@.len(),
    ensures
        final(v)@ == swapped(old(v)@, i as int, j as int),
{
    let a = v[i];
    let b = v[j];
    v.set(i, b);
    v.set(j, a);
}

/// Shuffles a list.
pub fn shuffle<T: Copy, R: RandomSource>(v: &mut Vec<T>, rng: &mut R)
    requires
        old(v)@.len() <= i32::MAX,
    ensures
        (final(v)@, *final(rng)) == shuffled(old(v)@, old(v)@.len() - 1, *old(rng)),
{
    let n: usize = v.len();
    let mut i: usize = n;
    while i > 1
        invariant
            i <= n == v@.len(),
            n <= i32::MAX,
            n == old(v)@.len(),
            shuffled(v@, i - 1, *rng) == shuffled(old(v)@, old(v)@.len() - 1, *old(rng)),
        decreases i,
    {
        i = i - 1;
        let j: usize = rng.next_bounded_i32((i + 1) as i32) as usize;
        swap(v, i, j);
    }
}

proof fn lemma_swap_keeps_items<T>(s: Seq<T>, i: int, j: int)
    requires
        0 <= i < s.len(),
        0 <= j < s.len(),
    ensures
        swapped(s, i, j).to_multiset() == s.to_multiset(),
        swapped(s, i, j).len() == s.len(),
{
    broadcast use vstd::seq_lib::group_to_multiset_ensures;

    let m = s.to_multiset();
    let first = s.update(i, s[j]);
    assert(first.to_multiset() =~= m.remove(s[i]).insert(s[j]));
    assert(first.update(j, s[i]).to_multiset() =~= first.to_multiset().remove(first[j]).insert(
        s[i],
    ));
    assert(s.to_multiset().contains(s[i]));
    assert(m.remove(s[i]).insert(s[j]).remove(s[j]).insert(s[i]) =~= m);
}

/// Shuffling a list neither drops nor adds nor changes an item.
pub proof fn law_shuffle_keeps_items<T, R: RandomSource>(s: Seq<T>, rng: R)
    ensures
        shuffled(s, s.len() - 1, rng).0.to_multiset() == s.to_multiset(),
        shuffled(s, s.len() - 1, rng).0.len() == s.len(),
{
    lemma_shuffled_keeps_items(s, s.len() - 1, rng);
}

proof fn lemma_shuffled_keeps_items<T, R: RandomSource>(s: Seq<T>, top: int, rng: R)
    requires
        top < s.len(),
    ensures
        shuffled(s, top, rng).0.to_multiset() == s.to_multiset(),
        shuffled(s, top, rng).0.len() == s.len(),
    decreases top,
{
    if top >= 1 {
        rng.draws_below(top + 1);
        let j = rng.bounded(top + 1);
        lemma_swap_keeps_items(s, top, j);
        lemma_shuffled_keeps_items(swapped(s, top, j), top - 1, rng.after_bounded(top + 1));
    }
}

proof fn lemma_shuffled_above<T, R: RandomSource>(s: Seq<T>, top: int, rng: R, k: int)
    requires
        top < k < s.len(),
    ensures
        shuffled(s, top, rng).0.len() == s.len(),
        shuffled(s, top, rng).0[k] == s[k],
    decreases top,
{
    if top >= 1 {
        rng.draws_below(top + 1);
        lemma_shuffled_above(
            swapped(s, top, rng.bounded(top + 1)),
            top - 1,
            rng.after_bounded(top + 1),
            k,
        );
    }
}

/// Shuffling draws for each place from the last on: what is drawn of the items up to the place
/// stays in it, and the item that was there takes the place of the drawn one.
pub proof fn law_shuffling_draws_for_each_place<T, R: RandomSource>(s: Seq<T>, rng: R)
    requires
        s.len() >= 2,
    ensures
        ({
            let n = s.len() as int;
            let drawn = rng.bounded(n);
            let (order, after) = shuffled(s, n - 1, rng);
            let others = Seq::new(
                (n - 1) as nat,
                |i: int|
                    if i == drawn {
                        s[n - 1]
                    } else {
                        s[i]
                    },
            );
            &&& order[n - 1] == s[drawn]
            &&& order.drop_last() == shuffled(others, n - 2, rng.after_bounded(n)).0
            &&& after == shuffled(others, n - 2, rng.after_bounded(n)).1
        }),
{
    let n = s.len() as int;
    rng.draws_below(n);
    let drawn = rng.bounded(n);
    let r1 = rng.after_bounded(n);
    let once = swapped(s, n - 1, drawn);
    let others = Seq::new(
        (n - 1) as nat,
        |i: int|
            if i == drawn {
                s[n - 1]
            } else {
                s[i]
            },
    );
    assert(once =~= others.push(s[drawn]));
    lemma_shuffled_above(once, n - 2, r1, n - 1);
    lemma_shuffled_front(others, s[drawn], n - 2, r1);
    assert(shuffled(others, n - 2, r1).0.push(s[drawn]).drop_last() =~= shuffled(
        others,
        n - 2,
        r1,
    ).0);
}

proof fn lemma_shuffled_front<T, R: RandomSource>(s: Seq<T>, last: T, top: int, rng: R)
    requires
        top < s.len(),
    ensures
        shuffled(s.push(last), top, rng).0 == shuffled(s, top, rng).0.push(last),
        shuffled(s.push(last), top, rng).1 == shuffled(s, top, rng).1,
    decreases top,
{
    if top >= 1 {
        rng.draws_below(top + 1);
        let d = rng.bounded(top + 1);
        assert(swapped(s.push(last), top, d) =~= swapped(s, top, d).push(last));
        lemma_shuffled_front(swapped(s, top, d), last, top - 1, rng.after_bounded(top + 1));
    }
}

/// Listed draws come in order, each reduced to what was asked for, and are all zero behind the
/// end of the list.
pub proof fn law_listed_draws_come_in_order<'a>(draws: ListedDraws<'a>, bound: int)
    requires
        bound > 0,
        draws.numbers@.len() <= usize::MAX,
    ensures
        draws.next < draws.numbers@.len() ==> {
            let number = draws.numbers@[draws.next as int];
            &&& draws.bounded(bound) == number as int % bound
            &&& number < bound ==> draws.bounded(bound) == number
            &&& number < 0x0100_0000 ==> draws.unit() == number
            &&& draws.flag() <==> number % 2 == 1
            &&& draws.after_bounded(bound).next == draws.next + 1
            &&& draws.after_unit().next == draws.next + 1
            &&& draws.after_flag().next == draws.next + 1
            &&& draws.after_double().next == draws.next + 1
        },
        draws.next >= draws.numbers@.len() ==> {
            &&& draws.bounded(bound) == 0
            &&& draws.unit() == 0
            &&& !draws.flag()
            &&& draws.after_bounded(bound) == draws
        },
        draws.after_bounded(bound).numbers == draws.numbers,
{
    if draws.next < draws.numbers@.len() && draws.numbers@[draws.next as int] < bound {
        vstd::arithmetic::div_mod::lemma_small_mod(
            draws.numbers@[draws.next as int] as nat,
            bound as nat,
        );
    }
    if draws.next >= draws.numbers@.len() {
        vstd::arithmetic::div_mod::lemma_small_mod(0, bound as nat);
    }
}

} // verus!
