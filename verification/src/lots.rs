//! First-in, first-out lot accounting, shared by the share portfolio and the
//! retirement account.
//!
//! A pool is a queue of lots. Contributions join at the back; withdrawals
//! consume from the front, oldest lot first, splitting the head lot when the
//! request ends inside it.

use crate::fixed::{cap_i64, cap_u64, min_int, mul_div, narrow, sat_add, scale, scaled};
use std::collections::VecDeque;
use vstd::arithmetic::div_mod::{
    lemma_div_is_ordered, lemma_div_multiples_vanish, lemma_fundamental_div_mod,
};
use vstd::prelude::*;

verus! {

/// One contribution: what was paid in, what it has gained since, or lost
/// where the gain is negative, and for how many weeks it has been held. Sold
/// portions of a lot are reported in the same shape.
#[derive(Clone, Copy, Debug, PartialEq, Eq, Structural)]
pub struct Lot {
    pub principal: u64,
    pub gain: i64,
    pub weeks_held: usize,
}

impl Lot {
    /// The lot's value is an amount.
    pub open spec fn wf(self) -> bool {
        0 <= self.principal + self.gain <= u64::MAX
    }

    /// Principal plus gain.
    pub open spec fn value(self) -> int {
        self.principal + self.gain
    }

    /// The lot one week later under the weekly growth factor `factor`: the
    /// whole value grows, or shrinks under a factor below `ONE`, the gain
    /// becomes what the new value holds beyond the principal, and the holding
    /// period grows by one week.
    pub open spec fn grown(self, factor: int) -> Lot {
        Lot {
            principal: self.principal,
            gain: cap_i64(scaled(self.value() as u64, factor) - self.principal) as i64,
            weeks_held: min_int(self.weeks_held + 1, usize::MAX as int) as usize,
        }
    }

    /// The part of the lot that a withdrawal of `amount`, less than the lot's
    /// value, takes: principal in proportion, rounded down, and the rest of
    /// the amount as gain.
    pub open spec fn taken(self, amount: int) -> Lot {
        let principal = amount * self.principal / self.value();
        Lot {
            principal: principal as u64,
            gain: (amount - principal) as i64,
            weeks_held: self.weeks_held,
        }
    }

    /// What is left of the lot once `self.taken(amount)` has gone.
    pub open spec fn left(self, amount: int) -> Lot {
        let part = self.taken(amount);
        Lot {
            principal: (self.principal - part.principal) as u64,
            gain: (self.gain - part.gain) as i64,
            weeks_held: self.weeks_held,
        }
    }

    /// A fresh lot holding `initial_value` and no gain.
    pub fn new(initial_value: u64) -> (lot: Lot)
        ensures
            lot == (Lot { principal: initial_value, gain: 0, weeks_held: 0 }),
            lot.wf(),
    {
        Lot { principal: initial_value, gain: 0, weeks_held: 0 }
    }

    /// The lot's value.
    pub fn worth(&self) -> (v: u64)
        requires
            self.wf(),
        ensures
            v == self.value(),
    {
        (self.principal as i128 + self.gain as i128) as u64
    }

    /// Ages the lot by one week under the weekly growth factor `factor`.
    pub fn simulate_timestep(&mut self, factor: u64)
        requires
            old(self).wf(),
        ensures
            *final(self) == old(self).grown(factor as int),
            final(self).wf(),
    {
        let value: u64 = scale(self.worth(), factor);
        self.gain = narrow(value as i128 - self.principal as i128);
        if self.weeks_held < usize::MAX {
            self.weeks_held = self.weeks_held + 1;
        }
    }
}

/// Every lot of the sequence is well formed.
pub open spec fn all_wf(lots: Seq<Lot>) -> bool {
    forall|i: int| 0 <= i < lots.len() ==> (#[trigger] lots[i]).wf()
}

/// The combined value of a sequence of lots.
pub open spec fn total(lots: Seq<Lot>) -> int
    decreases lots.len(),
{
    if lots.len() == 0 {
        0
    } else {
        total(lots.drop_last()) + lots.last().value()
    }
}

/// Every lot of the sequence one week later.
pub open spec fn grown_all(lots: Seq<Lot>, factor: int) -> Seq<Lot> {
    Seq::new(lots.len(), |i: int| lots[i].grown(factor))
}

/// The portions that a withdrawal of `amount` takes from the queue, oldest
/// first: whole lots while the request covers them, then a part of the next.
pub open spec fn sold(lots: Seq<Lot>, amount: int) -> Seq<Lot>
    decreases lots.len(),
{
    if amount <= 0 || lots.len() == 0 {
        Seq::empty()
    } else if amount < lots[0].value() {
        seq![lots[0].taken(amount)]
    } else {
        seq![lots[0]] + sold(lots.subrange(1, lots.len() as int), amount - lots[0].value())
    }
}

/// The queue that a withdrawal of `amount` leaves behind.
pub open spec fn kept(lots: Seq<Lot>, amount: int) -> Seq<Lot>
    decreases lots.len(),
{
    if amount <= 0 || lots.len() == 0 {
        lots
    } else if amount < lots[0].value() {
        seq![lots[0].left(amount)] + lots.subrange(1, lots.len() as int)
    } else {
        kept(lots.subrange(1, lots.len() as int), amount - lots[0].value())
    }
}

/// The total of a queue is the value of its head plus the total of the rest.
pub proof fn lemma_total_head(lots: Seq<Lot>)
    requires
        lots.len() > 0,
    ensures
        total(lots) == lots[0].value() + total(lots.subrange(1, lots.len() as int)),
    decreases lots.len(),
{
    let rest = lots.subrange(1, lots.len() as int);
    if lots.len() == 1 {
        assert(total(lots.drop_last()) == 0);
        assert(total(rest) == 0);
    } else {
        lemma_total_head(lots.drop_last());
        assert(lots.drop_last().subrange(1, lots.len() - 1) =~= rest.drop_last());
        assert(rest.last() == lots.last());
        assert(lots.drop_last()[0] == lots[0]);
    }
}

/// The total of a queue with one more lot at the front.
pub proof fn lemma_total_cons(head: Lot, rest: Seq<Lot>)
    ensures
        total(seq![head] + rest) == head.value() + total(rest),
{
    let all = seq![head] + rest;
    lemma_total_head(all);
    assert(all.subrange(1, all.len() as int) =~= rest);
}

/// No total of well-formed lots is negative.
pub proof fn lemma_total_nonnegative(lots: Seq<Lot>)
    requires
        all_wf(lots),
    ensures
        total(lots) >= 0,
    decreases lots.len(),
{
    if lots.len() > 0 {
        assert(lots.last().wf());
        assert forall|i: int| 0 <= i < lots.drop_last().len() implies (
        #[trigger] lots.drop_last()[i]).wf() by {
            assert(lots.drop_last()[i] == lots[i]);
        }
        lemma_total_nonnegative(lots.drop_last());
    }
}

/// Splitting a lot never takes more principal than it holds, nor more of its
/// gain or of its loss, and the two parts add up to the lot.
pub proof fn lemma_split(lot: Lot, amount: int)
    requires
        lot.wf(),
        0 < amount < lot.value(),
    ensures
        0 <= amount * lot.principal / lot.value() <= lot.principal,
        lot.gain >= 0 ==> 0 <= amount - amount * lot.principal / lot.value() <= lot.gain,
        lot.gain <= 0 ==> lot.gain <= amount - amount * lot.principal / lot.value() <= 0,
        lot.taken(amount).value() == amount,
        lot.left(amount).value() == lot.value() - amount,
        lot.taken(amount).wf(),
        lot.left(amount).wf(),
{
    let p = lot.principal as int;
    let g = lot.gain as int;
    let v = lot.value();
    let q = amount * p / v;
    lemma_fundamental_div_mod(amount * p, v);
    assert(0 <= amount * p <= v * p) by (nonlinear_arith)
        requires
            0 < amount < v,
            0 <= p,
    ;
    lemma_div_is_ordered(0, amount * p, v);
    lemma_div_is_ordered(amount * p, v * p, v);
    lemma_div_multiples_vanish(p, v);
    assert(v * p == p * v) by (nonlinear_arith);
    assert(0 <= q <= p);
    if g >= 0 {
        assert(0 <= amount - q <= g) by (nonlinear_arith)
            requires
                amount * p == v * q + (amount * p) % v,
                0 <= (amount * p) % v < v,
                v == p + g,
                0 < amount < v,
                0 <= g,
                0 <= p,
        ;
    } else {
        assert(g <= amount - q <= 0) by (nonlinear_arith)
            requires
                amount * p == v * q + (amount * p) % v,
                0 <= (amount * p) % v < v,
                v == p + g,
                0 < amount < v,
                g < 0,
                0 <= p,
        ;
    }
}

/// What a withdrawal takes and what it leaves add up to the pool; it takes
/// exactly the amount asked for where the pool holds that much, and the whole
/// pool, leaving no lot behind, where it holds less.
pub proof fn lemma_sale_totals(lots: Seq<Lot>, amount: int)
    requires
        all_wf(lots),
        amount >= 0,
    ensures
        total(sold(lots, amount)) == min_int(amount, total(lots)),
        total(kept(lots, amount)) == total(lots) - total(sold(lots, amount)),
        amount > total(lots) ==> kept(lots, amount).len() == 0,
    decreases lots.len(),
{
    lemma_total_nonnegative(lots);
    if amount <= 0 || lots.len() == 0 {
        assert(total(Seq::<Lot>::empty()) == 0);
    } else {
        let head = lots[0];
        let rest = lots.subrange(1, lots.len() as int);
        lemma_total_head(lots);
        lemma_part_wf(lots, 1, lots.len() as int);
        lemma_total_nonnegative(rest);
        assert(head.wf());
        if amount < head.value() {
            lemma_split(head, amount);
            lemma_total_cons(head.taken(amount), Seq::empty());
            assert(seq![head.taken(amount)] + Seq::<Lot>::empty() =~= seq![head.taken(amount)]);
            assert(total(Seq::<Lot>::empty()) == 0);
            lemma_total_cons(head.left(amount), rest);
        } else {
            lemma_sale_totals(rest, amount - head.value());
            lemma_total_cons(head, sold(rest, amount - head.value()));
        }
    }
}

/// A withdrawal of well-formed lots takes and leaves well-formed lots.
pub proof fn lemma_sale_wf(lots: Seq<Lot>, amount: int)
    requires
        all_wf(lots),
    ensures
        all_wf(sold(lots, amount)),
        all_wf(kept(lots, amount)),
    decreases lots.len(),
{
    if amount <= 0 || lots.len() == 0 {
    } else {
        let head = lots[0];
        let rest = lots.subrange(1, lots.len() as int);
        lemma_part_wf(lots, 1, lots.len() as int);
        assert(head.wf());
        if amount < head.value() {
            lemma_split(head, amount);
        } else {
            lemma_sale_wf(rest, amount - head.value());
        }
    }
}

/// Well-formed lots stay well formed as they grow or shrink.
pub proof fn lemma_grown_wf(lots: Seq<Lot>, factor: int)
    requires
        all_wf(lots),
    ensures
        all_wf(grown_all(lots, factor)),
{
    assert forall|i: int| 0 <= i < lots.len() implies (#[trigger] grown_all(lots, factor)[i]).wf(
    ) by {
        assert(lots[i].wf());
    }
}

/// Every part of a sequence of well-formed lots is one.
pub proof fn lemma_part_wf(lots: Seq<Lot>, from: int, to: int)
    requires
        all_wf(lots),
        0 <= from <= to <= lots.len(),
    ensures
        all_wf(lots.subrange(from, to)),
{
    assert forall|i: int| 0 <= i < to - from implies (#[trigger] lots.subrange(from, to)[i]).wf(
    ) by {
        assert(lots.subrange(from, to)[i] == lots[from + i]);
    }
}

/// The combined value of a list of lots, capped at the largest amount.
pub fn value_of(lots: &Vec<Lot>) -> (v: u64)
    requires
        all_wf(lots@),
    ensures
        v == cap_u64(total(lots@)),
{
    let n: usize = lots.len();
    let mut sum: u64 = 0;
    let mut i: usize = 0;
    while i < n
        invariant
            i <= n,
            n == lots@.len(),
            all_wf(lots@),
            sum == cap_u64(total(lots@.take(i as int))),
        decreases n - i,
    {
        let lot: Lot = lots[i];
        proof {
            assert(lots@.take(i + 1).drop_last() =~= lots@.take(i as int));
            lemma_part_wf(lots@, 0, i as int);
            lemma_total_nonnegative(lots@.take(i as int));
            assert(lot.wf());
        }
        sum = sat_add(sum, lot.worth());
        i += 1;
    }
    assert(lots@.take(n as int) =~= lots@);
    sum
}

/// A queue of lots, oldest at the front.
pub struct Pool {
    lots: VecDeque<Lot>,
}

impl View for Pool {
    type V = Seq<Lot>;

    closed spec fn view(&self) -> Seq<Lot> {
        self.lots@
    }
}

impl Pool {
    /// Every lot in the pool is well formed.
    pub open spec fn wf(&self) -> bool {
        all_wf(self@)
    }

    /// An empty pool.
    pub fn new() -> (pool: Pool)
        ensures
            pool@ == Seq::<Lot>::empty(),
            pool.wf(),
    {
        Pool { lots: VecDeque::new() }
    }

    /// The number of lots in the pool.
    pub fn len(&self) -> (n: usize)
        ensures
            n == self@.len(),
    {
        self.lots.len()
    }

    /// The lot at position `i`, counted from the oldest.
    pub fn lot(&self, i: usize) -> (lot: Lot)
        requires
            i < self@.len(),
        ensures
            lot == self@[i as int],
    {
        self.lots[i]
    }

    /// Adds a lot at the back of the queue.
    pub fn push(&mut self, lot: Lot)
        requires
            old(self).wf(),
            lot.wf(),
        ensures
            final(self)@ == old(self)@.push(lot),
            final(self).wf(),
    {
        self.lots.push_back(lot);
    }

    /// Ages every lot by one week under the weekly growth factor `factor`.
    pub fn grow(&mut self, factor: u64)
        requires
            old(self).wf(),
        ensures
            final(self)@ == grown_all(old(self)@, factor as int),
            final(self).wf(),
    {
        let ghost before = self@;
        let n: usize = self.lots.len();
        let mut i: usize = 0;
        while i < n
            invariant
                i <= n,
                n == before.len(),
                all_wf(before),
                self.lots@.len() == n,
                forall|j: int| 0 <= j < n - i ==> #[trigger] self.lots@[j] == before[i + j],
                forall|j: int|
                    n - i <= j < n ==> #[trigger] self.lots@[j] == before[j - (n - i)].grown(
                        factor as int,
                    ),
                forall|j: int| n - i <= j < n ==> (#[trigger] self.lots@[j]).wf(),
            decreases n - i,
        {
            let mut lot: Lot = self.lots.pop_front().unwrap();
            assert(lot == before[i as int]);
            lot.simulate_timestep(factor);
            self.lots.push_back(lot);
            i += 1;
        }
        assert(self@ =~= grown_all(before, factor as int));
    }

    /// The combined value of the pool, capped at the largest amount.
    pub fn value(&self) -> (v: u64)
        requires
            self.wf(),
        ensures
            v == cap_u64(total(self@)),
    {
        let n: usize = self.lots.len();
        let mut sum: u64 = 0;
        let mut i: usize = 0;
        while i < n
            invariant
                i <= n,
                n == self@.len(),
                self.wf(),
                sum == cap_u64(total(self@.take(i as int))),
            decreases n - i,
        {
            let lot: Lot = self.lots[i];
            proof {
                assert(self@.take(i + 1).drop_last() =~= self@.take(i as int));
                lemma_part_wf(self@, 0, i as int);
                lemma_total_nonnegative(self@.take(i as int));
                assert(lot.wf());
            }
            sum = sat_add(sum, lot.worth());
            i += 1;
        }
        assert(self@.take(n as int) =~= self@);
        sum
    }

    /// Withdraws `amount` from the pool, oldest lot first, and returns the
    /// portions taken. Where the pool holds less than `amount`, all of it goes.
    pub fn sell(&mut self, amount: u64) -> (out: Vec<Lot>)
        requires
            old(self).wf(),
        ensures
            out@ == sold(old(self)@, amount as int),
            final(self)@ == kept(old(self)@, amount as int),
            final(self).wf(),
            all_wf(out@),
    {
        let ghost before = self@;
        let mut out: Vec<Lot> = Vec::new();
        let mut remaining: u64 = amount;
        assert(out@ + sold(self@, remaining as int) =~= sold(before, amount as int));
        while remaining > 0 && self.lots.len() > 0
            invariant
                self.wf(),
                out@ + sold(self@, remaining as int) == sold(before, amount as int),
                kept(self@, remaining as int) == kept(before, amount as int),
            decreases self@.len() + (if remaining > 0 { 1int } else { 0int }),
        {
            let ghost now = self@;
            let ghost rest = now.subrange(1, now.len() as int);
            let head: Lot = self.lots[0];
            assert(head.wf());
            let value: u64 = head.worth();
            if remaining < value {
                proof {
                    lemma_split(head, remaining as int);
                }
                let principal: u64 = mul_div(remaining, head.principal, value);
                let gain: i64 = (remaining as i128 - principal as i128) as i64;
                let part = Lot { principal, gain, weeks_held: head.weeks_held };
                let left = Lot {
                    principal: head.principal - principal,
                    gain: head.gain - gain,
                    weeks_held: head.weeks_held,
                };
                assert(part == head.taken(remaining as int));
                assert(left == head.left(remaining as int));
                self.lots.pop_front();
                self.lots.push_front(left);
                out.push(part);
                proof {
                    assert(self@ =~= seq![left] + rest);
                    assert(out@ =~= sold(before, amount as int));
                    assert(sold(self@, 0) =~= Seq::<Lot>::empty());
                    assert(out@ + sold(self@, 0) =~= out@);
                    assert forall|i: int| 0 <= i < self@.len() implies (#[trigger] self@[i]).wf(
                    ) by {
                        if i > 0 {
                            assert(self@[i] == now[i]);
                        }
                    }
                }
                remaining = 0;
            } else {
                self.lots.pop_front();
                out.push(head);
                remaining = remaining - value;
                proof {
                    assert(self@ =~= rest);
                    assert(out@ + sold(rest, remaining as int) =~= out@.drop_last() + (seq![head]
                        + sold(rest, remaining as int)));
                    assert forall|i: int| 0 <= i < self@.len() implies (#[trigger] self@[i]).wf(
                    ) by {
                        assert(self@[i] == now[i + 1]);
                    }
                }
            }
        }
        proof {
            assert(out@ + sold(self@, remaining as int) =~= out@);
            lemma_sale_wf(before, amount as int);
        }
        out
    }

    /// Withdraws every lot from the pool and returns them, oldest first.
    pub fn drain(&mut self) -> (out: Vec<Lot>)
        requires
            old(self).wf(),
        ensures
            out@ == old(self)@,
            final(self)@ == Seq::<Lot>::empty(),
            final(self).wf(),
    {
        let ghost before = self@;
        let mut out: Vec<Lot> = Vec::new();
        while self.lots.len() > 0
            invariant
                out@ + self@ == before,
            decreases self@.len(),
        {
            let ghost now = self@;
            let lot: Lot = self.lots.pop_front().unwrap();
            out.push(lot);
            assert(out@ + self@ =~= out@.drop_last() + now);
        }
        assert(out@ + self@ =~= out@);
        assert(self@ =~= Seq::<Lot>::empty());
        out
    }
}

} // verus!
