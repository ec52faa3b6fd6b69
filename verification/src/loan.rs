//! What the amortizing liabilities share: the level repayment that pays a loan
//! off over its term, and the rule by which a payment is capped at the
//! balance.
//!
//! The level repayment is worked out at the weekly factor by which the balance
//! grows, so that the repayment of the last week of the term is the one that
//! clears the loan.

use crate::fixed::{
    capped_power, cap_u64, cpow, fpow, lemma_cpow_small, lemma_fpow_first, lemma_fpow_grows,
    lemma_weekly_factor_bounds, min_int, raised_power, scale, scaled, weekly_factor,
    weekly_growth_factor, MAX_POWER, ONE,
};
use vstd::arithmetic::div_mod::{
    lemma_div_is_ordered, lemma_div_multiples_vanish, lemma_fundamental_div_mod,
};
use vstd::prelude::*;

verus! {

/// The number of weekly repayments in a term of `years` years.
pub open spec fn periods(years: usize) -> nat {
    (years * 52) as nat
}

/// What one unit due after `n` periods at the growth factor `g` is worth now,
/// as a factor rounded up: `ONE * ONE / fpow(g, n)`.
pub open spec fn discount(g: int, n: nat) -> int {
    (ONE * ONE + fpow(g, n) - 1) / fpow(g, n)
}

/// The level repayment that pays off `amount` in `n` periods at the growth
/// factor `g` of one period. With `r = g - ONE` the rate of one period, which
/// is below zero where `g` is below `ONE`, it is
/// `amount * r * (1 + r)^n / ((1 + r)^n - 1)`, which is
/// `amount * r / (1 - (1 + r)^-n)`, rounded up so that `n` repayments are
/// enough, and never more than the amount after one period, which clears the
/// loan at once. Without interest it is the even split `amount / n`, rounded
/// up; with no periods at all the whole amount is due.
pub open spec fn level_repayment(amount: u64, g: int, n: nat) -> u64 {
    if n == 0 {
        amount
    } else if g == ONE {
        ((amount + n - 1) / (n as int)) as u64
    } else {
        let whole = scaled(amount, g);
        let divisor = repayment_divisor(g, n);
        if divisor <= 0 {
            whole
        } else if g > ONE {
            min_int((amount * (g - ONE) + divisor - 1) / divisor, whole as int) as u64
        } else {
            min_int((amount * (ONE - g) + divisor - 1) / divisor, whole as int) as u64
        }
    }
}

/// What the rate of one period is divided by in the level repayment, as a
/// factor: `1 - (1 + r)^-n` where the balance grows, rounded down, and
/// `(1 + r)^-n - 1` where it falls, rounded down.
pub open spec fn repayment_divisor(g: int, n: nat) -> int {
    if g > ONE {
        ONE - discount(g, n)
    } else if cpow(g, n) > 0 {
        ONE * ONE / cpow(g, n) - ONE
    } else {
        0
    }
}

/// The level weekly repayment that pays off `amount` over `years` years at the
/// annual percentage rate `rate`, the rate of one week being the weekly
/// equivalent of the annual rate.
pub open spec fn annuity(amount: u64, rate: i32, years: usize) -> u64 {
    level_repayment(amount, weekly_factor(rate), periods(years))
}

/// What a payment of `requested` takes from `balance`: never more than is
/// owed.
pub open spec fn payment(balance: u64, requested: u64) -> u64 {
    if balance < requested {
        balance
    } else {
        requested
    }
}

/// What a payment of `requested` takes from `balance`.
pub fn pay(balance: u64, requested: u64) -> (paid: u64)
    ensures
        paid == payment(balance, requested),
        paid <= balance,
{
    if balance < requested {
        balance
    } else {
        requested
    }
}

/// A liability: what is owed, and the minimum weekly repayment while one is
/// in force.
#[derive(Clone, Copy, Debug, PartialEq, Eq, Structural)]
pub struct Debt {
    pub balance: u64,
    pub repayment: Option<u64>,
}

/// The debt once the week's minimum repayment has been made, and the amount
/// paid, if a repayment was in force. The repayment takes no more than is
/// owed, and lapses once nothing is owed.
pub open spec fn settled(debt: Debt) -> (Debt, Option<u64>) {
    match debt.repayment {
        None => (debt, None),
        Some(minimum) => {
            let paid = payment(debt.balance, minimum);
            let balance = (debt.balance - paid) as u64;
            (
                Debt { balance, repayment: if balance == 0 { None } else { Some(minimum) } },
                Some(paid),
            )
        },
    }
}

/// Makes the week's minimum repayment.
pub fn settle(debt: Debt) -> (r: (Debt, Option<u64>))
    ensures
        r == settled(debt),
{
    match debt.repayment {
        None => (debt, None),
        Some(minimum) => {
            let paid: u64 = pay(debt.balance, minimum);
            let balance: u64 = debt.balance - paid;
            if balance == 0 {
                (Debt { balance, repayment: None }, Some(paid))
            } else {
                (Debt { balance, repayment: Some(minimum) }, Some(paid))
            }
        },
    }
}

/// The debt after an extra payment of `requested`, and the amount actually
/// paid: no more than is owed. A repayment in force lapses at once where the
/// payment leaves nothing owed.
pub open spec fn paid_down(debt: Debt, requested: u64) -> (Debt, u64) {
    let paid = payment(debt.balance, requested);
    let balance = (debt.balance - paid) as u64;
    (Debt { balance, repayment: if balance == 0 { None } else { debt.repayment } }, paid)
}

/// Makes an extra payment.
pub fn pay_down(debt: Debt, requested: u64) -> (r: (Debt, u64))
    ensures
        r == paid_down(debt, requested),
{
    let paid: u64 = pay(debt.balance, requested);
    let balance: u64 = debt.balance - paid;
    if balance == 0 {
        (Debt { balance, repayment: None }, paid)
    } else {
        (Debt { balance, repayment: debt.repayment }, paid)
    }
}

/// A minimum repayment never takes a balance below zero: it pays the smaller
/// of the balance and the minimum, the balance falls by exactly what was paid,
/// and a balance that reaches zero has no repayment left in force.
pub proof fn lemma_settled_clamps(debt: Debt)
    ensures
        ({
            let (after, paid) = settled(debt);
            &&& after.balance >= 0
            &&& debt.repayment matches Some(minimum) ==> {
                &&& paid == Some(payment(debt.balance, minimum))
                &&& after.balance == debt.balance - payment(debt.balance, minimum)
                &&& payment(debt.balance, minimum) == min_int(debt.balance as int, minimum as int)
            }
            &&& debt.repayment is None ==> paid is None && after == debt
            &&& after.balance == 0 ==> after.repayment is None
        }),
{
}

/// The level weekly repayment of a loan of `loan_amount` over `loan_years`
/// years at the annual percentage rate `annual_interest_rate`.
pub fn minimum_repayment(loan_amount: u64, annual_interest_rate: i32, loan_years: usize) -> (r:
    u64)
    ensures
        r == annuity(loan_amount, annual_interest_rate, loan_years),
{
    let n: u128 = (loan_years as u128) * 52;
    if n == 0 {
        return loan_amount;
    }
    let factor: u64 = weekly_growth_factor(annual_interest_rate);
    if factor == ONE {
        proof {
            lemma_even_split_fits(loan_amount, n as nat);
        }
        return (((loan_amount as u128) + n - 1) / n) as u64;
    }
    if factor < ONE {
        let whole: u64 = scale(loan_amount, factor);
        let up: u64 = raised_power(factor, n);
        if up == 0 {
            return whole;
        }
        let inverse: u128 = MAX_POWER / (up as u128);
        proof {
            lemma_cpow_small(factor as int, n as nat);
        }
        if inverse <= ONE as u128 {
            return whole;
        }
        let divisor: u128 = inverse - (ONE as u128);
        let rate: u128 = (ONE - factor) as u128;
        proof {
            assert(loan_amount * rate <= u64::MAX * ONE) by (nonlinear_arith)
                requires
                    0 <= loan_amount <= u64::MAX,
                    0 <= rate <= ONE,
            ;
            vstd::arithmetic::div_mod::lemma_div_nonincreasing(MAX_POWER as int, up as int);
        }
        let due: u128 = ((loan_amount as u128) * rate + divisor - 1) / divisor;
        return if due > whole as u128 {
            whole
        } else {
            due as u64
        };
    }
    proof {
        lemma_fpow_first(factor as int);
        lemma_fpow_grows(factor as int, 1, n as nat);
    }
    let power: u128 = capped_power(factor, n, MAX_POWER);
    let whole: u64 = scale(loan_amount, factor);
    let rounded: u128 = (MAX_POWER + power - 1) / power;
    proof {
        let q = fpow(factor as int, n as nat);
        if q > MAX_POWER {
            lemma_fundamental_div_mod(ONE * ONE + q - 1, q);
            lemma_fundamental_div_mod(MAX_POWER + power - 1, power as int);
            lemma_quotient_is_one(ONE * ONE + q - 1, q);
            lemma_quotient_is_one(MAX_POWER + power - 1, power as int);
        }
        assert(rounded == discount(factor as int, n as nat));
    }
    if rounded >= ONE as u128 {
        return whole;
    }
    let divisor: u128 = (ONE as u128) - rounded;
    let rate: u128 = (factor - ONE) as u128;
    proof {
        assert(loan_amount * rate <= u64::MAX * u64::MAX) by (nonlinear_arith)
            requires
                0 <= loan_amount <= u64::MAX,
                0 <= rate <= u64::MAX,
        ;
    }
    let due: u128 = ((loan_amount as u128) * rate + divisor - 1) / divisor;
    if due > whole as u128 {
        whole
    } else {
        due as u64
    }
}

/// A dividend of at least the divisor and less than twice it gives one.
proof fn lemma_quotient_is_one(x: int, d: int)
    requires
        0 < d <= x < 2 * d,
    ensures
        x / d == 1,
{
    lemma_fundamental_div_mod(x, d);
    let q = x / d;
    assert(q == 1) by (nonlinear_arith)
        requires
            x == d * q + x % d,
            0 <= x % d < d,
            0 < d <= x < 2 * d,
    ;
}

/// `b` raised to the power `k`, exactly.
pub open spec fn ipow(b: int, k: nat) -> int
    decreases k,
{
    if k == 0 {
        1
    } else {
        ipow(b, (k - 1) as nat) * b
    }
}

/// A debt after `weeks` more weeks in which nothing happens to it but the
/// week's growth by `factor` and the minimum repayment in force.
pub open spec fn run_on(debt: Debt, factor: int, weeks: nat) -> Debt
    decreases weeks,
{
    if weeks == 0 {
        debt
    } else {
        let before = run_on(debt, factor, (weeks - 1) as nat);
        settled(Debt { balance: scaled(before.balance, factor), repayment: before.repayment }).0
    }
}

/// `weeks` repayments of `repayment`, each taken a unit larger to allow for
/// rounding, fall short of a loan of `amount` at the growth factor `g`: in
/// exact arithmetic, with `r` the rate of one period, `amount * r * g^weeks`
/// exceeds `(repayment + 1) * (g^weeks - 1)`, or, without interest, the
/// amount exceeds `weeks` repayments.
pub open spec fn outlasts(amount: u64, g: int, repayment: u64, weeks: nat) -> bool {
    let slack = repayment * ONE + ONE - 1;
    if g > ONE {
        amount * (g - ONE) * ipow(g, weeks) > slack * (ipow(g, weeks) - ipow(ONE as int, weeks))
    } else if g < ONE {
        amount * (ONE - g) * ipow(g, weeks) > slack * (ipow(ONE as int, weeks) - ipow(g, weeks))
    } else {
        amount > weeks * repayment
    }
}

/// A power of a number that is not negative is not negative, and a power of
/// a positive number is positive.
proof fn lemma_ipow_sign(b: int, k: nat)
    requires
        b >= 0,
    ensures
        ipow(b, k) >= 0,
        b > 0 ==> ipow(b, k) > 0,
    decreases k,
{
    if k > 0 {
        lemma_ipow_sign(b, (k - 1) as nat);
        let p = ipow(b, (k - 1) as nat);
        assert(p * b >= 0 && (b > 0 && p > 0 ==> p * b > 0)) by (nonlinear_arith)
            requires
                p >= 0,
                b >= 0,
        ;
    }
}

/// A fixed-point power is no more than the exact power.
proof fn lemma_fpow_below_exact(g: int, k: nat)
    requires
        g >= 0,
    ensures
        0 <= fpow(g, k),
        fpow(g, k) * ipow(ONE as int, k) <= ipow(g, k) * ONE,
    decreases k,
{
    crate::fixed::lemma_fpow_ordered(g, g, k);
    if k > 0 {
        let j = (k - 1) as nat;
        lemma_fpow_below_exact(g, j);
        lemma_ipow_sign(ONE as int, j);
        let q = fpow(g, j);
        let q2 = fpow(g, k);
        let e = ipow(ONE as int, j);
        let x = ipow(g, j);
        lemma_fundamental_div_mod(q * g, ONE as int);
        assert(q2 * ONE <= q * g);
        assert(q2 * (e * ONE) <= (x * g) * ONE) by (nonlinear_arith)
            requires
                q2 * ONE <= q * g,
                q * e <= x * ONE,
                e >= 0,
                g >= 0,
                q2 >= 0,
        ;
    }
}

/// A debt that is paid off stays paid off.
pub proof fn lemma_stays_repaid(debt: Debt, factor: int, weeks: nat, later: nat)
    requires
        weeks <= later,
        run_on(debt, factor, weeks).balance == 0,
    ensures
        run_on(debt, factor, later).balance == 0,
    decreases later,
{
    if weeks < later {
        lemma_stays_repaid(debt, factor, weeks, (later - 1) as nat);
        assert(0 * factor == 0);
    }
}

/// An even split over `n` periods, rounded up, is no more than the amount,
/// and `n` of them are no less.
proof fn lemma_even_split_fits(amount: u64, n: nat)
    requires
        n > 0,
    ensures
        0 <= (amount + n - 1) / (n as int) <= amount,
        n * ((amount + n - 1) / (n as int)) >= amount,
{
    let m = (amount + n - 1) / (n as int);
    lemma_fundamental_div_mod(amount + n - 1, n as int);
    lemma_div_is_ordered(0, amount + n - 1, n as int);
    assert(n * m >= amount) by (nonlinear_arith)
        requires
            amount + n - 1 == n * m + (amount + n - 1) % (n as int),
            (amount + n - 1) % (n as int) <= n - 1,
    ;
    assert(m <= amount) by (nonlinear_arith)
        requires
            amount + n - 1 == n * m + (amount + n - 1) % (n as int),
            (amount + n - 1) % (n as int) >= 0,
            n >= 1,
            amount >= 0,
            m >= 0,
    ;
}

/// While anything is owed the repayment stays in force; it lapses only with
/// the balance at zero.
pub proof fn lemma_in_force(amount: u64, g: int, m: u64, k: nat)
    ensures
        ({
            let debt = run_on(Debt { balance: amount, repayment: Some(m) }, g, k);
            debt.repayment == Some(m) || (debt.repayment is None && debt.balance == 0)
        }),
    decreases k,
{
    if k > 0 {
        lemma_in_force(amount, g, m, (k - 1) as nat);
        assert(0 * g == 0);
    }
}

/// One week of a bound on a balance that is being repaid: the algebra that
/// both the upper and the lower bound share.
proof fn lemma_step_terms(b: int, p: int, t: int, g: int, e: int, x: int) -> (a: int)
    requires
        g >= ONE,
        e >= 0,
    ensures
        a == (g - ONE) * e,
        a >= 0,
        b * (g - ONE) * e == b * a,
        t * (x - e) == t * x - t * e,
        t * (x * g - e * ONE) == g * (t * x) - ONE * (t * e),
        p * (g - ONE) * (x * g) == g * (p * (g - ONE) * x),
        t * a == g * (t * e) - ONE * (t * e),
        (b * g - t) * a == g * (b * a) - t * a,
{
    let r = g - ONE;
    let a0 = r * e;
    assert(a0 >= 0) by (nonlinear_arith)
        requires
            a0 == r * e,
            r >= 0,
            e >= 0,
    ;
    assert(b * r * e == b * a0) by (nonlinear_arith)
        requires
            a0 == r * e,
    ;
    assert(t * (x - e) == t * x - t * e) by (nonlinear_arith);
    assert(t * (x * g - e * ONE) == g * (t * x) - ONE * (t * e)) by (nonlinear_arith);
    assert(p * r * (x * g) == g * (p * r * x)) by (nonlinear_arith);
    assert(t * a0 == g * (t * e) - ONE * (t * e)) by (nonlinear_arith)
        requires
            a0 == r * e,
            r == g - ONE,
    ;
    assert((b * g - t) * a0 == g * (b * a0) - t * a0) by (nonlinear_arith);
    a0
}

/// One week of the upper bound on a balance that is being repaid.
proof fn lemma_upper_step(b: int, b2: int, p: int, m: int, g: int, e: int, x: int)
    requires
        0 <= b2,
        b2 * ONE <= b * g - m * ONE,
        g >= ONE,
        e >= 0,
        b * (g - ONE) * e + m * ONE * (x - e) <= p * (g - ONE) * x,
    ensures
        b2 * (g - ONE) * (e * ONE) + m * ONE * (x * g - e * ONE) <= p * (g - ONE) * (x * g),
{
    let t = m * ONE;
    let a = lemma_step_terms(b, p, t, g, e, x);
    let ba = b * a;
    let tx = t * x;
    let te = t * e;
    let prx = p * (g - ONE) * x;
    assert(ba + tx - te <= prx);
    assert(g * ba + g * tx - g * te <= g * prx) by (nonlinear_arith)
        requires
            ba + tx - te <= prx,
            g >= 0,
    ;
    assert(b2 * ONE * a <= (b * g - t) * a) by (nonlinear_arith)
        requires
            b2 * ONE <= b * g - t,
            a >= 0,
    ;
    assert(b2 * (g - ONE) * (e * ONE) == b2 * ONE * a) by (nonlinear_arith)
        requires
            a == (g - ONE) * e,
    ;
}

/// While a loan at interest is being repaid, what is owed is bounded by what
/// exact compounding and exact repayments would leave.
proof fn lemma_upper(amount: u64, g: int, m: u64, k: nat)
    requires
        g > ONE,
    ensures
        ({
            let debt = run_on(Debt { balance: amount, repayment: Some(m) }, g, k);
            debt.balance == 0 || debt.balance * (g - ONE) * ipow(ONE as int, k) + m * ONE * (ipow(
                g,
                k,
            ) - ipow(ONE as int, k)) <= amount * (g - ONE) * ipow(g, k)
        }),
    decreases k,
{
    let start = Debt { balance: amount, repayment: Some(m) };
    if k == 0 {
        let r = g - ONE;
        assert(amount * r * 1 + m * ONE * (1 - 1) <= amount * r * 1) by (nonlinear_arith);
    } else {
        let j = (k - 1) as nat;
        lemma_upper(amount, g, m, j);
        lemma_in_force(amount, g, m, j);
        let before = run_on(start, g, j);
        let after = run_on(start, g, k);
        assert(ipow(ONE as int, k) == ipow(ONE as int, j) * ONE);
        assert(ipow(g, k) == ipow(g, j) * g);
        if before.balance == 0 {
            assert(0 * g == 0);
        } else if after.balance > 0 {
            let b = before.balance as int;
            let grown = scaled(before.balance, g);
            assert(b * g >= 0) by (nonlinear_arith)
                requires
                    b >= 0,
                    g >= 0,
            ;
            lemma_fundamental_div_mod(b * g, ONE as int);
            lemma_div_is_ordered(0, b * g, ONE as int);
            assert(grown <= b * g / (ONE as int));
            assert(after.balance == grown - m);
            assert(after.balance * ONE <= b * g - m * ONE);
            lemma_ipow_sign(ONE as int, j);
            lemma_upper_step(
                b,
                after.balance as int,
                amount as int,
                m as int,
                g,
                ipow(ONE as int, j),
                ipow(g, j),
            );
        }
    }
}

/// The end of the term: a repayment that is enough in exact arithmetic
/// leaves nothing owed.
proof fn lemma_upper_end(b: int, p: int, r: int, m: int, c: int, q: int, e: int, x: int)
    requires
        r > 0,
        m >= 0,
        p >= 0,
        b >= 0,
        e > 0,
        q > 0,
        c >= 0,
        m * (ONE - c) >= p * r,
        c * q >= ONE * ONE,
        q * e <= x * ONE,
        b * r * e + m * ONE * (x - e) <= p * r * x,
    ensures
        b == 0,
{
    let w = m * ONE - p * r;
    let mc = m * c;
    let qe = q * e;
    let em = e * m;
    assert(w >= mc && mc >= 0) by (nonlinear_arith)
        requires
            w == m * ONE - p * r,
            mc == m * c,
            m * (ONE - c) >= p * r,
            m >= 0,
            c >= 0,
    ;
    assert(qe >= 0 && em >= 0) by (nonlinear_arith)
        requires
            qe == q * e,
            em == e * m,
            q > 0,
            e > 0,
            m >= 0,
    ;
    assert(x * ONE * w >= qe * w) by (nonlinear_arith)
        requires
            qe <= x * ONE,
            w >= 0,
    ;
    assert(qe * w >= qe * mc) by (nonlinear_arith)
        requires
            w >= mc,
            qe >= 0,
    ;
    assert(qe * mc == (c * q) * em) by (nonlinear_arith)
        requires
            qe == q * e,
            mc == m * c,
            em == e * m,
    ;
    assert((c * q) * em >= ONE * ONE * em) by (nonlinear_arith)
        requires
            c * q >= ONE * ONE,
            em >= 0,
    ;
    assert(x * w >= ONE * em) by (nonlinear_arith)
        requires
            x * ONE * w >= ONE * ONE * em,
    ;
    assert(x * w == m * ONE * x - p * r * x) by (nonlinear_arith)
        requires
            w == m * ONE - p * r,
    ;
    assert(m * ONE * (x - e) == m * ONE * x - ONE * em) by (nonlinear_arith)
        requires
            em == e * m,
    ;
    let bre = b * r * e;
    assert(bre <= 0);
    assert(b == 0) by (nonlinear_arith)
        requires
            bre == b * r * e,
            bre <= 0,
            b >= 0,
            r > 0,
            e > 0,
    ;
}

/// An even split clears a loan whose balance does not grow within its term.
proof fn lemma_even_split(amount: u64, g: int, m: u64, k: nat)
    requires
        0 <= g <= ONE,
    ensures
        ({
            let debt = run_on(Debt { balance: amount, repayment: Some(m) }, g, k);
            debt.balance == 0 || debt.balance <= amount - k * m
        }),
    decreases k,
{
    let start = Debt { balance: amount, repayment: Some(m) };
    if k == 0 {
        assert(0 * m == 0);
    } else {
        let j = (k - 1) as nat;
        lemma_even_split(amount, g, m, j);
        lemma_in_force(amount, g, m, j);
        let before = run_on(start, g, j);
        if before.balance == 0 {
            assert(0 * g == 0);
        } else {
            let b = before.balance as int;
            assert(0 <= b * g <= b * ONE) by (nonlinear_arith)
                requires
                    b >= 0,
                    0 <= g <= ONE,
            ;
            lemma_div_is_ordered(b * g, b * ONE, ONE as int);
            lemma_div_multiples_vanish(b, ONE as int);
            lemma_div_is_ordered(0, b * g, ONE as int);
            assert(k * m == j * m + m) by (nonlinear_arith)
                requires
                    k == j + 1,
            ;
        }
    }
}

/// A rounded-up power is no less than the exact power.
proof fn lemma_cpow_above_exact(g: int, k: nat)
    requires
        g >= 0,
    ensures
        cpow(g, k) * ipow(ONE as int, k) >= ipow(g, k) * ONE,
    decreases k,
{
    if k > 0 {
        let j = (k - 1) as nat;
        lemma_cpow_above_exact(g, j);
        lemma_ipow_sign(ONE as int, j);
        let u = cpow(g, j);
        let u2 = cpow(g, k);
        let e = ipow(ONE as int, j);
        let x = ipow(g, j);
        lemma_fundamental_div_mod(u * g + ONE - 1, ONE as int);
        assert(u2 * ONE >= u * g);
        assert(u2 * (e * ONE) >= (x * g) * ONE) by (nonlinear_arith)
            requires
                u2 * ONE >= u * g,
                u * e >= x * ONE,
                e >= 0,
                g >= 0,
        ;
    }
}

/// One week of the upper bound on a balance that falls by itself and is being
/// repaid.
proof fn lemma_falling_step(b: int, b2: int, p: int, m: int, g: int, e: int, x: int)
    requires
        0 <= b2,
        b2 * ONE <= b * g - m * ONE,
        0 <= g <= ONE,
        e >= 0,
        b * (ONE - g) * e + m * ONE * (e - x) <= p * (ONE - g) * x,
    ensures
        b2 * (ONE - g) * (e * ONE) + m * ONE * (e * ONE - x * g) <= p * (ONE - g) * (x * g),
{
    let t = m * ONE;
    let r = ONE - g;
    let a = r * e;
    let ba = b * a;
    let tx = t * x;
    let te = t * e;
    let prx = p * r * x;
    assert(a >= 0) by (nonlinear_arith)
        requires
            a == r * e,
            r >= 0,
            e >= 0,
    ;
    assert(b * r * e == ba) by (nonlinear_arith)
        requires
            ba == b * a,
            a == r * e,
    ;
    assert(t * (e - x) == te - tx) by (nonlinear_arith)
        requires
            te == t * e,
            tx == t * x,
    ;
    assert(ba + te - tx <= prx);
    assert(g * ba + g * te - g * tx <= g * prx) by (nonlinear_arith)
        requires
            ba + te - tx <= prx,
            g >= 0,
    ;
    assert(b2 * ONE * a <= (b * g - t) * a) by (nonlinear_arith)
        requires
            b2 * ONE <= b * g - t,
            a >= 0,
    ;
    assert((b * g - t) * a == g * ba - t * a) by (nonlinear_arith)
        requires
            ba == b * a,
    ;
    assert(t * a == ONE * te - g * te) by (nonlinear_arith)
        requires
            a == r * e,
            r == ONE - g,
            te == t * e,
    ;
    assert(b2 * r * (e * ONE) == b2 * ONE * a) by (nonlinear_arith)
        requires
            a == r * e,
    ;
    assert(t * (e * ONE - x * g) == ONE * te - g * tx) by (nonlinear_arith)
        requires
            te == t * e,
            tx == t * x,
    ;
    assert(p * r * (x * g) == g * prx) by (nonlinear_arith)
        requires
            prx == p * r * x,
    ;
}

/// While a loan whose balance falls by itself is being repaid, what is owed
/// is bounded by what exact compounding and exact repayments would leave.
proof fn lemma_falling(amount: u64, g: int, m: u64, k: nat)
    requires
        0 <= g < ONE,
    ensures
        ({
            let debt = run_on(Debt { balance: amount, repayment: Some(m) }, g, k);
            debt.balance == 0 || debt.balance * (ONE - g) * ipow(ONE as int, k) + m * ONE * (ipow(
                ONE as int,
                k,
            ) - ipow(g, k)) <= amount * (ONE - g) * ipow(g, k)
        }),
    decreases k,
{
    let start = Debt { balance: amount, repayment: Some(m) };
    if k == 0 {
        let r = ONE - g;
        assert(amount * r * 1 + m * ONE * (1 - 1) <= amount * r * 1) by (nonlinear_arith);
    } else {
        let j = (k - 1) as nat;
        lemma_falling(amount, g, m, j);
        lemma_in_force(amount, g, m, j);
        let before = run_on(start, g, j);
        let after = run_on(start, g, k);
        assert(ipow(ONE as int, k) == ipow(ONE as int, j) * ONE);
        assert(ipow(g, k) == ipow(g, j) * g);
        if before.balance == 0 {
            assert(0 * g == 0);
        } else if after.balance > 0 {
            let b = before.balance as int;
            let grown = scaled(before.balance, g);
            assert(b * g >= 0) by (nonlinear_arith)
                requires
                    b >= 0,
                    g >= 0,
            ;
            lemma_fundamental_div_mod(b * g, ONE as int);
            lemma_div_is_ordered(0, b * g, ONE as int);
            assert(grown <= b * g / (ONE as int));
            assert(after.balance == grown - m);
            assert(after.balance * ONE <= b * g - m * ONE);
            lemma_ipow_sign(ONE as int, j);
            lemma_falling_step(
                b,
                after.balance as int,
                amount as int,
                m as int,
                g,
                ipow(ONE as int, j),
                ipow(g, j),
            );
        }
    }
}

/// The end of the term of a loan whose balance falls by itself: a repayment
/// that is enough in exact arithmetic leaves nothing owed.
proof fn lemma_falling_end(b: int, p: int, r: int, m: int, c: int, u: int, e: int, x: int)
    requires
        r > 0,
        m >= 0,
        p >= 0,
        b >= 0,
        e > 0,
        x >= 0,
        u > 0,
        c >= 0,
        m * (c - ONE) >= p * r,
        c * u <= ONE * ONE,
        x * ONE <= u * e,
        b * r * e + m * ONE * (e - x) <= p * r * x,
    ensures
        b == 0,
{
    let mc = m * c;
    let prx = p * r * x;
    let mx = m * x;
    let me = m * e;
    assert(mc >= p * r + m * ONE) by (nonlinear_arith)
        requires
            mc == m * c,
            m * (c - ONE) >= p * r,
    ;
    assert(mc * x >= prx + ONE * mx) by (nonlinear_arith)
        requires
            mc >= p * r + m * ONE,
            x >= 0,
            prx == p * r * x,
            mx == m * x,
    ;
    assert(c * (x * ONE) <= c * (u * e)) by (nonlinear_arith)
        requires
            x * ONE <= u * e,
            c >= 0,
    ;
    assert(c * (u * e) <= ONE * ONE * e) by (nonlinear_arith)
        requires
            c * u <= ONE * ONE,
            e >= 0,
    ;
    assert(c * x <= ONE * e) by (nonlinear_arith)
        requires
            c * (x * ONE) <= ONE * ONE * e,
    ;
    assert(mc * x <= ONE * me) by (nonlinear_arith)
        requires
            mc == m * c,
            me == m * e,
            c * x <= ONE * e,
            m >= 0,
    ;
    assert(m * ONE * (e - x) == ONE * me - ONE * mx) by (nonlinear_arith)
        requires
            me == m * e,
            mx == m * x,
    ;
    let bre = b * r * e;
    assert(bre <= 0);
    assert(b == 0) by (nonlinear_arith)
        requires
            bre == b * r * e,
            bre <= 0,
            b >= 0,
            r > 0,
            e > 0,
    ;
}

/// The level repayment pays a loan off in its term: after the last week of
/// the term nothing is owed and no repayment is in force, the last payment
/// being what was still owed, which is no more than the level repayment.
pub proof fn lemma_repaid_at_term(amount: u64, rate: i32, years: usize)
    requires
        years > 0,
    ensures
        ({
            let n = periods(years);
            let g = weekly_factor(rate);
            let m = annuity(amount, rate, years);
            let start = Debt { balance: amount, repayment: Some(m) };
            let before = run_on(start, g, (n - 1) as nat);
            &&& run_on(start, g, n).balance == 0
            &&& scaled(before.balance, g) <= m
            &&& before.balance > 0 ==> run_on(start, g, n).repayment is None
        }),
{
    let n = periods(years);
    let g = weekly_factor(rate);
    let m = annuity(amount, rate, years);
    let start = Debt { balance: amount, repayment: Some(m) };
    let before = run_on(start, g, (n - 1) as nat);
    let after = run_on(start, g, n);
    lemma_weekly_factor_bounds(rate);
    lemma_in_force(amount, g, m, (n - 1) as nat);
    assert(0 * g == 0);
    if g == ONE {
        lemma_even_split(amount, g, m, n);
        lemma_even_split_fits(amount, n);
    } else {
        let whole = scaled(amount, g);
        let divisor = repayment_divisor(g, n);
        let due = if g > ONE {
            (amount * (g - ONE) + divisor - 1) / divisor
        } else {
            (amount * (ONE - g) + divisor - 1) / divisor
        };
        if divisor <= 0 || due >= whole {
            assert(m == whole);
            assert(run_on(start, g, 1).balance == 0) by {
                reveal_with_fuel(run_on, 2);
            }
            lemma_stays_repaid(start, g, 1, n);
            if n > 1 {
                lemma_stays_repaid(start, g, 1, (n - 1) as nat);
            }
        } else if g < ONE {
            lemma_falling(amount, g, m, n);
            if after.balance > 0 {
                let u = cpow(g, n);
                lemma_cpow_above_exact(g, n);
                lemma_ipow_sign(ONE as int, n);
                lemma_ipow_sign(g, n);
                let c = ONE * ONE / u;
                lemma_fundamental_div_mod(ONE * ONE, u);
                assert(c * u <= ONE * ONE && c >= 0) by (nonlinear_arith)
                    requires
                        ONE * ONE == u * c + (ONE * ONE) % u,
                        0 <= (ONE * ONE) % u < u,
                        u > 0,
                ;
                let top = amount * (ONE - g) + divisor - 1;
                lemma_fundamental_div_mod(top, divisor);
                assert(amount * (ONE - g) >= 0) by (nonlinear_arith)
                    requires
                        amount >= 0,
                        ONE - g >= 0,
                ;
                lemma_div_is_ordered(0, top, divisor);
                assert(m == due);
                assert(m * divisor >= amount * (ONE - g)) by (nonlinear_arith)
                    requires
                        top == divisor * m + top % divisor,
                        top % divisor <= divisor - 1,
                        top == amount * (ONE - g) + divisor - 1,
                ;
                assert(ipow(g, n) * ONE <= u * ipow(ONE as int, n)) by (nonlinear_arith)
                    requires
                        u * ipow(ONE as int, n) >= ipow(g, n) * ONE,
                ;
                lemma_falling_end(
                    after.balance as int,
                    amount as int,
                    ONE - g,
                    m as int,
                    c,
                    u,
                    ipow(ONE as int, n),
                    ipow(g, n),
                );
            }
        } else {
            lemma_upper(amount, g, m, n);
            if after.balance > 0 {
                let q = fpow(g, n);
                lemma_fpow_first(g);
                lemma_fpow_grows(g, 1, n);
                lemma_fpow_below_exact(g, n);
                lemma_ipow_sign(ONE as int, n);
                lemma_fundamental_div_mod(ONE * ONE + q - 1, q);
                let c = discount(g, n);
                assert(c * q >= ONE * ONE && c >= 0) by (nonlinear_arith)
                    requires
                        ONE * ONE + q - 1 == q * c + (ONE * ONE + q - 1) % q,
                        0 <= (ONE * ONE + q - 1) % q <= q - 1,
                        q > 0,
                ;
                let top = amount * (g - ONE) + divisor - 1;
                lemma_fundamental_div_mod(top, divisor);
                assert(amount * (g - ONE) >= 0) by (nonlinear_arith)
                    requires
                        amount >= 0,
                        g - ONE >= 0,
                ;
                lemma_div_is_ordered(0, top, divisor);
                assert(m == due);
                assert(m * divisor >= amount * (g - ONE)) by (nonlinear_arith)
                    requires
                        top == divisor * m + top % divisor,
                        top % divisor <= divisor - 1,
                        top == amount * (g - ONE) + divisor - 1,
                ;
                lemma_upper_end(
                    after.balance as int,
                    amount as int,
                    g - ONE,
                    m as int,
                    c,
                    q,
                    ipow(ONE as int, n),
                    ipow(g, n),
                );
            }
        }
    }
}

/// One week of the lower bound on a balance that is being repaid.
proof fn lemma_lower_step(b: int, b2: int, p: int, w: int, g: int, e: int, x: int)
    requires
        b2 * ONE >= b * g - w,
        g >= ONE,
        e >= 0,
        b * (g - ONE) * e + w * (x - e) >= p * (g - ONE) * x,
    ensures
        b2 * (g - ONE) * (e * ONE) + w * (x * g - e * ONE) >= p * (g - ONE) * (x * g),
{
    let a = lemma_step_terms(b, p, w, g, e, x);
    let ba = b * a;
    let tx = w * x;
    let te = w * e;
    let prx = p * (g - ONE) * x;
    assert(ba + tx - te >= prx);
    assert(g * ba + g * tx - g * te >= g * prx) by (nonlinear_arith)
        requires
            ba + tx - te >= prx,
            g >= 0,
    ;
    assert(b2 * ONE * a >= (b * g - w) * a) by (nonlinear_arith)
        requires
            b2 * ONE >= b * g - w,
            a >= 0,
    ;
    assert(b2 * (g - ONE) * (e * ONE) == b2 * ONE * a) by (nonlinear_arith)
        requires
            a == (g - ONE) * e,
    ;
}

/// One week's interest on a balance: what the growth by `g` adds to it.
proof fn lemma_interest(b: int, g: int)
    requires
        b >= 0,
        g >= ONE,
    ensures
        b * g / (ONE as int) == b * (g - ONE) / (ONE as int) + b,
        b * (g - ONE) / (ONE as int) >= 0,
        b * (g - ONE) >= 0,
{
    let r = g - ONE;
    assert(b * r >= 0) by (nonlinear_arith)
        requires
            b >= 0,
            r >= 0,
    ;
    assert(b * g == b * r + b * ONE) by (nonlinear_arith)
        requires
            r == g - ONE,
    ;
    lemma_quotient_shift(b * r, b);
    lemma_div_is_ordered(0, b * r, ONE as int);
}

/// While a loan at interest is being repaid, what is owed is no more than the
/// loan, and no less than exact compounding would leave with every repayment
/// a unit larger.
proof fn lemma_lower(amount: u64, g: int, m: u64, k: nat)
    requires
        g > ONE,
        amount * g / (ONE as int) <= u64::MAX,
        m >= amount * g / (ONE as int) - amount,
    ensures
        ({
            let debt = run_on(Debt { balance: amount, repayment: Some(m) }, g, k);
            &&& debt.balance <= amount
            &&& debt.balance * (g - ONE) * ipow(ONE as int, k) + (m * ONE + ONE - 1) * (ipow(g, k)
                - ipow(ONE as int, k)) >= amount * (g - ONE) * ipow(g, k)
        }),
    decreases k,
{
    let start = Debt { balance: amount, repayment: Some(m) };
    if k == 0 {
        let r = g - ONE;
        let w = m * ONE + ONE - 1;
        assert(amount * r * 1 + w * (1 - 1) >= amount * r * 1) by (nonlinear_arith);
    } else {
        let j = (k - 1) as nat;
        lemma_lower(amount, g, m, j);
        lemma_in_force(amount, g, m, j);
        let before = run_on(start, g, j);
        let after = run_on(start, g, k);
        assert(ipow(ONE as int, k) == ipow(ONE as int, j) * ONE);
        assert(ipow(g, k) == ipow(g, j) * g);
        let b = before.balance as int;
        assert(0 <= b * g <= amount * g) by (nonlinear_arith)
            requires
                0 <= b <= amount,
                g >= 0,
        ;
        lemma_div_is_ordered(b * g, amount * g, ONE as int);
        lemma_div_is_ordered(0, b * g, ONE as int);
        lemma_interest(b, g);
        lemma_interest(amount as int, g);
        assert(b * (g - ONE) <= amount * (g - ONE)) by (nonlinear_arith)
            requires
                0 <= b <= amount,
                g - ONE >= 0,
        ;
        lemma_div_is_ordered(b * (g - ONE), amount * (g - ONE), ONE as int);
        let grown = scaled(before.balance, g);
        assert(grown == b * g / (ONE as int));
        lemma_fundamental_div_mod(b * g, ONE as int);
        let interest = b * (g - ONE) / (ONE as int);
        let first = amount * (g - ONE) / (ONE as int);
        assert(interest <= first);
        assert(grown == interest + b);
        assert(m >= first);
        if before.repayment is None {
            assert(b == 0);
            assert(0 * g == 0);
            assert(after.balance == 0);
        } else {
            assert(after.balance == grown - payment(grown, m));
        }
        assert(after.balance >= grown - m);
        assert(after.balance <= amount);
        assert(after.balance * ONE >= b * g - (m * ONE + ONE - 1));
        lemma_ipow_sign(ONE as int, j);
        lemma_lower_step(
            b,
            after.balance as int,
            amount as int,
            m * ONE + ONE - 1,
            g,
            ipow(ONE as int, j),
            ipow(g, j),
        );
    }
}

/// Adding whole multiples of `ONE` to a dividend adds as many to the quotient.
proof fn lemma_quotient_shift(x: int, k: int)
    requires
        x >= 0,
        k >= 0,
    ensures
        (x + k * ONE) / (ONE as int) == x / (ONE as int) + k,
{
    lemma_fundamental_div_mod(x, ONE as int);
    let q = x / (ONE as int);
    let r = x % (ONE as int);
    assert(x + k * ONE == (q + k) * ONE + r) by (nonlinear_arith)
        requires
            x == ONE * q + r,
    ;
    vstd::arithmetic::div_mod::lemma_fundamental_div_mod_converse(
        x + k * ONE,
        ONE as int,
        q + k,
        r,
    );
}

/// One week of the lower bound on a balance that falls by itself and is being
/// repaid.
proof fn lemma_falling_lower_step(b: int, b2: int, p: int, w: int, g: int, e: int, x: int)
    requires
        b2 * ONE >= b * g - w,
        0 <= g <= ONE,
        e >= 0,
        b * (ONE - g) * e + w * (e - x) >= p * (ONE - g) * x,
    ensures
        b2 * (ONE - g) * (e * ONE) + w * (e * ONE - x * g) >= p * (ONE - g) * (x * g),
{
    let r = ONE - g;
    let a = r * e;
    let ba = b * a;
    let tx = w * x;
    let te = w * e;
    let prx = p * r * x;
    assert(a >= 0) by (nonlinear_arith)
        requires
            a == r * e,
            r >= 0,
            e >= 0,
    ;
    assert(b * r * e == ba) by (nonlinear_arith)
        requires
            ba == b * a,
            a == r * e,
    ;
    assert(w * (e - x) == te - tx) by (nonlinear_arith)
        requires
            te == w * e,
            tx == w * x,
    ;
    assert(ba + te - tx >= prx);
    assert(g * ba + g * te - g * tx >= g * prx) by (nonlinear_arith)
        requires
            ba + te - tx >= prx,
            g >= 0,
    ;
    assert(b2 * ONE * a >= (b * g - w) * a) by (nonlinear_arith)
        requires
            b2 * ONE >= b * g - w,
            a >= 0,
    ;
    assert((b * g - w) * a == g * ba - w * a) by (nonlinear_arith)
        requires
            ba == b * a,
    ;
    assert(w * a == ONE * te - g * te) by (nonlinear_arith)
        requires
            a == r * e,
            r == ONE - g,
            te == w * e,
    ;
    assert(b2 * r * (e * ONE) == b2 * ONE * a) by (nonlinear_arith)
        requires
            a == r * e,
    ;
    assert(w * (e * ONE - x * g) == ONE * te - g * tx) by (nonlinear_arith)
        requires
            te == w * e,
            tx == w * x,
    ;
    assert(p * r * (x * g) == g * prx) by (nonlinear_arith)
        requires
            prx == p * r * x,
    ;
}

/// While a loan whose balance does not grow is being repaid, what is owed is
/// no more than the loan, and no less than exact arithmetic would leave with
/// every repayment a unit larger.
proof fn lemma_lower_falling(amount: u64, g: int, m: u64, k: nat)
    requires
        0 <= g <= ONE,
    ensures
        ({
            let debt = run_on(Debt { balance: amount, repayment: Some(m) }, g, k);
            &&& debt.balance <= amount
            &&& g == ONE ==> debt.balance >= amount - k * m
            &&& debt.balance * (ONE - g) * ipow(ONE as int, k) + (m * ONE + ONE - 1) * (ipow(
                ONE as int,
                k,
            ) - ipow(g, k)) >= amount * (ONE - g) * ipow(g, k)
        }),
    decreases k,
{
    let start = Debt { balance: amount, repayment: Some(m) };
    if k == 0 {
        let r = ONE - g;
        let w = m * ONE + ONE - 1;
        assert(amount * r * 1 + w * (1 - 1) >= amount * r * 1) by (nonlinear_arith);
        assert(0 * m == 0);
    } else {
        let j = (k - 1) as nat;
        lemma_lower_falling(amount, g, m, j);
        lemma_in_force(amount, g, m, j);
        let before = run_on(start, g, j);
        let after = run_on(start, g, k);
        assert(ipow(ONE as int, k) == ipow(ONE as int, j) * ONE);
        assert(ipow(g, k) == ipow(g, j) * g);
        let b = before.balance as int;
        assert(0 <= b * g <= b * ONE) by (nonlinear_arith)
            requires
                b >= 0,
                0 <= g <= ONE,
        ;
        lemma_div_is_ordered(b * g, b * ONE, ONE as int);
        lemma_div_is_ordered(0, b * g, ONE as int);
        lemma_div_multiples_vanish(b, ONE as int);
        lemma_fundamental_div_mod(b * g, ONE as int);
        let grown = scaled(before.balance, g);
        assert(grown == b * g / (ONE as int));
        assert(grown <= b);
        if before.repayment is None {
            assert(b == 0);
            assert(after.balance == 0);
        } else {
            assert(after.balance == grown - payment(grown, m));
        }
        assert(after.balance >= grown - m);
        assert(after.balance * ONE >= b * g - (m * ONE + ONE - 1));
        assert(k * m == j * m + m) by (nonlinear_arith)
            requires
                k == j + 1,
        ;
        if g == ONE {
            assert(b * ONE / (ONE as int) == b);
        }
        lemma_ipow_sign(ONE as int, j);
        lemma_falling_lower_step(
            b,
            after.balance as int,
            amount as int,
            m * ONE + ONE - 1,
            g,
            ipow(ONE as int, j),
            ipow(g, j),
        );
    }
}

/// A loan whose level repayment is not so large that one week less would do
/// is owed in every week before the last of its term: the balance stays
/// positive, and no more than the loan, and the repayment stays in force,
/// until the last repayment clears the loan.
pub proof fn lemma_owed_until_term(amount: u64, rate: i32, years: usize, week: nat)
    requires
        years > 0,
        week < periods(years),
        weekly_factor(rate) > ONE ==> amount * weekly_factor(rate) / (ONE as int) <= u64::MAX,
        outlasts(
            amount,
            weekly_factor(rate),
            annuity(amount, rate, years),
            (periods(years) - 1) as nat,
        ),
    ensures
        ({
            let start = Debt { balance: amount, repayment: Some(annuity(amount, rate, years)) };
            let debt = run_on(start, weekly_factor(rate), week);
            &&& 0 < debt.balance <= amount
            &&& debt.repayment == Some(annuity(amount, rate, years))
        }),
{
    let n = periods(years);
    let g = weekly_factor(rate);
    let m = annuity(amount, rate, years);
    let start = Debt { balance: amount, repayment: Some(m) };
    let last = (n - 1) as nat;
    lemma_weekly_factor_bounds(rate);
    lemma_ipow_sign(ONE as int, last);
    let b = run_on(start, g, last).balance as int;
    let e = ipow(ONE as int, last);
    let w = m * ONE + ONE - 1;
    if g > ONE {
        lemma_covers_interest(amount, g, n);
        lemma_lower(amount, g, m, last);
        lemma_lower(amount, g, m, week);
        assert(b > 0) by (nonlinear_arith)
            requires
                b >= 0,
                e > 0,
                g > ONE,
                b * (g - ONE) * e + w * (ipow(g, last) - e) >= amount * (g - ONE) * ipow(g, last),
                amount * (g - ONE) * ipow(g, last) > w * (ipow(g, last) - e),
        ;
    } else {
        lemma_lower_falling(amount, g, m, last);
        lemma_lower_falling(amount, g, m, week);
        if g < ONE {
            assert(b > 0) by (nonlinear_arith)
                requires
                    b >= 0,
                    e > 0,
                    g < ONE,
                    b * (ONE - g) * e + w * (e - ipow(g, last)) >= amount * (ONE - g) * ipow(
                        g,
                        last,
                    ),
                    amount * (ONE - g) * ipow(g, last) > w * (e - ipow(g, last)),
            ;
        }
    }
    if run_on(start, g, week).balance == 0 {
        lemma_stays_repaid(start, g, week, last);
    }
    lemma_in_force(amount, g, m, week);
}

/// A rate above zero has a weekly factor above `ONE`.
pub proof fn lemma_weekly_factor_above_one(rate: i32)
    requires
        rate > 0,
    ensures
        weekly_factor(rate) > ONE,
{
    lemma_weekly_factor_bounds(rate);
    let g = weekly_factor(rate);
    if g <= ONE {
        crate::fixed::lemma_fpow_ordered(g + 1, ONE + 1, 52);
        lemma_one_step_up();
    }
}

/// The fifty-second power of the least factor above `ONE` is below the yearly
/// factor of the least rate above zero.
proof fn lemma_one_step_up()
    ensures
        fpow(ONE + 1, 52) <= ONE + 10_000,
{
    lemma_small_powers(52);
}

/// The powers of the least factor above `ONE` grow by no more than a unit a
/// time, up to the ten-thousandth.
proof fn lemma_small_powers(k: nat)
    requires
        k <= 10_000,
    ensures
        ONE <= fpow(ONE + 1, k) <= ONE + k,
    decreases k,
{
    if k > 0 {
        lemma_small_powers((k - 1) as nat);
        let q = fpow(ONE + 1, (k - 1) as nat);
        lemma_fundamental_div_mod(q * (ONE + 1), ONE as int);
        assert(q * (ONE + 1) == q * ONE + q) by (nonlinear_arith);
        lemma_quotient_shift(q, q);
        assert(q + q * ONE == q * ONE + q);
        vstd::arithmetic::div_mod::lemma_div_is_ordered(q, 2 * ONE - 1, ONE as int);
        assert(q / (ONE as int) <= 1) by {
            lemma_quotient_is_one(2 * ONE - 1, ONE as int);
        }
        lemma_div_is_ordered(0, q, ONE as int);
    }
}

/// The level repayment of a loan at interest covers the first week's
/// interest and more.
pub proof fn lemma_covers_interest(amount: u64, g: int, n: nat)
    requires
        g > ONE,
        n > 0,
        amount * g / (ONE as int) <= u64::MAX,
    ensures
        level_repayment(amount, g, n) >= amount * g / (ONE as int) - amount,
{
    let r = g - ONE;
    let whole = scaled(amount, g);
    let divisor = ONE - discount(g, n);
    lemma_interest(amount as int, g);
    assert(whole == amount * g / (ONE as int));
    if divisor > 0 {
        let q = fpow(g, n);
        lemma_fpow_first(g);
        lemma_fpow_grows(g, 1, n);
        lemma_fundamental_div_mod(ONE * ONE + q - 1, q);
        let c = discount(g, n);
        assert(c >= 0) by (nonlinear_arith)
            requires
                ONE * ONE + q - 1 == q * c + (ONE * ONE + q - 1) % q,
                0 <= (ONE * ONE + q - 1) % q <= q - 1,
                q > 0,
        ;
        let top = amount * r + divisor - 1;
        let due = top / divisor;
        lemma_fundamental_div_mod(top, divisor);
        lemma_fundamental_div_mod(amount * r, ONE as int);
        let i = amount * r / (ONE as int);
        assert(due >= i) by (nonlinear_arith)
            requires
                top == divisor * due + top % divisor,
                top % divisor <= divisor - 1,
                top == amount * r + divisor - 1,
                amount * r == ONE * i + (amount * r) % (ONE as int),
                (amount * r) % (ONE as int) >= 0,
                0 < divisor <= ONE,
                i >= 0,
        ;
    }
}

} // verus!
