//! Fixed-point arithmetic shared by every instrument.
//!
//! Amounts are `u64` counts of millionths of the currency unit; ledger entries,
//! which may be in deficit, are `i64` counts of the same. Rates of return, of
//! interest and of inflation are `i32` counts of millionths of a percentage
//! point, below zero where values fall; tax rates are `u32` counts of the
//! same. Growth factors are `u64` multiples of `1 / ONE`, below `ONE` where
//! values fall. Arithmetic that would leave the range of its type yields the
//! nearest value of the type.

use vstd::arithmetic::div_mod::{
    lemma_div_is_ordered, lemma_div_nonincreasing, lemma_fundamental_div_mod,
    lemma_fundamental_div_mod_converse,
};
use vstd::prelude::*;

verus! {

/// Amount units in one unit of currency.
pub const UNIT: u64 = 1_000_000;

/// Rate units in one percentage point.
pub const PERCENT: i32 = 1_000_000;

/// The growth factor that leaves a value unchanged.
pub const ONE: u64 = 1_000_000_000_000;

/// Rate units in the whole: one hundred percentage points.
pub const WHOLE: u64 = 100_000_000;

/// The nearest `u64` to `x`.
pub open spec fn cap_u64(x: int) -> int {
    if x < 0 {
        0
    } else if x > u64::MAX {
        u64::MAX as int
    } else {
        x
    }
}

/// The nearest `i64` to `x`.
pub open spec fn cap_i64(x: int) -> int {
    if x < i64::MIN {
        i64::MIN as int
    } else if x > i64::MAX {
        i64::MAX as int
    } else {
        x
    }
}

/// The smaller of two integers.
pub open spec fn min_int(a: int, b: int) -> int {
    if a <= b {
        a
    } else {
        b
    }
}

/// The product of two `u64` values always fits in a `u128`.
pub proof fn lemma_product_fits(a: u64, b: u64)
    ensures
        0 <= a * b <= u128::MAX,
{
    assert(0 <= a * b <= 0xffff_ffff_ffff_ffff * 0xffff_ffff_ffff_ffff) by (nonlinear_arith)
        requires
            0 <= a <= 0xffff_ffff_ffff_ffff,
            0 <= b <= 0xffff_ffff_ffff_ffff,
    ;
}

/// The sum of two amounts, capped at the largest amount.
pub fn sat_add(a: u64, b: u64) -> (r: u64)
    ensures
        r == cap_u64(a + b),
{
    if a > u64::MAX - b {
        u64::MAX
    } else {
        a + b
    }
}

/// `a * b / d`, rounded down and capped at the largest amount.
pub fn mul_div(a: u64, b: u64, d: u64) -> (r: u64)
    requires
        d > 0,
    ensures
        r == cap_u64(a * b / (d as int)),
{
    proof {
        lemma_product_fits(a, b);
    }
    let q: u128 = (a as u128) * (b as u128) / (d as u128);
    if q > u64::MAX as u128 {
        u64::MAX
    } else {
        q as u64
    }
}

/// The nearest ledger entry to a wide intermediate result.
pub fn narrow(x: i128) -> (r: i64)
    ensures
        r == cap_i64(x as int),
{
    if x < i64::MIN as i128 {
        i64::MIN
    } else if x > i64::MAX as i128 {
        i64::MAX
    } else {
        x as i64
    }
}

/// `n / d` rounded towards minus infinity.
pub fn div_floor(n: i128, d: u64) -> (q: i128)
    requires
        d > 0,
        i128::MIN < n,
    ensures
        q == n as int / d as int,
        n >= 0 ==> 0 <= q <= n,
        n < 0 ==> n <= q < 0,
{
    if n >= 0 {
        proof {
            lemma_div_nonincreasing(n as int, d as int);
        }
        n / (d as i128)
    } else {
        let m: i128 = -n - 1;
        let below: i128 = m / (d as i128);
        proof {
            lemma_div_nonincreasing(m as int, d as int);
            let r = m as int % d as int;
            lemma_fundamental_div_mod(m as int, d as int);
            assert(n as int == (-below - 1) * d + (d - 1 - r)) by (nonlinear_arith)
                requires
                    m as int == d * below + r,
                    n as int == -m - 1,
            ;
            lemma_fundamental_div_mod_converse(n as int, d as int, -below - 1, d - 1 - r);
        }
        -below - 1
    }
}

/// A ledger entry increased by an amount.
pub fn credit(entry: i64, amount: u64) -> (r: i64)
    ensures
        r == cap_i64(entry + amount),
{
    narrow(entry as i128 + amount as i128)
}

/// A ledger entry decreased by an amount.
pub fn debit(entry: i64, amount: u64) -> (r: i64)
    ensures
        r == cap_i64(entry - amount),
{
    narrow(entry as i128 - amount as i128)
}

/// The cash that a ledger entry makes available: nothing while it is in
/// deficit.
pub open spec fn available(cash: i64) -> int {
    if cash < 0 {
        0
    } else {
        cash as int
    }
}

/// The cash that a ledger entry makes available.
pub fn available_cash(cash: i64) -> (r: u64)
    ensures
        r == available(cash),
{
    if cash < 0 {
        0
    } else {
        cash as u64
    }
}

/// An amount after one period of growth by `factor`, rounded down and capped
/// at the largest amount.
pub open spec fn scaled(amount: u64, factor: int) -> u64 {
    cap_u64(amount * factor / (ONE as int)) as u64
}

/// An amount after one period of growth by `factor`.
pub fn scale(amount: u64, factor: u64) -> (r: u64)
    ensures
        r == scaled(amount, factor as int),
{
    mul_div(amount, factor, ONE)
}

/// The value with which week `time` opens: the previous week's closing value
/// after one week's growth by `factor`, or, in week 0, which has no
/// predecessor, the value already recorded for it.
pub open spec fn opening(values: Seq<u64>, time: usize, factor: int) -> u64 {
    if time > 0 {
        scaled(values[time - 1], factor)
    } else {
        values[0]
    }
}

/// After week 0, the value with which a week opens depends on the series only
/// through the previous week's closing value.
pub proof fn lemma_opening_follows_previous_week(
    a: Seq<u64>,
    b: Seq<u64>,
    time: usize,
    factor: int,
)
    requires
        time > 0,
        a[time - 1] == b[time - 1],
    ensures
        opening(a, time, factor) == opening(b, time, factor),
{
}

/// The value with which week `time` opens.
pub fn open_week(values: &Vec<u64>, time: usize, factor: u64) -> (r: u64)
    requires
        time < values@.len(),
    ensures
        r == opening(values@, time, factor as int),
{
    if time > 0 {
        scale(values[time - 1], factor)
    } else {
        values[0]
    }
}

/// The largest growth factor that the arithmetic here is asked to raise to a
/// power: one more than the yearly factor of the largest rate.
pub const MAX_FACTOR: u64 = 22_474_836_470_001;

/// The largest power that `capped_power` tells apart: `ONE * ONE`.
pub const MAX_POWER: u128 = 1_000_000_000_000_000_000_000_000;

/// `g` raised to the power `n` in fixed point: each product is divided by `ONE`
/// and rounded down before the next factor is applied.
pub open spec fn fpow(g: int, n: nat) -> int
    decreases n,
{
    if n == 0 {
        ONE as int
    } else {
        fpow(g, (n - 1) as nat) * g / (ONE as int)
    }
}

/// One fixed-point product is monotone in both factors.
pub proof fn lemma_scaled_product_ordered(a: int, b: int, g: int, h: int)
    requires
        0 <= a <= b,
        0 <= g <= h,
    ensures
        0 <= a * g / (ONE as int) <= b * h / (ONE as int),
{
    assert(0 <= a * g <= b * h) by (nonlinear_arith)
        requires
            0 <= a <= b,
            0 <= g <= h,
    ;
    lemma_div_is_ordered(0, a * g, ONE as int);
    lemma_div_is_ordered(a * g, b * h, ONE as int);
}

/// A power of a larger base is no smaller.
pub proof fn lemma_fpow_ordered(g: int, h: int, n: nat)
    requires
        0 <= g <= h,
    ensures
        0 <= fpow(g, n) <= fpow(h, n),
    decreases n,
{
    if n > 0 {
        lemma_fpow_ordered(g, h, (n - 1) as nat);
        lemma_scaled_product_ordered(fpow(g, (n - 1) as nat), fpow(h, (n - 1) as nat), g, h);
    }
}

/// A factor of at least `ONE` never shrinks what it multiplies.
pub proof fn lemma_scaled_product_grows(a: int, g: int)
    requires
        0 <= a,
        ONE <= g,
    ensures
        a <= a * g / (ONE as int),
{
    assert(a * (ONE as int) <= a * g) by (nonlinear_arith)
        requires
            0 <= a,
            ONE <= g,
    ;
    lemma_div_is_ordered(a * (ONE as int), a * g, ONE as int);
    assert(a * (ONE as int) / (ONE as int) == a) by (nonlinear_arith);
}

/// With a base of at least `ONE`, a higher power is no smaller, and every power
/// is at least `ONE`.
pub proof fn lemma_fpow_grows(g: int, m: nat, n: nat)
    requires
        ONE <= g,
        m <= n,
    ensures
        ONE <= fpow(g, m) <= fpow(g, n),
    decreases n,
{
    if n > 0 {
        lemma_fpow_grows(g, 0, (n - 1) as nat);
        lemma_scaled_product_grows(fpow(g, (n - 1) as nat), g);
        if m < n {
            lemma_fpow_grows(g, m, (n - 1) as nat);
        }
    }
}

/// Every power of `ONE` is `ONE`.
pub proof fn lemma_fpow_of_one(n: nat)
    ensures
        fpow(ONE as int, n) == ONE,
    decreases n,
{
    if n > 0 {
        lemma_fpow_of_one((n - 1) as nat);
    }
}

/// The first power of a factor is the factor itself.
pub proof fn lemma_fpow_first(g: int)
    ensures
        fpow(g, 1) == g,
{
    assert(fpow(g, 1) == fpow(g, 0) * g / (ONE as int)) by {
        reveal_with_fuel(fpow, 2);
    }
    assert((ONE as int) * g / (ONE as int) == g) by (nonlinear_arith);
}

/// Every power of a factor of at most `ONE` is at most `ONE`.
pub proof fn lemma_fpow_small(g: int, n: nat)
    requires
        0 <= g <= ONE,
    ensures
        0 <= fpow(g, n) <= ONE,
{
    lemma_fpow_ordered(g, ONE as int, n);
    lemma_fpow_of_one(n);
}

/// Every power of zero but the zeroth is zero.
pub proof fn lemma_fpow_of_zero(n: nat)
    requires
        n > 0,
    ensures
        fpow(0, n) == 0,
{
    assert(fpow(0, (n - 1) as nat) * 0 == 0);
}

/// `g` raised to the power `n` in fixed point, each product rounded up: never
/// less than the exact power, where `fpow` is never more.
pub open spec fn cpow(g: int, n: nat) -> int
    decreases n,
{
    if n == 0 {
        ONE as int
    } else {
        (cpow(g, (n - 1) as nat) * g + ONE - 1) / (ONE as int)
    }
}

/// The rounded-up powers of a factor of at most `ONE` are at most `ONE`.
pub proof fn lemma_cpow_small(g: int, n: nat)
    requires
        0 <= g <= ONE,
    ensures
        0 <= cpow(g, n) <= ONE,
    decreases n,
{
    if n > 0 {
        lemma_cpow_small(g, (n - 1) as nat);
        let p = cpow(g, (n - 1) as nat);
        assert(0 <= p * g <= ONE * ONE) by (nonlinear_arith)
            requires
                0 <= p <= ONE,
                0 <= g <= ONE,
        ;
        lemma_div_is_ordered(0, p * g + ONE - 1, ONE as int);
        lemma_div_is_ordered(p * g + ONE - 1, ONE * ONE + ONE - 1, ONE as int);
        assert((ONE * ONE + ONE - 1) / (ONE as int) == ONE) by (nonlinear_arith);
    }
}

/// Once a rounded-up power repeats, every higher power repeats it.
pub proof fn lemma_cpow_settled(g: int, k: nat, n: nat)
    requires
        k <= n,
        cpow(g, k + 1) == cpow(g, k),
    ensures
        cpow(g, n) == cpow(g, k),
    decreases n,
{
    if k < n {
        lemma_cpow_settled(g, k, (n - 1) as nat);
    }
}

/// `cpow(g, n)` for a factor of at most `ONE`.
pub fn raised_power(g: u64, n: u128) -> (r: u64)
    requires
        g <= ONE,
    ensures
        r == cpow(g as int, n as nat),
{
    let mut p: u64 = ONE;
    let mut i: u128 = 0;
    while i < n
        invariant
            i <= n,
            g <= ONE,
            p == cpow(g as int, i as nat),
            p <= ONE,
        decreases n - i,
    {
        proof {
            lemma_cpow_small(g as int, (i + 1) as nat);
            assert(p * g <= ONE * ONE) by (nonlinear_arith)
                requires
                    0 <= p <= ONE,
                    0 <= g <= ONE,
            ;
        }
        let next: u64 = (((p as u128) * (g as u128) + (ONE as u128) - 1) / (ONE as u128)) as u64;
        if next == p {
            proof {
                lemma_cpow_settled(g as int, i as nat, n as nat);
            }
            return p;
        }
        p = next;
        i += 1;
    }
    p
}

/// `fpow(g, n)` where that is at most `cap`, and `cap + 1` where it is more.
pub fn capped_power(g: u64, n: u128, cap: u128) -> (r: u128)
    requires
        g <= MAX_FACTOR,
        cap <= MAX_POWER,
    ensures
        r == min_int(fpow(g as int, n as nat), cap + 1),
{
    let mut p: u128 = ONE as u128;
    let mut i: u128 = 0;
    if g < ONE {
        while i < n
            invariant
                i <= n,
                g < ONE,
                p == fpow(g as int, i as nat),
                p <= ONE,
            decreases n - i,
        {
            proof {
                lemma_fpow_small(g as int, (i + 1) as nat);
                assert(p * g <= ONE * ONE) by (nonlinear_arith)
                    requires
                        0 <= p <= ONE,
                        0 <= g <= ONE,
                ;
            }
            p = p * (g as u128) / (ONE as u128);
            i += 1;
        }
        return if p > cap {
            cap + 1
        } else {
            p
        };
    }
    if cap < ONE as u128 {
        proof {
            lemma_fpow_grows(g as int, 0, n as nat);
        }
        return cap + 1;
    }
    while i < n
        invariant
            i <= n,
            ONE <= g <= MAX_FACTOR,
            cap <= MAX_POWER,
            p == fpow(g as int, i as nat),
            ONE <= p <= cap,
        decreases n - i,
    {
        assert(p * g <= MAX_POWER * MAX_FACTOR) by (nonlinear_arith)
            requires
                0 <= p <= MAX_POWER,
                0 <= g <= MAX_FACTOR,
        ;
        let next: u128 = p * (g as u128) / (ONE as u128);
        assert(next == fpow(g as int, (i + 1) as nat));
        if next > cap {
            proof {
                lemma_fpow_grows(g as int, (i + 1) as nat, n as nat);
            }
            return cap + 1;
        }
        proof {
            lemma_fpow_grows(g as int, 0, (i + 1) as nat);
        }
        p = next;
        i += 1;
    }
    p
}

/// The yearly growth factor of an annual percentage rate: one plus the rate,
/// and nothing where the rate is below minus one hundred percent.
pub open spec fn annual_factor(rate: i32) -> int {
    if ONE + rate * 10_000 < 0 {
        0
    } else {
        ONE + rate * 10_000
    }
}

/// `g` is the weekly factor of `rate`: the largest factor whose fifty-second
/// power does not exceed the yearly factor.
pub open spec fn is_weekly_factor(g: int, rate: i32) -> bool {
    &&& 0 <= g
    &&& fpow(g, 52) <= annual_factor(rate)
    &&& annual_factor(rate) < fpow(g + 1, 52)
}

/// The weekly growth factor equivalent to an annual percentage rate under
/// weekly compounding. It is below `ONE` where the rate is below zero.
pub closed spec fn weekly_factor(rate: i32) -> int {
    choose|g: int| is_weekly_factor(g, rate)
}

/// At most one factor is the weekly factor of a rate, and `weekly_factor` is it.
pub proof fn lemma_weekly_factor_unique(g: int, rate: i32)
    requires
        is_weekly_factor(g, rate),
    ensures
        weekly_factor(rate) == g,
{
    let w = weekly_factor(rate);
    assert(is_weekly_factor(w, rate));
    if w < g {
        lemma_fpow_ordered(w + 1, g, 52);
    } else if g < w {
        lemma_fpow_ordered(g + 1, w, 52);
    }
}

/// A weekly factor is at least `ONE` and at most the yearly factor where the
/// rate is not below zero, and at most `ONE` where it is not above zero.
pub proof fn lemma_weekly_factor_range(g: int, rate: i32)
    requires
        is_weekly_factor(g, rate),
    ensures
        0 <= g < MAX_FACTOR,
        rate >= 0 ==> ONE <= g <= annual_factor(rate),
        rate <= 0 ==> g <= ONE,
        forall|k: nat| k <= 52 ==> 0 <= #[trigger] fpow(g, k) <= MAX_FACTOR,
{
    lemma_fpow_of_one(52);
    if g + 1 <= ONE {
        lemma_fpow_ordered(g + 1, ONE as int, 52);
    }
    if g > ONE {
        lemma_fpow_first(g);
        lemma_fpow_grows(g, 1, 52);
    }
    assert forall|k: nat| k <= 52 implies 0 <= #[trigger] fpow(g, k) <= MAX_FACTOR by {
        if g <= ONE {
            lemma_fpow_small(g, k);
        } else {
            lemma_fpow_grows(g, k, 52);
        }
    }
}

/// Every rate has a weekly factor.
pub proof fn lemma_weekly_factor_bounds(rate: i32)
    ensures
        is_weekly_factor(weekly_factor(rate), rate),
        0 <= weekly_factor(rate) < MAX_FACTOR,
        rate >= 0 ==> ONE <= weekly_factor(rate) <= annual_factor(rate),
        rate <= 0 ==> weekly_factor(rate) <= ONE,
{
    let t = annual_factor(rate);
    let hi = if t >= ONE {
        t
    } else {
        ONE as int
    };
    lemma_fpow_first(hi + 1);
    lemma_fpow_grows(hi + 1, 1, 52);
    lemma_weekly_factor_exists(rate, hi);
    lemma_weekly_factor_range(weekly_factor(rate), rate);
}

/// Some factor in `[0, hi]` is the weekly factor of `rate`, given that the
/// fifty-second power of `hi + 1` exceeds the yearly factor.
proof fn lemma_weekly_factor_exists(rate: i32, hi: int)
    requires
        0 <= hi,
        annual_factor(rate) < fpow(hi + 1, 52),
    ensures
        exists|g: int| is_weekly_factor(g, rate),
    decreases hi,
{
    if fpow(hi, 52) <= annual_factor(rate) {
        assert(is_weekly_factor(hi, rate));
    } else {
        if hi == 0 {
            lemma_fpow_of_zero(52);
        }
        lemma_weekly_factor_exists(rate, hi - 1);
    }
}

/// Converts an annual percentage rate to the weekly growth factor that
/// compounds to it over fifty-two weeks.
pub fn weekly_growth_factor(rate: i32) -> (g: u64)
    ensures
        g == weekly_factor(rate),
        is_weekly_factor(g as int, rate),
        g < MAX_FACTOR,
        rate >= 0 ==> ONE <= g <= annual_factor(rate),
        rate <= 0 ==> g <= ONE,
{
    let wide: i64 = (ONE as i64) + (rate as i64) * 10_000;
    let target: u64 = if wide < 0 {
        0
    } else {
        wide as u64
    };
    let mut lo: u64 = if target >= ONE {
        ONE
    } else {
        0
    };
    let mut hi: u64 = if target >= ONE {
        target + 1
    } else {
        ONE
    };
    proof {
        lemma_fpow_of_one(52);
        lemma_fpow_of_zero(52);
        if target >= ONE {
            lemma_fpow_first(hi as int);
            lemma_fpow_grows(hi as int, 1, 52);
        }
    }
    while hi - lo > 1
        invariant
            target == annual_factor(rate),
            lo < hi <= MAX_FACTOR,
            fpow(lo as int, 52) <= target < fpow(hi as int, 52),
        decreases hi - lo,
    {
        let mid: u64 = lo + (hi - lo) / 2;
        let p: u128 = capped_power(mid, 52, target as u128);
        if p > target as u128 {
            hi = mid;
        } else {
            lo = mid;
        }
    }
    proof {
        lemma_weekly_factor_unique(lo as int, rate);
        lemma_weekly_factor_range(lo as int, rate);
    }
    lo
}

} // verus!
