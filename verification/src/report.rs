//! The text of the output files: one line for each week, holding the week and
//! the value at its close, in decimal notation with six decimal places.

use crate::fixed::UNIT;
use crate::parse::{
    all_digits, amount_of, decimal_value, digits_value, fraction_part, is_digit,
    millionths, point_from, pow10, unsigned, whole_of, whole_part,
};
use vstd::arithmetic::div_mod::lemma_mod_breakdown;
use vstd::prelude::*;

verus! {

/// The decimal digits of `n`, without leading zeros.
pub open spec fn digits_of(n: nat) -> Seq<u8>
    decreases n,
{
    if n < 10 {
        seq![(48 + n) as u8]
    } else {
        digits_of(n / 10).push((48 + n % 10) as u8)
    }
}

/// The last `places` decimal digits of `n`, with leading zeros.
pub open spec fn fixed_digits(n: nat, places: nat) -> Seq<u8>
    decreases places,
{
    if places == 0 {
        Seq::empty()
    } else {
        fixed_digits(n / 10, (places - 1) as nat).push((48 + n % 10) as u8)
    }
}

/// An amount in decimal notation: the whole units, a decimal point, and six
/// decimal places.
pub open spec fn amount_text(amount: u64) -> Seq<u8> {
    digits_of((amount / UNIT) as nat) + seq![46u8] + fixed_digits((amount % UNIT) as nat, 6)
}

/// A ledger entry in decimal notation, with a minus sign where it is in
/// deficit.
pub open spec fn entry_text(entry: i64) -> Seq<u8> {
    if entry < 0 {
        seq![45u8] + amount_text((-entry) as u64)
    } else {
        amount_text(entry as u64)
    }
}

/// The line for one week: the week, a space, the value, a line feed.
pub open spec fn amount_line(week: nat, amount: u64) -> Seq<u8> {
    digits_of(week) + seq![32u8] + amount_text(amount) + seq![10u8]
}

/// The line for one week of a ledger.
pub open spec fn entry_line(week: nat, entry: i64) -> Seq<u8> {
    digits_of(week) + seq![32u8] + entry_text(entry) + seq![10u8]
}

/// The text of a series of amounts: one line for each week, from week 0 on.
pub open spec fn series_text(values: Seq<u64>) -> Seq<u8>
    decreases values.len(),
{
    if values.len() == 0 {
        Seq::empty()
    } else {
        series_text(values.drop_last()) + amount_line((values.len() - 1) as nat, values.last())
    }
}

/// The text of a ledger: one line for each week, from week 0 on.
pub open spec fn ledger_text(entries: Seq<i64>) -> Seq<u8>
    decreases entries.len(),
{
    if entries.len() == 0 {
        Seq::empty()
    } else {
        ledger_text(entries.drop_last()) + entry_line(
            (entries.len() - 1) as nat,
            entries.last(),
        )
    }
}

/// Appends the decimal digits of `n`.
pub fn push_number(out: &mut Vec<u8>, n: u64)
    ensures
        final(out)@ == old(out)@ + digits_of(n as nat),
    decreases n,
{
    if n >= 10 {
        push_number(out, n / 10);
    }
    out.push(48 + (n % 10) as u8);
    assert(out@ =~= old(out)@ + digits_of(n as nat));
}

/// Appends the last `places` decimal digits of `n`.
fn push_fixed(out: &mut Vec<u8>, n: u64, places: usize)
    ensures
        final(out)@ == old(out)@ + fixed_digits(n as nat, places as nat),
    decreases places,
{
    if places > 0 {
        push_fixed(out, n / 10, places - 1);
        out.push(48 + (n % 10) as u8);
    }
    assert(out@ =~= old(out)@ + fixed_digits(n as nat, places as nat));
}

/// Appends an amount in decimal notation.
pub fn push_amount(out: &mut Vec<u8>, amount: u64)
    ensures
        final(out)@ == old(out)@ + amount_text(amount),
{
    push_number(out, amount / UNIT);
    out.push(46);
    push_fixed(out, amount % UNIT, 6);
    assert(out@ =~= old(out)@ + amount_text(amount));
}

/// Appends a ledger entry in decimal notation.
pub fn push_entry(out: &mut Vec<u8>, entry: i64)
    ensures
        final(out)@ == old(out)@ + entry_text(entry),
{
    if entry < 0 {
        out.push(45);
        let magnitude: u64 = (-(entry as i128)) as u64;
        push_amount(out, magnitude);
        assert(out@ =~= old(out)@ + entry_text(entry));
    } else {
        push_amount(out, entry as u64);
    }
}

/// Appends the line for one week of a series of amounts.
pub fn push_amount_line(out: &mut Vec<u8>, week: usize, amount: u64)
    ensures
        final(out)@ == old(out)@ + amount_line(week as nat, amount),
{
    push_number(out, week as u64);
    out.push(32);
    push_amount(out, amount);
    out.push(10);
    assert(out@ =~= old(out)@ + amount_line(week as nat, amount));
}

/// Appends the text of a series of amounts.
pub fn write_series(file: &mut Vec<u8>, values: &Vec<u64>)
    ensures
        final(file)@ == old(file)@ + series_text(values@),
{
    let mut i: usize = 0;
    assert(file@ =~= old(file)@ + series_text(values@.take(0)));
    while i < values.len()
        invariant
            i <= values@.len(),
            file@ == old(file)@ + series_text(values@.take(i as int)),
        decreases values@.len() - i,
    {
        let ghost so_far = file@;
        push_amount_line(file, i, values[i]);
        proof {
            assert(values@.take(i + 1).drop_last() =~= values@.take(i as int));
            assert(file@ =~= old(file)@ + series_text(values@.take(i + 1)));
        }
        i += 1;
    }
    assert(values@.take(values@.len() as int) =~= values@);
}

/// Appends the text of a ledger.
pub fn write_ledger(file: &mut Vec<u8>, entries: &Vec<i64>)
    ensures
        final(file)@ == old(file)@ + ledger_text(entries@),
{
    let mut i: usize = 0;
    assert(file@ =~= old(file)@ + ledger_text(entries@.take(0)));
    while i < entries.len()
        invariant
            i <= entries@.len(),
            file@ == old(file)@ + ledger_text(entries@.take(i as int)),
        decreases entries@.len() - i,
    {
        let ghost so_far = file@;
        push_number(file, i as u64);
        file.push(32);
        push_entry(file, entries[i]);
        file.push(10);
        proof {
            assert(file@ =~= so_far + entry_line(i as nat, entries@[i as int]));
            assert(entries@.take(i + 1).drop_last() =~= entries@.take(i as int));
            assert(file@ =~= old(file)@ + ledger_text(entries@.take(i + 1)));
        }
        i += 1;
    }
    assert(entries@.take(entries@.len() as int) =~= entries@);
}

/// The digits of a number are digits, at least one of them, and write the
/// number.
pub proof fn lemma_digits_of(n: nat)
    ensures
        digits_of(n).len() >= 1,
        all_digits(digits_of(n)),
        digits_value(digits_of(n)) == n,
    decreases n,
{
    let d = digits_of(n);
    if n < 10 {
        assert(d.drop_last() =~= Seq::<u8>::empty());
        assert(digits_value(d.drop_last()) == 0);
    } else {
        lemma_digits_of(n / 10);
        assert(d.drop_last() =~= digits_of(n / 10));
        assert forall|i: int| 0 <= i < d.len() implies is_digit(#[trigger] d[i]) by {
            if i < d.len() - 1 {
                assert(d[i] == digits_of(n / 10)[i]);
            }
        }
    }
}

/// A fixed number of digits are digits, as many as asked for, and write the
/// number short of the digits that do not fit.
pub proof fn lemma_fixed_digits(n: nat, places: nat)
    ensures
        fixed_digits(n, places).len() == places,
        all_digits(fixed_digits(n, places)),
        pow10(places) > 0,
        digits_value(fixed_digits(n, places)) == n % pow10(places),
    decreases places,
{
    let d = fixed_digits(n, places);
    if places > 0 {
        let before = (places - 1) as nat;
        lemma_fixed_digits(n / 10, before);
        assert(d.drop_last() =~= fixed_digits(n / 10, before));
        assert forall|i: int| 0 <= i < d.len() implies is_digit(#[trigger] d[i]) by {
            if i < d.len() - 1 {
                assert(d[i] == fixed_digits(n / 10, before)[i]);
            }
        }
        lemma_mod_breakdown(n as int, 10, pow10(before) as int);
        assert(pow10(places) == 10 * pow10(before));
    }
}

/// The first decimal point at or after `i` is at `k`, where nothing before
/// `k` is one.
proof fn lemma_point_at(s: Seq<u8>, i: int, k: int)
    requires
        0 <= i <= k < s.len(),
        s[k] == 46,
        forall|j: int| i <= j < k ==> s[j] != 46,
    ensures
        point_from(s, i) == k,
    decreases k - i,
{
    if i < k {
        lemma_point_at(s, i + 1, k);
    }
}

/// A number that is written reads back as itself.
pub proof fn lemma_number_reads_back(n: usize)
    ensures
        whole_of(digits_of(n as nat)) == Some(n),
{
    lemma_digits_of(n as nat);
    let d = digits_of(n as nat);
    assert(is_digit(d[0]));
    assert(unsigned(d) == d);
}

/// An amount that is written reads back as itself.
pub proof fn lemma_amount_reads_back(amount: u64)
    ensures
        amount_of(amount_text(amount)) == Some(amount),
{
    let units = (amount / UNIT) as nat;
    let parts = (amount % UNIT) as nat;
    let whole = digits_of(units);
    let fraction = fixed_digits(parts, 6);
    let text = amount_text(amount);
    lemma_digits_of(units);
    lemma_fixed_digits(parts, 6);
    assert(pow10(6) == 1_000_000) by {
        reveal_with_fuel(pow10, 7);
    }
    assert(text.len() == whole.len() + 7);
    assert(text[0] == whole[0]);
    assert(is_digit(whole[0]));
    assert(unsigned(text) == text);
    assert forall|j: int| 0 <= j < whole.len() implies text[j] != 46 by {
        assert(text[j] == whole[j]);
        assert(is_digit(whole[j]));
    }
    assert(text[whole.len() as int] == 46);
    lemma_point_at(text, 0, whole.len() as int);
    assert(whole_part(text) =~= whole);
    assert(fraction_part(text) =~= fraction);
    assert(fraction.take(6) =~= fraction);
    assert(millionths(fraction) == parts);
    assert(decimal_value(whole, fraction, u64::MAX as int) == Some(amount as int));
}

} // verus!
