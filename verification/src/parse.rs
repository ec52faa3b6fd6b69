//! The text formats of the input files, as functions on bytes.
//!
//! A file is a sequence of lines, a line a sequence of fields separated by
//! ASCII whitespace. A whole number is a run of decimal digits, an amount or a
//! rate a run of decimal digits with at most one decimal point, either with an
//! optional leading plus sign; a rate may carry a minus sign instead. Amounts
//! and rates are read to six decimal places; further places are dropped.

use vstd::prelude::*;
use vstd::slice::slice_subrange;
use vstd::string::StringSliceAdditionalSpecFns;

verus! {

/// Why a line of input was rejected.
#[derive(Clone, Copy, Debug, PartialEq, Eq, Structural)]
pub enum ParseError {
    /// The line has fewer fields than it needs.
    MissingField,
    /// A field that must be a number is not one, or is too large.
    InvalidNumber,
    /// The action keyword is not one that the instrument knows.
    UnknownCommand,
    /// The week lies beyond the horizon.
    WeekOutOfRange,
}

/// A rejected line: its position in the file, counted from zero, and why it
/// was rejected.
#[derive(Clone, Copy, Debug, PartialEq, Eq, Structural)]
pub struct LineError {
    pub line: usize,
    pub error: ParseError,
}

/// ASCII whitespace: space, tab, line feed, vertical tab, form feed, carriage
/// return.
pub open spec fn is_space(b: u8) -> bool {
    b == 32 || 9 <= b <= 13
}

/// A decimal digit.
pub open spec fn is_digit(b: u8) -> bool {
    48 <= b <= 57
}

/// The first position at or after `i` that holds no whitespace, or the length
/// of `s` if there is none.
pub open spec fn word_start(s: Seq<u8>, i: int) -> int
    decreases s.len() - i,
{
    if 0 <= i < s.len() && is_space(s[i]) {
        word_start(s, i + 1)
    } else {
        i
    }
}

/// The first position at or after `i` that holds whitespace, or the length of
/// `s` if there is none.
pub open spec fn word_end(s: Seq<u8>, i: int) -> int
    decreases s.len() - i,
{
    if 0 <= i < s.len() && !is_space(s[i]) {
        word_end(s, i + 1)
    } else {
        i
    }
}

/// Where the next word starts: at or after `i`, within `s`, and not on
/// whitespace.
pub proof fn lemma_word_start(s: Seq<u8>, i: int)
    requires
        0 <= i <= s.len(),
    ensures
        i <= word_start(s, i) <= s.len(),
        word_start(s, i) < s.len() ==> !is_space(s[word_start(s, i)]),
        word_start(s, word_start(s, i)) == word_start(s, i),
    decreases s.len() - i,
{
    if i < s.len() && is_space(s[i]) {
        lemma_word_start(s, i + 1);
    }
}

/// Where a word ends: after its first byte, within `s`.
pub proof fn lemma_word_end(s: Seq<u8>, i: int)
    requires
        0 <= i <= s.len(),
    ensures
        i <= word_end(s, i) <= s.len(),
        i < s.len() && !is_space(s[i]) ==> i < word_end(s, i),
    decreases s.len() - i,
{
    if i < s.len() && !is_space(s[i]) {
        lemma_word_end(s, i + 1);
    }
}

/// The fields of `s` from position `i` on: the maximal runs of bytes that are
/// not whitespace, in order.
pub open spec fn fields_from(s: Seq<u8>, i: int) -> Seq<Seq<u8>>
    decreases s.len() - i,
{
    let a = word_start(s, i);
    if 0 <= i && a < s.len() {
        let b = word_end(s, a);
        proof {
            lemma_word_start(s, i);
            lemma_word_end(s, a);
        }
        seq![s.subrange(a, b)] + fields_from(s, b)
    } else {
        Seq::empty()
    }
}

/// The fields of a line.
pub open spec fn fields(s: Seq<u8>) -> Seq<Seq<u8>> {
    fields_from(s, 0)
}

/// What each of a list of fields holds.
pub open spec fn views(fields: Seq<&[u8]>) -> Seq<Seq<u8>> {
    Seq::new(fields.len(), |k: int| fields[k]@)
}

/// Leading whitespace belongs to no field.
pub proof fn lemma_fields_skip_spaces(s: Seq<u8>, i: int)
    requires
        0 <= i <= s.len(),
    ensures
        fields_from(s, i) == fields_from(s, word_start(s, i)),
{
    lemma_word_start(s, i);
}

/// Whether `b` is ASCII whitespace.
pub fn is_space_byte(b: u8) -> (r: bool)
    ensures
        r == is_space(b),
{
    b == 32 || (9 <= b && b <= 13)
}

/// The position at which the next field starts, at or after `i`.
fn find_word_start(line: &[u8], i: usize) -> (a: usize)
    requires
        i <= line@.len(),
    ensures
        a == word_start(line@, i as int),
        i <= a <= line@.len(),
{
    let mut a: usize = i;
    while a < line.len() && is_space_byte(line[a])
        invariant
            i <= a <= line@.len(),
            word_start(line@, a as int) == word_start(line@, i as int),
        decreases line@.len() - a,
    {
        a += 1;
    }
    a
}

/// The position at which the field that starts at `i` ends.
fn find_word_end(line: &[u8], i: usize) -> (b: usize)
    requires
        i <= line@.len(),
    ensures
        b == word_end(line@, i as int),
        i <= b <= line@.len(),
{
    let mut b: usize = i;
    while b < line.len() && !is_space_byte(line[b])
        invariant
            i <= b <= line@.len(),
            word_end(line@, b as int) == word_end(line@, i as int),
        decreases line@.len() - b,
    {
        b += 1;
    }
    b
}

/// Splits a line into its fields.
pub fn split_fields<'a>(line: &'a [u8]) -> (out: Vec<&'a [u8]>)
    ensures
        views(out@) == fields(line@),
{
    let n: usize = line.len();
    let mut out: Vec<&'a [u8]> = Vec::new();
    let mut a: usize = find_word_start(line, 0);
    proof {
        lemma_fields_skip_spaces(line@, 0);
        lemma_word_start(line@, 0);
        assert(views(out@) + fields_from(line@, a as int) =~= fields(line@));
    }
    while a < n
        invariant
            n == line@.len(),
            a <= n,
            word_start(line@, a as int) == a,
            views(out@) + fields_from(line@, a as int) == fields(line@),
        decreases n - a,
    {
        let b: usize = find_word_end(line, a);
        let ghost before = views(out@);
        proof {
            lemma_word_end(line@, a as int);
            lemma_fields_skip_spaces(line@, b as int);
            lemma_word_start(line@, b as int);
        }
        out.push(slice_subrange(line, a, b));
        let next: usize = find_word_start(line, b);
        proof {
            assert(views(out@) =~= before.push(line@.subrange(a as int, b as int)));
            assert(views(out@) + fields_from(line@, next as int) =~= before + fields_from(
                line@,
                a as int,
            ));
        }
        a = next;
    }
    proof {
        assert(views(out@) + fields_from(line@, a as int) =~= views(out@));
    }
    out
}

/// Whether two runs of bytes are the same.
pub fn bytes_equal(a: &[u8], b: &[u8]) -> (r: bool)
    ensures
        r == (a@ == b@),
{
    if a.len() != b.len() {
        return false;
    }
    let mut i: usize = 0;
    while i < a.len()
        invariant
            i <= a@.len(),
            a@.len() == b@.len(),
            forall|k: int| 0 <= k < i ==> a@[k] == b@[k],
        decreases a@.len() - i,
    {
        if a[i] != b[i] {
            return false;
        }
        i += 1;
    }
    assert(a@ =~= b@);
    true
}

/// Whether a field is the keyword `word`.
pub fn is_keyword(field: &[u8], word: &str) -> (r: bool)
    ensures
        r == (field@ == word.spec_bytes()),
{
    bytes_equal(field, word.as_bytes())
}

/// Every byte is a decimal digit.
pub open spec fn all_digits(s: Seq<u8>) -> bool {
    forall|i: int| 0 <= i < s.len() ==> is_digit(#[trigger] s[i])
}

/// The number that a run of decimal digits writes.
pub open spec fn digits_value(s: Seq<u8>) -> nat
    decreases s.len(),
{
    if s.len() == 0 {
        0
    } else {
        digits_value(s.drop_last()) * 10 + (s.last() - 48) as nat
    }
}

/// A run of digits writes no less than any of its prefixes.
pub proof fn lemma_digits_prefix(s: Seq<u8>, k: int)
    requires
        0 <= k <= s.len(),
    ensures
        digits_value(s.take(k)) <= digits_value(s),
    decreases s.len(),
{
    if k == s.len() {
        assert(s.take(k) =~= s);
    } else {
        lemma_digits_prefix(s.drop_last(), k);
        assert(s.drop_last().take(k) =~= s.take(k));
    }
}

/// A field without its leading plus sign, if it has one.
pub open spec fn unsigned(s: Seq<u8>) -> Seq<u8> {
    if s.len() > 0 && s[0] == 43 {
        s.subrange(1, s.len() as int)
    } else {
        s
    }
}

/// The number that `s` writes, where `s` is a run of one or more digits that
/// writes no more than `limit`.
pub open spec fn number_of(s: Seq<u8>, limit: int) -> Option<int> {
    if s.len() > 0 && all_digits(s) && digits_value(s) <= limit {
        Some(digits_value(s) as int)
    } else {
        None
    }
}

/// The whole number that a field writes.
pub open spec fn whole_of(s: Seq<u8>) -> Option<usize> {
    match number_of(unsigned(s), usize::MAX as int) {
        Some(v) => Some(v as usize),
        None => None,
    }
}

/// The position of the first decimal point at or after `i`, or the length of
/// `s` if there is none.
pub open spec fn point_from(s: Seq<u8>, i: int) -> int
    decreases s.len() - i,
{
    if 0 <= i < s.len() && s[i] != 46 {
        point_from(s, i + 1)
    } else {
        i
    }
}

/// Ten to the power `n`.
pub open spec fn pow10(n: nat) -> nat
    decreases n,
{
    if n == 0 {
        1
    } else {
        10 * pow10((n - 1) as nat)
    }
}

/// The millionths that the digits after a decimal point write: the first six
/// count, the rest are dropped.
pub open spec fn millionths(fraction: Seq<u8>) -> nat {
    if fraction.len() >= 6 {
        digits_value(fraction.take(6))
    } else {
        digits_value(fraction) * pow10((6 - fraction.len()) as nat)
    }
}

/// The digits before the decimal point of an unsigned field.
pub open spec fn whole_part(s: Seq<u8>) -> Seq<u8> {
    s.take(point_from(s, 0))
}

/// The digits after the decimal point of an unsigned field.
pub open spec fn fraction_part(s: Seq<u8>) -> Seq<u8> {
    if point_from(s, 0) < s.len() {
        s.subrange(point_from(s, 0) + 1, s.len() as int)
    } else {
        Seq::empty()
    }
}

/// The number of millionths that the digits `whole` before and `fraction`
/// after a decimal point write, where they write one that is at most `limit`:
/// digits only, and at least one digit in all.
pub open spec fn decimal_value(whole: Seq<u8>, fraction: Seq<u8>, limit: int) -> Option<int> {
    let value = digits_value(whole) * 1_000_000 + millionths(fraction);
    if whole.len() + fraction.len() > 0 && all_digits(whole) && all_digits(fraction) && value
        <= limit {
        Some(value as int)
    } else {
        None
    }
}

/// The number of millionths that a field writes in decimal notation, where it
/// writes one that is at most `limit`: digits with at most one decimal point
/// among them, at least one digit in all.
pub open spec fn decimal_of(s: Seq<u8>, limit: int) -> Option<int> {
    decimal_value(whole_part(unsigned(s)), fraction_part(unsigned(s)), limit)
}

/// The amount that a field writes.
pub open spec fn amount_of(s: Seq<u8>) -> Option<u64> {
    match decimal_of(s, u64::MAX as int) {
        Some(v) => Some(v as u64),
        None => None,
    }
}

/// The rate that a field writes: a decimal number, or a minus sign and the
/// digits and decimal point of one.
pub open spec fn rate_of(s: Seq<u8>) -> Option<i32> {
    if s.len() > 0 && s[0] == 45 {
        let body = s.subrange(1, s.len() as int);
        match decimal_value(whole_part(body), fraction_part(body), -(i32::MIN as int)) {
            Some(v) => Some((-v) as i32),
            None => None,
        }
    } else {
        match decimal_of(s, i32::MAX as int) {
            Some(v) => Some(v as i32),
            None => None,
        }
    }
}

/// Whether `b` is a decimal digit.
pub fn is_digit_byte(b: u8) -> (r: bool)
    ensures
        r == is_digit(b),
{
    48 <= b && b <= 57
}

/// The number that `field[lo..hi]` writes, where that is a run of digits
/// writing no more than `limit`; an empty run writes zero.
fn read_digits(field: &[u8], lo: usize, hi: usize, limit: u64) -> (r: Option<u64>)
    requires
        lo <= hi <= field@.len(),
    ensures
        ({
            let run = field@.subrange(lo as int, hi as int);
            r == if all_digits(run) && digits_value(run) <= limit {
                Some(digits_value(run) as u64)
            } else {
                None
            }
        }),
{
    let ghost run = field@.subrange(lo as int, hi as int);
    let mut value: u64 = 0;
    let mut i: usize = lo;
    assert(run.take(0).len() == 0);
    while i < hi
        invariant
            lo <= i <= hi <= field@.len(),
            run == field@.subrange(lo as int, hi as int),
            all_digits(run.take(i - lo)),
            value == digits_value(run.take(i - lo)),
            value <= limit,
        decreases hi - i,
    {
        let b: u8 = field[i];
        assert(run[i - lo] == b);
        if !is_digit_byte(b) {
            return None;
        }
        let next: u128 = (value as u128) * 10 + ((b - 48) as u128);
        proof {
            assert(run.take(i - lo + 1).drop_last() =~= run.take(i - lo));
            assert(next == digits_value(run.take(i - lo + 1)));
            lemma_digits_prefix(run, i - lo + 1);
        }
        if next > limit as u128 {
            return None;
        }
        value = next as u64;
        i += 1;
    }
    assert(run.take(hi - lo) =~= run);
    Some(value)
}

/// Where a field's body starts: after a leading plus sign, if it has one.
fn skip_sign(field: &[u8]) -> (start: usize)
    ensures
        start <= field@.len(),
        field@.subrange(start as int, field@.len() as int) == unsigned(field@),
{
    if field.len() > 0 && field[0] == 43 {
        1
    } else {
        assert(field@.subrange(0, field@.len() as int) =~= field@);
        0
    }
}

/// Reads a whole number.
pub fn parse_whole(field: &[u8]) -> (r: Option<usize>)
    ensures
        r == whole_of(field@),
{
    let start: usize = skip_sign(field);
    if start == field.len() {
        return None;
    }
    match read_digits(field, start, field.len(), usize::MAX as u64) {
        Some(v) => Some(v as usize),
        None => None,
    }
}

/// The position of the first decimal point at or after `start`.
fn find_point(field: &[u8], start: usize) -> (point: usize)
    requires
        start <= field@.len(),
    ensures
        start <= point <= field@.len(),
        point - start == point_from(field@.subrange(start as int, field@.len() as int), 0),
{
    let n: usize = field.len();
    let ghost body = field@.subrange(start as int, n as int);
    let mut point: usize = start;
    while point < n && field[point] != 46
        invariant
            start <= point <= n,
            n == field@.len(),
            body == field@.subrange(start as int, n as int),
            point_from(body, point - start) == point_from(body, 0),
        decreases n - point,
    {
        assert(body[point - start] == field@[point as int]);
        point += 1;
    }
    proof {
        if point < n {
            assert(body[point - start] == field@[point as int]);
        }
    }
    point
}

/// Whether `field[lo..hi]` holds digits only.
fn only_digits(field: &[u8], lo: usize, hi: usize) -> (r: bool)
    requires
        lo <= hi <= field@.len(),
    ensures
        r == all_digits(field@.subrange(lo as int, hi as int)),
{
    let ghost run = field@.subrange(lo as int, hi as int);
    let mut i: usize = lo;
    while i < hi
        invariant
            lo <= i <= hi <= field@.len(),
            run == field@.subrange(lo as int, hi as int),
            forall|k: int| 0 <= k < i - lo ==> is_digit(#[trigger] run[k]),
        decreases hi - i,
    {
        assert(run[i - lo] == field@[i as int]);
        if !is_digit_byte(field[i]) {
            return false;
        }
        i += 1;
    }
    true
}

/// `value` with `places` zeros appended, for a value of at most `6 - places`
/// digits.
fn pad(value: u64, places: usize) -> (r: u64)
    requires
        places <= 6,
        value * pow10(places as nat) <= 999_999,
    ensures
        r == value * pow10(places as nat),
{
    let mut r: u64 = value;
    let mut done: usize = 0;
    assert(value * pow10(0) == value) by (nonlinear_arith)
        requires
            pow10(0) == 1,
    ;
    while done < places
        invariant
            done <= places <= 6,
            r == value * pow10(done as nat),
            value * pow10(places as nat) <= 999_999,
        decreases places - done,
    {
        proof {
            lemma_pow10_step(done as nat);
            lemma_pow10_ordered((done + 1) as nat, places as nat);
            assert(value * pow10((done + 1) as nat) <= value * pow10(places as nat))
                by (nonlinear_arith)
                requires
                    0 <= value,
                    pow10((done + 1) as nat) <= pow10(places as nat),
            ;
            assert(value * (10 * pow10(done as nat)) == value * pow10(done as nat) * 10)
                by (nonlinear_arith);
        }
        r = r * 10;
        done += 1;
    }
    r
}

/// The millionths that the digits `field[from..]` write after a decimal point.
fn read_fraction(field: &[u8], from: usize) -> (r: Option<u64>)
    requires
        from <= field@.len(),
    ensures
        ({
            let fraction = field@.subrange(from as int, field@.len() as int);
            &&& r is Some <==> all_digits(fraction)
            &&& r matches Some(v) ==> v == millionths(fraction) && v <= 999_999
        }),
{
    let n: usize = field.len();
    let ghost fraction = field@.subrange(from as int, n as int);
    if !only_digits(field, from, n) {
        return None;
    }
    let counted: usize = if n - from >= 6 {
        from + 6
    } else {
        n
    };
    let ghost head = field@.subrange(from as int, counted as int);
    proof {
        assert(head =~= fraction.take(counted - from));
        assert forall|i: int| 0 <= i < head.len() implies is_digit(#[trigger] head[i]) by {
            assert(head[i] == fraction[i]);
        }
        lemma_digits_below(head);
        lemma_pow10_step((6 - head.len()) as nat);
        assert(digits_value(head) <= 999_999) by (nonlinear_arith)
            requires
                digits_value(head) * pow10((6 - head.len()) as nat) <= 999_999,
                pow10((6 - head.len()) as nat) >= 1,
        ;
        if n - from < 6 {
            assert(head =~= fraction);
        }
    }
    let first: u64 = match read_digits(field, from, counted, 999_999) {
        Some(v) => v,
        None => {
            return None;
        },
    };
    assert(first == digits_value(head));
    let places: usize = 6 - (counted - from);
    assert(places == 6 - head.len());
    let parts: u64 = pad(first, places);
    proof {
        if n - from >= 6 {
            assert(pow10(0) == 1);
            assert(parts == first) by (nonlinear_arith)
                requires
                    parts == first * pow10(0),
                    pow10(0) == 1,
            ;
        }
        assert(parts == millionths(fraction));
    }
    Some(parts)
}

/// The millionths that `field[start..point]` before and `field[from..]` after
/// a decimal point write.
fn read_parts(field: &[u8], start: usize, point: usize, from: usize, limit: u64) -> (r: Option<
    u64,
>)
    requires
        start <= point <= from <= field@.len(),
    ensures
        r == match decimal_value(
            field@.subrange(start as int, point as int),
            field@.subrange(from as int, field@.len() as int),
            limit as int,
        ) {
            Some(v) => Some(v as u64),
            None => None,
        },
{
    let n: usize = field.len();
    if point - start + (n - from) == 0 {
        return None;
    }
    let units: u64 = match read_digits(field, start, point, u64::MAX / 1_000_000) {
        Some(v) => v,
        None => {
            return None;
        },
    };
    let parts: u64 = match read_fraction(field, from) {
        Some(v) => v,
        None => {
            return None;
        },
    };
    let value: u128 = (units as u128) * 1_000_000 + (parts as u128);
    proof {
        let whole = field@.subrange(start as int, point as int);
        let fraction = field@.subrange(from as int, n as int);
        assert(all_digits(whole));
        assert(all_digits(fraction));
        assert(units == digits_value(whole));
        assert(parts == millionths(fraction));
        assert(value == digits_value(whole) * 1_000_000 + millionths(fraction));
    }
    if value > limit as u128 {
        None
    } else {
        Some(value as u64)
    }
}

/// Reads the digits and decimal point `field[start..]` as a number of
/// millionths, at most `limit`.
fn parse_body(field: &[u8], start: usize, limit: u64) -> (r: Option<u64>)
    requires
        start <= field@.len(),
    ensures
        ({
            let body = field@.subrange(start as int, field@.len() as int);
            r == match decimal_value(whole_part(body), fraction_part(body), limit as int) {
                Some(v) => Some(v as u64),
                None => None,
            }
        }),
{
    let n: usize = field.len();
    let point: usize = find_point(field, start);
    let from: usize = if point < n {
        point + 1
    } else {
        n
    };
    proof {
        let body = field@.subrange(start as int, n as int);
        assert(whole_part(body) =~= field@.subrange(start as int, point as int));
        assert(fraction_part(body) =~= field@.subrange(from as int, n as int));
    }
    read_parts(field, start, point, from, limit)
}

/// Reads a number of millionths in decimal notation, at most `limit`.
fn parse_decimal(field: &[u8], limit: u64) -> (r: Option<u64>)
    ensures
        r == match decimal_of(field@, limit as int) {
            Some(v) => Some(v as u64),
            None => None,
        },
{
    let start: usize = skip_sign(field);
    parse_body(field, start, limit)
}

/// Up to six digits, padded out to six places, write less than a million.
proof fn lemma_digits_below(s: Seq<u8>)
    requires
        s.len() <= 6,
        all_digits(s),
    ensures
        digits_value(s) * pow10((6 - s.len()) as nat) <= 999_999,
        digits_value(s) < pow10(s.len()),
    decreases s.len(),
{
    lemma_pow10_pair(s.len());
    if s.len() > 0 {
        assert forall|i: int| 0 <= i < s.drop_last().len() implies is_digit(
            #[trigger] s.drop_last()[i],
        ) by {
            assert(s.drop_last()[i] == s[i]);
        }
        lemma_digits_below(s.drop_last());
        assert(is_digit(s[s.len() - 1]));
        let v = digits_value(s.drop_last());
        let d = (s.last() - 48) as nat;
        assert(digits_value(s) == v * 10 + d);
        lemma_pow10_step((s.len() - 1) as nat);
        assert(v * 10 + d < pow10(s.len()));
    }
    let p = pow10((6 - s.len()) as nat);
    lemma_pow10_step((6 - s.len()) as nat);
    assert(digits_value(s) * p <= 999_999) by (nonlinear_arith)
        requires
            0 <= digits_value(s) < pow10(s.len()),
            pow10(s.len()) * p == 1_000_000,
            p >= 1,
    ;
}

/// A power of ten up to the sixth, times the power that it lacks to the
/// sixth, is a million.
proof fn lemma_pow10_pair(k: nat)
    requires
        k <= 6,
    ensures
        pow10(k) * pow10((6 - k) as nat) == 1_000_000,
{
    lemma_pow10_step(0);
    lemma_pow10_step(1);
    lemma_pow10_step(2);
    lemma_pow10_step(3);
    lemma_pow10_step(4);
    lemma_pow10_step(5);
    assert(pow10(0) == 1);
    assert(pow10(1) == 10);
    assert(pow10(2) == 100);
    assert(pow10(3) == 1_000);
    assert(pow10(4) == 10_000);
    assert(pow10(5) == 100_000);
    assert(pow10(6) == 1_000_000);
    let a = pow10(k);
    let b = pow10((6 - k) as nat);
    assert(a * b == 1_000_000) by (nonlinear_arith)
        requires
            (a == 1 && b == 1_000_000) || (a == 10 && b == 100_000) || (a == 100 && b == 10_000)
                || (a == 1_000 && b == 1_000) || (a == 10_000 && b == 100) || (a == 100_000 && b
                == 10) || (a == 1_000_000 && b == 1),
    ;
}

/// Each power of ten is ten times the one before.
proof fn lemma_pow10_step(n: nat)
    ensures
        pow10(n + 1) == 10 * pow10(n),
        pow10(n) >= 1,
    decreases n,
{
    if n > 0 {
        lemma_pow10_step((n - 1) as nat);
    }
}

/// A higher power of ten is no smaller.
proof fn lemma_pow10_ordered(m: nat, n: nat)
    requires
        m <= n,
    ensures
        pow10(m) <= pow10(n),
    decreases n,
{
    if m < n {
        lemma_pow10_ordered(m, (n - 1) as nat);
        lemma_pow10_step((n - 1) as nat);
    }
}

/// Reads an amount.
pub fn parse_amount(field: &[u8]) -> (r: Option<u64>)
    ensures
        r == amount_of(field@),
{
    parse_decimal(field, u64::MAX)
}

/// Reads a rate.
pub fn parse_rate(field: &[u8]) -> (r: Option<i32>)
    ensures
        r == rate_of(field@),
{
    if field.len() > 0 && field[0] == 45 {
        match parse_body(field, 1, 2_147_483_648) {
            Some(v) => Some((-(v as i64)) as i32),
            None => None,
        }
    } else {
        match parse_decimal(field, i32::MAX as u64) {
            Some(v) => Some(v as i32),
            None => None,
        }
    }
}

/// Field `i` of a line as a whole number.
pub open spec fn whole_field(fields: Seq<Seq<u8>>, i: int) -> Result<usize, ParseError> {
    if i >= fields.len() {
        Err(ParseError::MissingField)
    } else {
        match whole_of(fields[i]) {
            Some(v) => Ok(v),
            None => Err(ParseError::InvalidNumber),
        }
    }
}

/// Field `i` of a line as an amount.
pub open spec fn amount_field(fields: Seq<Seq<u8>>, i: int) -> Result<u64, ParseError> {
    if i >= fields.len() {
        Err(ParseError::MissingField)
    } else {
        match amount_of(fields[i]) {
            Some(v) => Ok(v),
            None => Err(ParseError::InvalidNumber),
        }
    }
}

/// Field `i` of a line as a rate.
pub open spec fn rate_field(fields: Seq<Seq<u8>>, i: int) -> Result<i32, ParseError> {
    if i >= fields.len() {
        Err(ParseError::MissingField)
    } else {
        match rate_of(fields[i]) {
            Some(v) => Ok(v),
            None => Err(ParseError::InvalidNumber),
        }
    }
}

/// Field `i` of a line is there and is the keyword `word`.
pub open spec fn keyword_at(fields: Seq<Seq<u8>>, i: int, word: &str) -> bool {
    i < fields.len() && fields[i] == word.spec_bytes()
}

/// Reads field `i` as a whole number.
pub fn get_whole(fields: &Vec<&[u8]>, i: usize) -> (r: Result<usize, ParseError>)
    ensures
        r == whole_field(views(fields@), i as int),
{
    if i >= fields.len() {
        return Err(ParseError::MissingField);
    }
    match parse_whole(fields[i]) {
        Some(v) => Ok(v),
        None => Err(ParseError::InvalidNumber),
    }
}

/// Reads field `i` as an amount.
pub fn get_amount(fields: &Vec<&[u8]>, i: usize) -> (r: Result<u64, ParseError>)
    ensures
        r == amount_field(views(fields@), i as int),
{
    if i >= fields.len() {
        return Err(ParseError::MissingField);
    }
    match parse_amount(fields[i]) {
        Some(v) => Ok(v),
        None => Err(ParseError::InvalidNumber),
    }
}

/// Reads field `i` as a rate.
pub fn get_rate(fields: &Vec<&[u8]>, i: usize) -> (r: Result<i32, ParseError>)
    ensures
        r == rate_field(views(fields@), i as int),
{
    if i >= fields.len() {
        return Err(ParseError::MissingField);
    }
    match parse_rate(fields[i]) {
        Some(v) => Ok(v),
        None => Err(ParseError::InvalidNumber),
    }
}

/// Whether field `i` is there and is the keyword `word`.
pub fn has_keyword(fields: &Vec<&[u8]>, i: usize, word: &str) -> (r: bool)
    ensures
        r == keyword_at(views(fields@), i as int, word),
{
    i < fields.len() && is_keyword(fields[i], word)
}

/// The position of the first line feed at or after `i`, or the length of `s`
/// if there is none.
pub open spec fn line_end(s: Seq<u8>, i: int) -> int
    decreases s.len() - i,
{
    if 0 <= i < s.len() && s[i] != 10 {
        line_end(s, i + 1)
    } else {
        i
    }
}

/// Where a line ends: at or after its start, within `s`.
pub proof fn lemma_line_end(s: Seq<u8>, i: int)
    requires
        0 <= i <= s.len(),
    ensures
        i <= line_end(s, i) <= s.len(),
    decreases s.len() - i,
{
    if i < s.len() && s[i] != 10 {
        lemma_line_end(s, i + 1);
    }
}

/// The lines of `s` from position `i` on: the runs of bytes that line feeds
/// end. The last line need not end in a line feed; nothing follows a final
/// line feed.
pub open spec fn lines_from(s: Seq<u8>, i: int) -> Seq<Seq<u8>>
    decreases s.len() + 1 - i,
{
    if 0 <= i < s.len() {
        let e = line_end(s, i);
        proof {
            lemma_line_end(s, i);
        }
        seq![s.subrange(i, e)] + lines_from(s, e + 1)
    } else {
        Seq::empty()
    }
}

/// The lines of a file.
pub open spec fn lines(s: Seq<u8>) -> Seq<Seq<u8>> {
    lines_from(s, 0)
}

/// The position at which the line that starts at `i` ends.
pub fn find_line_end(text: &[u8], i: usize) -> (e: usize)
    requires
        i <= text@.len(),
    ensures
        e == line_end(text@, i as int),
        i <= e <= text@.len(),
{
    let mut e: usize = i;
    while e < text.len() && text[e] != 10
        invariant
            i <= e <= text@.len(),
            line_end(text@, e as int) == line_end(text@, i as int),
        decreases text@.len() - e,
    {
        e += 1;
    }
    e
}

/// Reading the line that starts at `i` extends the lines read so far by that
/// line and leaves the lines from just after its end.
pub proof fn lemma_next_line(s: Seq<u8>, done: Seq<Seq<u8>>, i: int)
    requires
        0 <= i < s.len(),
        done + lines_from(s, i) == lines(s),
    ensures
        done.push(s.subrange(i, line_end(s, i))) + lines_from(s, line_end(s, i) + 1) == lines(s),
        lines(s).len() > done.len(),
        lines(s)[done.len() as int] == s.subrange(i, line_end(s, i)),
{
    let line = s.subrange(i, line_end(s, i));
    let rest = lines_from(s, line_end(s, i) + 1);
    assert(done.push(line) + rest =~= done + (seq![line] + rest));
}

/// Once the end of the file is reached, every line has been read.
pub proof fn lemma_last_line(s: Seq<u8>, done: Seq<Seq<u8>>, i: int)
    requires
        i >= s.len(),
        done + lines_from(s, i) == lines(s),
    ensures
        done == lines(s),
{
    assert(done + Seq::<Seq<u8>>::empty() =~= done);
}

/// A kind of line that can be read from text.
pub trait FromLine: Sized {
    /// What a line reads as, or why it is rejected.
    spec fn of_line(line: Seq<u8>) -> Result<Self, ParseError>;

    /// Reads a line.
    fn from_line(line: &[u8]) -> (r: Result<Self, ParseError>)
        ensures
            r == Self::of_line(line@),
    ;
}

/// What a sequence of lines reads as: every line in order, or the first line
/// that is rejected, with its position and the reason.
pub open spec fn parsed_lines<T: FromLine>(lines: Seq<Seq<u8>>) -> Result<Seq<T>, LineError>
    decreases lines.len(),
{
    if lines.len() == 0 {
        Ok(Seq::empty())
    } else {
        match parsed_lines::<T>(lines.drop_last()) {
            Err(e) => Err(e),
            Ok(items) => match T::of_line(lines.last()) {
                Ok(item) => Ok(items.push(item)),
                Err(error) => Err(LineError { line: (lines.len() - 1) as usize, error }),
            },
        }
    }
}

/// Reads every line of a file, stopping at the first that is rejected.
pub fn parse_lines<T: FromLine>(text: &[u8]) -> (r: Result<Vec<T>, LineError>)
    ensures
        match r {
            Ok(items) => parsed_lines::<T>(lines(text@)) == Ok::<Seq<T>, LineError>(items@),
            Err(e) => parsed_lines::<T>(lines(text@)) == Err::<Seq<T>, LineError>(e),
        },
{
    let n: usize = text.len();
    let mut items: Vec<T> = Vec::new();
    let mut i: usize = 0;
    let ghost mut done: Seq<Seq<u8>> = Seq::empty();
    proof {
        assert(done + lines_from(text@, 0) =~= lines(text@));
    }
    while i < n
        invariant
            n == text@.len(),
            i <= n,
            done + lines_from(text@, i as int) == lines(text@),
            done.len() == items@.len(),
            parsed_lines::<T>(done) == Ok::<Seq<T>, LineError>(items@),
        decreases n - i,
    {
        let e: usize = find_line_end(text, i);
        let line: &[u8] = slice_subrange(text, i, e);
        proof {
            lemma_next_line(text@, done, i as int);
            assert(done.push(line@).drop_last() =~= done);
        }
        match T::from_line(line) {
            Ok(item) => {
                items.push(item);
            },
            Err(error) => {
                proof {
                    assert(lines(text@).take(done.len() as int + 1) =~= done.push(line@));
                    lemma_parsed_prefix::<T>(lines(text@), done.len() as int + 1);
                }
                return Err(LineError { line: items.len(), error });
            },
        }
        proof {
            done = done.push(line@);
        }
        i = if e < n {
            e + 1
        } else {
            n
        };
    }
    proof {
        lemma_last_line(text@, done, i as int);
    }
    Ok(items)
}

/// A rejection among the first `k` lines is the rejection of the whole.
pub proof fn lemma_parsed_prefix<T: FromLine>(lines: Seq<Seq<u8>>, k: int)
    requires
        0 <= k <= lines.len(),
        parsed_lines::<T>(lines.take(k)) is Err,
    ensures
        parsed_lines::<T>(lines) == parsed_lines::<T>(lines.take(k)),
    decreases lines.len(),
{
    if k == lines.len() {
        assert(lines.take(k) =~= lines);
    } else {
        assert(lines.drop_last().take(k) =~= lines.take(k));
        lemma_parsed_prefix::<T>(lines.drop_last(), k);
    }
}

/// Something that is built up from the lines of a file, one line at a time.
pub trait Collector: Sized {
    /// What has been built up.
    type State;

    /// What has been built up so far.
    spec fn state(&self) -> Self::State;

    /// The collector is in a state that it can go on from.
    spec fn wf(&self) -> bool;

    /// What one more line makes of what has been built up, or why the line is
    /// rejected.
    spec fn absorbed(state: Self::State, line: Seq<u8>) -> Result<Self::State, ParseError>;

    /// Takes in one more line.
    fn absorb(&mut self, line: &[u8]) -> (r: Result<(), ParseError>)
        requires
            old(self).wf(),
        ensures
            final(self).wf(),
            match Self::absorbed(old(self).state(), line@) {
                Ok(state) => r is Ok && final(self).state() == state,
                Err(e) => r == Err::<(), ParseError>(e),
            },
    ;
}

/// What a sequence of lines makes of `start`: every line taken in, in order,
/// or the first line that is rejected, with its position and the reason.
pub open spec fn collected<C: Collector>(start: C::State, lines: Seq<Seq<u8>>) -> Result<
    C::State,
    LineError,
>
    decreases lines.len(),
{
    if lines.len() == 0 {
        Ok(start)
    } else {
        match collected::<C>(start, lines.drop_last()) {
            Err(e) => Err(e),
            Ok(state) => match C::absorbed(state, lines.last()) {
                Ok(next) => Ok(next),
                Err(error) => Err(LineError { line: (lines.len() - 1) as usize, error }),
            },
        }
    }
}

/// A rejection among the first `k` lines is the rejection of the whole.
pub proof fn lemma_collected_prefix<C: Collector>(start: C::State, lines: Seq<Seq<u8>>, k: int)
    requires
        0 <= k <= lines.len(),
        collected::<C>(start, lines.take(k)) is Err,
    ensures
        collected::<C>(start, lines) == collected::<C>(start, lines.take(k)),
    decreases lines.len(),
{
    if k == lines.len() {
        assert(lines.take(k) =~= lines);
    } else {
        assert(lines.drop_last().take(k) =~= lines.take(k));
        lemma_collected_prefix::<C>(start, lines.drop_last(), k);
    }
}

/// Feeds every line of a file to a collector, stopping at the first line that
/// is rejected.
pub fn collect_lines<C: Collector>(collector: &mut C, text: &[u8]) -> (r: Result<(), LineError>)
    requires
        old(collector).wf(),
    ensures
        final(collector).wf(),
        match collected::<C>(old(collector).state(), lines(text@)) {
            Ok(state) => r is Ok && final(collector).state() == state,
            Err(e) => r == Err::<(), LineError>(e),
        },
{
    let n: usize = text.len();
    let ghost start = collector.state();
    let mut i: usize = 0;
    let mut count: usize = 0;
    let ghost mut done: Seq<Seq<u8>> = Seq::empty();
    proof {
        assert(done + lines_from(text@, 0) =~= lines(text@));
    }
    while i < n
        invariant
            n == text@.len(),
            i <= n,
            collector.wf(),
            start == old(collector).state(),
            done + lines_from(text@, i as int) == lines(text@),
            done.len() == count,
            count <= i,
            collected::<C>(start, done) == Ok::<C::State, LineError>(collector.state()),
        decreases n - i,
    {
        let e: usize = find_line_end(text, i);
        let line: &[u8] = slice_subrange(text, i, e);
        proof {
            lemma_next_line(text@, done, i as int);
            assert(done.push(line@).drop_last() =~= done);
        }
        let ghost before = collector.state();
        match collector.absorb(line) {
            Ok(_) => {},
            Err(error) => {
                proof {
                    let read = done.push(line@);
                    assert(read.last() == line@);
                    assert(C::absorbed(before, line@) == Err::<C::State, ParseError>(error));
                    assert(collected::<C>(start, read) == Err::<C::State, LineError>(
                        LineError { line: count, error },
                    ));
                    assert(lines(text@).take(done.len() as int + 1) =~= read);
                    lemma_collected_prefix::<C>(start, lines(text@), done.len() as int + 1);
                }
                return Err(LineError { line: count, error });
            },
        }
        proof {
            done = done.push(line@);
        }
        count += 1;
        i = if e < n {
            e + 1
        } else {
            n
        };
    }
    proof {
        lemma_last_line(text@, done, i as int);
    }
    Ok(())
}

} // verus!
