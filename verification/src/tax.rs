//! The income-tax engine: progressive tax over five brackets, the yearly
//! reconciliation, the tax on released retirement savings, and the weekly
//! withholding.

use crate::fixed::{cap_i64, cap_u64, div_floor, fpow, lemma_weekly_factor_range, narrow, sat_add,
    weekly_factor, weekly_growth_factor, MAX_FACTOR, ONE, WHOLE};
use vstd::arithmetic::div_mod::{
    lemma_div_is_ordered, lemma_div_nonincreasing, lemma_fundamental_div_mod_converse,
};
use crate::parse::{
    amount_field, collect_lines, collected, fields, get_amount, lines, split_fields, Collector,
    LineError, ParseError,
};
use vstd::prelude::*;
use vstd::string::StringSliceAdditionalSpecFns;

verus! {

/// The marginal rates of the five brackets, lowest bracket first.
pub open spec fn standard_rates() -> Seq<u32> {
    seq![0u32, 16_000_000u32, 30_000_000u32, 37_000_000u32, 45_000_000u32]
}

/// The marginal rates of the five brackets, lowest bracket first.
pub fn tax_rates() -> (rates: [u32; 5])
    ensures
        rates@ == standard_rates(),
{
    let rates: [u32; 5] = [0, 16_000_000, 30_000_000, 37_000_000, 45_000_000];
    assert(rates@ =~= standard_rates());
    rates
}

/// The part of `income` that falls in the bracket from `lower` to `upper`.
pub open spec fn bracket_amount(income: int, lower: int, upper: int) -> int {
    if income < lower {
        0
    } else if income < upper {
        income - lower
    } else {
        upper - lower
    }
}

/// The lower bound of bracket `k` of the five that four thresholds bound.
pub open spec fn bracket_lower(thresholds: Seq<u64>, k: int) -> int {
    if k <= 0 {
        0
    } else {
        thresholds[k - 1] as int
    }
}

/// The upper bound of bracket `k`; the top bracket is open-ended.
pub open spec fn bracket_upper(thresholds: Seq<u64>, k: int) -> int {
    if k >= 4 {
        u64::MAX as int
    } else {
        thresholds[k] as int
    }
}

/// The tax of bracket `k` on `income`, in hundred-millionths of an amount
/// unit: the part of the income in the bracket times the bracket's rate.
pub open spec fn bracket_tax(income: int, rates: Seq<u32>, thresholds: Seq<u64>, k: int) -> int {
    bracket_amount(income, bracket_lower(thresholds, k), bracket_upper(thresholds, k)) * rates[k]
}

/// The tax on `income` before the division that turns rate units into
/// amounts: the sum of the five brackets' taxes.
pub open spec fn tax_numerator(income: int, rates: Seq<u32>, thresholds: Seq<u64>) -> int {
    bracket_tax(income, rates, thresholds, 0) + bracket_tax(income, rates, thresholds, 1)
        + bracket_tax(income, rates, thresholds, 2) + bracket_tax(income, rates, thresholds, 3)
        + bracket_tax(income, rates, thresholds, 4)
}

/// The progressive tax on `income`: each bracket's part of the income taxed at
/// the bracket's rate, the sum rounded down to a whole amount.
pub open spec fn progressive_tax(income: int, rates: Seq<u32>, thresholds: Seq<u64>) -> int {
    cap_i64(tax_numerator(income, rates, thresholds) / (WHOLE as int))
}

/// The thresholds do not decrease.
pub open spec fn ascending(thresholds: Seq<u64>) -> bool {
    thresholds[0] <= thresholds[1] <= thresholds[2] <= thresholds[3]
}

/// One bracket of the table, with the part of an income that falls in it.
#[derive(Clone, Copy, Debug, PartialEq, Eq, Structural)]
pub struct TaxBracket {
    pub amount: i64,
    pub lower_bound: u64,
    pub upper_bound: u64,
    pub tax_rate: u32,
}

impl TaxBracket {
    /// The bracket from `lower_bound` to `upper_bound`, holding the part of
    /// `taxable_income` that falls in it.
    pub fn new(taxable_income: i64, lower_bound: u64, upper_bound: u64, tax_rate: u32) -> (bracket:
        TaxBracket)
        ensures
            bracket.amount == bracket_amount(
                taxable_income as int,
                lower_bound as int,
                upper_bound as int,
            ),
            bracket.lower_bound == lower_bound,
            bracket.upper_bound == upper_bound,
            bracket.tax_rate == tax_rate,
    {
        let income: i128 = taxable_income as i128;
        if income < lower_bound as i128 {
            TaxBracket { amount: 0, lower_bound, upper_bound, tax_rate }
        } else if income < upper_bound as i128 {
            TaxBracket {
                amount: (income - lower_bound as i128) as i64,
                lower_bound,
                upper_bound,
                tax_rate,
            }
        } else {
            TaxBracket {
                amount: (upper_bound as i128 - lower_bound as i128) as i64,
                lower_bound,
                upper_bound,
                tax_rate,
            }
        }
    }

    /// The bracket's tax in hundred-millionths of an amount unit.
    pub open spec fn tax(self) -> int {
        self.amount * self.tax_rate
    }
}

/// The five brackets of the table, each with its part of one income.
#[derive(Clone, Copy, Debug, PartialEq, Eq, Structural)]
pub struct TaxBrackets {
    pub bracket_1: TaxBracket,
    pub bracket_2: TaxBracket,
    pub bracket_3: TaxBracket,
    pub bracket_4: TaxBracket,
    pub bracket_5: TaxBracket,
}

impl TaxBrackets {
    /// The five brackets that `tax_brackets` bound, with `tax_rates` as their
    /// marginal rates, each holding its part of `taxable_income`.
    pub fn new(taxable_income: i64, tax_rates: [u32; 5], tax_brackets: [u64; 4]) -> (table:
        TaxBrackets)
        ensures
            forall|k: int|
                0 <= k < 5 ==> (#[trigger] table.bracket(k)) == (TaxBracket {
                    amount: bracket_amount(
                        taxable_income as int,
                        bracket_lower(tax_brackets@, k),
                        bracket_upper(tax_brackets@, k),
                    ) as i64,
                    lower_bound: bracket_lower(tax_brackets@, k) as u64,
                    upper_bound: bracket_upper(tax_brackets@, k) as u64,
                    tax_rate: tax_rates@[k],
                }),
            forall|k: int|
                0 <= k < 5 ==> (#[trigger] table.bracket(k)).tax() == bracket_tax(
                    taxable_income as int,
                    tax_rates@,
                    tax_brackets@,
                    k,
                ),
            table.total() == tax_numerator(taxable_income as int, tax_rates@, tax_brackets@),
    {
        TaxBrackets {
            bracket_1: TaxBracket::new(taxable_income, 0, tax_brackets[0], tax_rates[0]),
            bracket_2: TaxBracket::new(
                taxable_income,
                tax_brackets[0],
                tax_brackets[1],
                tax_rates[1],
            ),
            bracket_3: TaxBracket::new(
                taxable_income,
                tax_brackets[1],
                tax_brackets[2],
                tax_rates[2],
            ),
            bracket_4: TaxBracket::new(
                taxable_income,
                tax_brackets[2],
                tax_brackets[3],
                tax_rates[3],
            ),
            bracket_5: TaxBracket::new(taxable_income, tax_brackets[3], u64::MAX, tax_rates[4]),
        }
    }

    /// Bracket `k` of the five, counted from zero.
    pub open spec fn bracket(self, k: int) -> TaxBracket {
        if k <= 0 {
            self.bracket_1
        } else if k == 1 {
            self.bracket_2
        } else if k == 2 {
            self.bracket_3
        } else if k == 3 {
            self.bracket_4
        } else {
            self.bracket_5
        }
    }

    /// The sum of the five brackets' taxes, in hundred-millionths of an amount
    /// unit.
    pub open spec fn total(self) -> int {
        self.bracket_1.tax() + self.bracket_2.tax() + self.bracket_3.tax() + self.bracket_4.tax()
            + self.bracket_5.tax()
    }

    /// The progressive tax on `taxable_income` under the marginal rates
    /// `tax_rates` and the thresholds `tax_brackets`.
    pub fn compute_tax(taxable_income: i64, tax_rates: [u32; 5], tax_brackets: [u64; 4]) -> (tax:
        i64)
        ensures
            tax == progressive_tax(taxable_income as int, tax_rates@, tax_brackets@),
    {
        let table = TaxBrackets::new(taxable_income, tax_rates, tax_brackets);
        proof {
            lemma_bracket_product(table.bracket_1);
            lemma_bracket_product(table.bracket_2);
            lemma_bracket_product(table.bracket_3);
            lemma_bracket_product(table.bracket_4);
            lemma_bracket_product(table.bracket_5);
        }
        let mut sum: i128 = 0;
        sum = sum + (table.bracket_1.amount as i128) * (table.bracket_1.tax_rate as i128);
        sum = sum + (table.bracket_2.amount as i128) * (table.bracket_2.tax_rate as i128);
        sum = sum + (table.bracket_3.amount as i128) * (table.bracket_3.tax_rate as i128);
        sum = sum + (table.bracket_4.amount as i128) * (table.bracket_4.tax_rate as i128);
        sum = sum + (table.bracket_5.amount as i128) * (table.bracket_5.tax_rate as i128);
        narrow(div_floor(sum, WHOLE))
    }
}

/// A bracket's tax is well within the range of the wide intermediate type.
proof fn lemma_bracket_product(bracket: TaxBracket)
    ensures
        -0x1_0000_0000_0000_0000_0000_0000 <= bracket.tax() <= 0x1_0000_0000_0000_0000_0000_0000,
{
    assert(-0x1_0000_0000_0000_0000_0000_0000 <= bracket.amount * bracket.tax_rate
        <= 0x1_0000_0000_0000_0000_0000_0000) by (nonlinear_arith)
        requires
            -0x8000_0000_0000_0000 <= bracket.amount <= 0x8000_0000_0000_0000,
            0 <= bracket.tax_rate <= 0x1_0000_0000,
    ;
}

/// The part of an income that falls in a bracket whose bounds are in order
/// does not shrink as the income grows, and is never negative.
pub proof fn lemma_bracket_amount_monotone(x: int, y: int, lower: int, upper: int)
    requires
        x <= y,
        lower <= upper,
    ensures
        0 <= bracket_amount(x, lower, upper) <= bracket_amount(y, lower, upper),
{
}

/// One bracket's tax does not shrink as the income grows.
proof fn lemma_bracket_tax_monotone(x: int, y: int, rates: Seq<u32>, thresholds: Seq<u64>, k: int)
    requires
        x <= y,
        thresholds.len() == 4,
        rates.len() == 5,
        ascending(thresholds),
        0 <= k < 5,
    ensures
        0 <= bracket_tax(x, rates, thresholds, k) <= bracket_tax(y, rates, thresholds, k),
{
    let lower = bracket_lower(thresholds, k);
    let upper = bracket_upper(thresholds, k);
    lemma_bracket_amount_monotone(x, y, lower, upper);
    let a = bracket_amount(x, lower, upper);
    let b = bracket_amount(y, lower, upper);
    let r = rates[k] as int;
    assert(0 <= a * r <= b * r) by (nonlinear_arith)
        requires
            0 <= a <= b,
            0 <= r,
    ;
}

/// Progressive tax never falls as income rises, and is never negative, where
/// the thresholds are in ascending order.
pub proof fn lemma_tax_monotone(x: int, y: int, rates: Seq<u32>, thresholds: Seq<u64>)
    requires
        x <= y,
        rates.len() == 5,
        thresholds.len() == 4,
        ascending(thresholds),
    ensures
        0 <= tax_numerator(x, rates, thresholds) <= tax_numerator(y, rates, thresholds),
        0 <= progressive_tax(x, rates, thresholds) <= progressive_tax(y, rates, thresholds),
{
    lemma_bracket_tax_monotone(x, y, rates, thresholds, 0);
    lemma_bracket_tax_monotone(x, y, rates, thresholds, 1);
    lemma_bracket_tax_monotone(x, y, rates, thresholds, 2);
    lemma_bracket_tax_monotone(x, y, rates, thresholds, 3);
    lemma_bracket_tax_monotone(x, y, rates, thresholds, 4);
    lemma_div_is_ordered(0, tax_numerator(x, rates, thresholds), WHOLE as int);
    lemma_div_is_ordered(
        tax_numerator(x, rates, thresholds),
        tax_numerator(y, rates, thresholds),
        WHOLE as int,
    );
}

/// Progressive tax is linear between thresholds: for two incomes in the same
/// bracket, the tax before rounding differs by the bracket's rate times the
/// difference of the incomes.
pub proof fn lemma_tax_piecewise_linear(
    x: int,
    y: int,
    rates: Seq<u32>,
    thresholds: Seq<u64>,
    k: int,
)
    requires
        rates.len() == 5,
        thresholds.len() == 4,
        ascending(thresholds),
        0 <= k < 5,
        bracket_lower(thresholds, k) <= x <= y <= bracket_upper(thresholds, k),
    ensures
        tax_numerator(y, rates, thresholds) - tax_numerator(x, rates, thresholds) == rates[k] * (y
            - x),
{
    assert forall|j: int| 0 <= j < 5 && j != k implies bracket_tax(y, rates, thresholds, j)
        == bracket_tax(x, rates, thresholds, j) by {
        let lower = bracket_lower(thresholds, j);
        let upper = bracket_upper(thresholds, j);
        assert(bracket_amount(x, lower, upper) == bracket_amount(y, lower, upper));
    }
    let lower = bracket_lower(thresholds, k);
    let upper = bracket_upper(thresholds, k);
    let a = bracket_amount(x, lower, upper);
    let b = bracket_amount(y, lower, upper);
    assert(b - a == y - x);
    let r = rates[k] as int;
    assert(b * r - a * r == r * (y - x)) by (nonlinear_arith)
        requires
            b - a == y - x,
    ;
}

/// No income, no tax.
pub proof fn lemma_tax_of_nothing(rates: Seq<u32>, thresholds: Seq<u64>)
    requires
        rates.len() == 5,
        thresholds.len() == 4,
    ensures
        tax_numerator(0, rates, thresholds) == 0,
        progressive_tax(0, rates, thresholds) == 0,
{
    assert forall|k: int| 0 <= k < 5 implies bracket_tax(0, rates, thresholds, k) == 0 by {
        assert(bracket_amount(0, bracket_lower(thresholds, k), bracket_upper(thresholds, k)) == 0);
    }
}

/// The sum of `series[lo..hi]`.
pub open spec fn ledger_sum(series: Seq<i64>, lo: int, hi: int) -> int
    decreases hi - lo,
{
    if hi <= lo {
        0
    } else {
        ledger_sum(series, lo, hi - 1) + series[hi - 1]
    }
}

/// The sum of `series[lo..hi]`.
pub open spec fn amount_sum(series: Seq<u64>, lo: int, hi: int) -> int
    decreases hi - lo,
{
    if hi <= lo {
        0
    } else {
        amount_sum(series, lo, hi - 1) + series[hi - 1]
    }
}

/// The income of a period: the sum of its ledger entries, as a ledger entry.
pub open spec fn period_income(series: Seq<i64>) -> int {
    cap_i64(ledger_sum(series, 0, series.len() as int))
}

/// The amount of a period: the sum of its amounts, as an amount.
pub open spec fn period_amount(series: Seq<u64>) -> int {
    cap_u64(amount_sum(series, 0, series.len() as int))
}

/// A sum of ledger entries lies within the range of its entries taken
/// together.
proof fn lemma_ledger_sum_bounds(series: Seq<i64>, lo: int, hi: int)
    requires
        lo <= hi,
    ensures
        (hi - lo) * i64::MIN <= ledger_sum(series, lo, hi) <= (hi - lo) * i64::MAX,
    decreases hi - lo,
{
    if hi > lo {
        lemma_ledger_sum_bounds(series, lo, hi - 1);
        assert((hi - lo) * i64::MIN == (hi - 1 - lo) * i64::MIN + i64::MIN) by (nonlinear_arith);
        assert((hi - lo) * i64::MAX == (hi - 1 - lo) * i64::MAX + i64::MAX) by (nonlinear_arith);
    }
}

/// No sum of amounts is negative.
proof fn lemma_amount_sum_nonnegative(series: Seq<u64>, lo: int, hi: int)
    ensures
        amount_sum(series, lo, hi) >= 0,
    decreases hi - lo,
{
    if hi > lo {
        lemma_amount_sum_nonnegative(series, lo, hi - 1);
    }
}

/// The sum of the ledger entries `series[lo..hi]`, as a ledger entry.
pub fn sum_entries(series: &[i64], lo: usize, hi: usize) -> (sum: i64)
    requires
        lo <= hi <= series@.len(),
    ensures
        sum == cap_i64(ledger_sum(series@, lo as int, hi as int)),
{
    let mut sum: i128 = 0;
    let mut i: usize = lo;
    while i < hi
        invariant
            lo <= i <= hi <= series@.len(),
            sum == ledger_sum(series@, lo as int, i as int),
        decreases hi - i,
    {
        proof {
            lemma_ledger_sum_bounds(series@, lo as int, i as int);
            assert((i - lo) * i64::MIN >= usize::MAX * i64::MIN && (i - lo) * i64::MAX
                <= usize::MAX * i64::MAX) by (nonlinear_arith)
                requires
                    0 <= i - lo <= usize::MAX,
            ;
        }
        sum = sum + series[i] as i128;
        i += 1;
    }
    narrow(sum)
}

/// The sum of the amounts in `series`, as an amount.
pub fn sum_amounts(series: &[u64]) -> (sum: u64)
    ensures
        sum == period_amount(series@),
{
    let mut sum: u64 = 0;
    let mut i: usize = 0;
    while i < series.len()
        invariant
            i <= series@.len(),
            sum == cap_u64(amount_sum(series@, 0, i as int)),
        decreases series@.len() - i,
    {
        proof {
            lemma_amount_sum_nonnegative(series@, 0, i as int);
        }
        sum = sat_add(sum, series[i]);
        i += 1;
    }
    sum
}

/// The tax still owed, or to be refunded where negative, at the end of a year:
/// the tax on the year's final taxable income less the tax on the year's
/// original income, which was withheld during the year.
pub open spec fn reconciliation(
    taxable_income: Seq<i64>,
    original_income: Seq<i64>,
    thresholds: Seq<u64>,
) -> int {
    cap_i64(
        progressive_tax(period_income(taxable_income), standard_rates(), thresholds)
            - progressive_tax(period_income(original_income), standard_rates(), thresholds),
    )
}

/// The tax owed, or refunded where negative, when a year's weekly taxable
/// income `taxable_income` is set against the weekly income
/// `original_income` on which tax was withheld.
pub fn reconcile_tax(taxable_income: &[i64], original_income: &[i64], tax_brackets: [u64; 4]) -> (
    owed: i64)
    ensures
        owed == reconciliation(taxable_income@, original_income@, tax_brackets@),
{
    let year_taxable_income: i64 = sum_entries(taxable_income, 0, taxable_income.len());
    let tax: i64 = TaxBrackets::compute_tax(year_taxable_income, tax_rates(), tax_brackets);
    let year_original_income: i64 = sum_entries(original_income, 0, original_income.len());
    let tax_withheld: i64 = TaxBrackets::compute_tax(
        year_original_income,
        tax_rates(),
        tax_brackets,
    );
    narrow(tax as i128 - tax_withheld as i128)
}

/// Nothing is owed and nothing refunded where the year's final taxable income
/// equals its original income.
pub proof fn lemma_reconciliation_of_equal_incomes(
    taxable_income: Seq<i64>,
    original_income: Seq<i64>,
    thresholds: Seq<u64>,
)
    requires
        period_income(taxable_income) == period_income(original_income),
    ensures
        reconciliation(taxable_income, original_income, thresholds) == 0,
{
}

/// The reduction, in rate units, of each marginal rate in the tax on released
/// retirement savings: thirty percentage points.
pub const RELEASE_OFFSET: u32 = 30_000_000;

/// The marginal rates for released retirement savings: each standard rate
/// less thirty percentage points, and nothing where that would be negative.
pub open spec fn release_rates() -> Seq<u32> {
    Seq::new(
        5,
        |k: int|
            if standard_rates()[k] > RELEASE_OFFSET {
                (standard_rates()[k] - RELEASE_OFFSET) as u32
            } else {
                0u32
            },
    )
}

/// The tax on the untaxed part of a release: fifteen percent, rounded down; it
/// is negative where the untaxed part is a loss.
pub open spec fn release_levy(untaxed: int) -> int {
    untaxed * 15 / 100
}

/// The tax on retirement savings released in a year: the levy on the untaxed
/// part, and the tax at the release rates that the release, net of the levy,
/// adds on top of the year's taxable income.
pub open spec fn release_tax(
    taxable_income: Seq<i64>,
    taxed: Seq<u64>,
    untaxed: Seq<i64>,
    thresholds: Seq<u64>,
) -> int {
    let income = period_income(taxable_income);
    let levy = release_levy(period_income(untaxed));
    let released = period_amount(taxed) + period_income(untaxed) - levy;
    cap_i64(
        levy + progressive_tax(cap_i64(income + released), release_rates(), thresholds)
            - progressive_tax(income, release_rates(), thresholds),
    )
}

/// The tax on the retirement savings released in a year, given the year's
/// weekly taxable income and the taxed and untaxed amounts released week by
/// week.
pub fn tax_super_fhss(
    taxable_income: &[i64],
    super_taxed_amount: &[u64],
    super_untaxed_amount: &[i64],
    tax_brackets: [u64; 4],
) -> (tax: i64)
    ensures
        tax == release_tax(
            taxable_income@,
            super_taxed_amount@,
            super_untaxed_amount@,
            tax_brackets@,
        ),
{
    let year_super_taxed_amount: u64 = sum_amounts(super_taxed_amount);
    let year_super_untaxed_amount: i64 = sum_entries(
        super_untaxed_amount,
        0,
        super_untaxed_amount.len(),
    );
    let levy: i128 = div_floor((year_super_untaxed_amount as i128) * 15, 100);
    let standard: [u32; 5] = tax_rates();
    let mut adjusted_tax_rates: [u32; 5] = [0, 0, 0, 0, 0];
    let mut i: usize = 0;
    while i < 5
        invariant
            i <= 5,
            standard@ == standard_rates(),
            forall|k: int| 0 <= k < i ==> adjusted_tax_rates@[k] == release_rates()[k],
        decreases 5 - i,
    {
        if standard[i] > RELEASE_OFFSET {
            adjusted_tax_rates[i] = standard[i] - RELEASE_OFFSET;
        } else {
            adjusted_tax_rates[i] = 0;
        }
        i += 1;
    }
    assert(adjusted_tax_rates@ =~= release_rates());
    let year_taxable_income: i64 = sum_entries(taxable_income, 0, taxable_income.len());
    let tax_1: i64 = TaxBrackets::compute_tax(
        year_taxable_income,
        adjusted_tax_rates,
        tax_brackets,
    );
    let year_super_amount: i128 = year_super_taxed_amount as i128
        + year_super_untaxed_amount as i128 - levy;
    let tax_2: i64 = TaxBrackets::compute_tax(
        narrow(year_taxable_income as i128 + year_super_amount),
        adjusted_tax_rates,
        tax_brackets,
    );
    narrow(levy + tax_2 as i128 - tax_1 as i128)
}

/// The first week of the year that week `t` falls in. Years are runs of
/// fifty-two weeks, the first starting at week 0.
pub open spec fn year_start(t: int) -> int {
    t / 52 * 52
}

/// One past the last week of the year that week `t` falls in, within a
/// horizon of `weeks` weeks: the last year may be cut short.
pub open spec fn year_end(t: int, weeks: int) -> int {
    if year_start(t) + 52 < weeks {
        year_start(t) + 52
    } else {
        weeks
    }
}

/// The week whose thresholds apply to the year that week `t` falls in: the
/// first week of the following year, or the last week of the horizon.
pub open spec fn assessment_week(t: int, weeks: int) -> int {
    if year_start(t) + 52 < weeks {
        year_start(t) + 52
    } else {
        weeks - 1
    }
}

/// The tax on the whole year that week `t` falls in.
pub open spec fn year_tax(income: Seq<i64>, brackets: Seq<[u64; 4]>, t: int) -> int {
    let weeks = income.len() as int;
    progressive_tax(
        cap_i64(ledger_sum(income, year_start(t), year_end(t, weeks))),
        standard_rates(),
        brackets[assessment_week(t, weeks)]@,
    )
}

/// The sum of the weights of the first `weeks` weeks of a year, the weight of
/// week `j` of the year being the `j`th power of the weekly inflation factor.
pub open spec fn weight_sum(factor: int, weeks: int) -> int
    decreases weeks,
{
    if weeks <= 0 {
        0
    } else {
        weight_sum(factor, weeks - 1) + fpow(factor, (weeks - 1) as nat)
    }
}

/// The tax withheld in week `t`: the week's share of its year's tax, in
/// proportion to the week's weight among the weights of the year's weeks, so
/// that the withholding rises through the year with inflation.
pub open spec fn withheld(income: Seq<i64>, brackets: Seq<[u64; 4]>, rate: i32, t: int) -> int {
    let factor = weekly_factor(rate);
    let weeks = income.len() as int;
    year_tax(income, brackets, t) * fpow(factor, (t - year_start(t)) as nat) / weight_sum(
        factor,
        year_end(t, weeks) - year_start(t),
    )
}

/// The income of week `t` net of the tax withheld from it.
pub open spec fn net_income(income: Seq<i64>, brackets: Seq<[u64; 4]>, rate: i32, t: int) -> int {
    cap_i64(income[t] - withheld(income, brackets, rate, t))
}

/// The weekly income net of the tax withheld from it, for every week of the
/// horizon: each year's income is taxed as a whole, and the tax is spread over
/// the year's weeks in proportion to weights that compound weekly at the
/// inflation rate.
pub fn tax_income(
    taxable_income: &Vec<i64>,
    tax_brackets: &Vec<[u64; 4]>,
    annual_inflation_rate: i32,
) -> (taxed_income: Vec<i64>)
    requires
        taxable_income@.len() == tax_brackets@.len(),
    ensures
        taxed_income@.len() == taxable_income@.len(),
        forall|t: int|
            0 <= t < taxed_income@.len() ==> #[trigger] taxed_income@[t] == net_income(
                taxable_income@,
                tax_brackets@,
                annual_inflation_rate,
                t,
            ),
{
    let n: usize = taxable_income.len();
    let factor: u64 = weekly_growth_factor(annual_inflation_rate);
    let mut weights: Vec<u64> = Vec::new();
    let mut sums: Vec<u64> = Vec::new();
    sums.push(0);
    let mut weight: u64 = ONE;
    let mut j: usize = 0;
    while j < 52
        invariant
            j <= 52,
            factor == weekly_factor(annual_inflation_rate),
            crate::fixed::is_weekly_factor(factor as int, annual_inflation_rate),
            factor <= MAX_FACTOR,
            weights@.len() == j,
            forall|i: int| 0 <= i < j ==> 0 <= #[trigger] weights@[i] <= MAX_FACTOR,
            sums@.len() == j + 1,
            weight == fpow(factor as int, j as nat),
            forall|i: int| 0 <= i < j ==> #[trigger] weights@[i] == fpow(factor as int, i as nat),
            forall|i: int| 0 <= i <= j ==> #[trigger] sums@[i] == weight_sum(factor as int, i),
            forall|i: int| 0 <= i <= j ==> 0 <= #[trigger] sums@[i] <= i * MAX_FACTOR,
            forall|i: int| 1 <= i <= j ==> #[trigger] sums@[i] >= ONE,
        decreases 52 - j,
    {
        proof {
            lemma_weekly_factor_range(factor as int, annual_inflation_rate);
            assert(fpow(factor as int, j as nat) <= MAX_FACTOR);
            assert(fpow(factor as int, (j + 1) as nat) <= MAX_FACTOR);
            assert(weight * factor <= MAX_FACTOR * MAX_FACTOR) by (nonlinear_arith)
                requires
                    0 <= weight <= MAX_FACTOR,
                    0 <= factor <= MAX_FACTOR,
            ;
        }
        weights.push(weight);
        let so_far: u64 = sums[j];
        sums.push(so_far + weight);
        weight = ((weight as u128) * (factor as u128) / (ONE as u128)) as u64;
        j += 1;
    }
    let mut taxed_income: Vec<i64> = Vec::new();
    let mut start: usize = 0;
    while start < n
        invariant
            n == taxable_income@.len(),
            n == tax_brackets@.len(),
            start <= n,
            start % 52 == 0 || start == n,
            factor == weekly_factor(annual_inflation_rate),
            weights@.len() == 52,
            sums@.len() == 53,
            forall|i: int| 0 <= i < 52 ==> #[trigger] weights@[i] == fpow(factor as int, i as nat),
            forall|i: int| 0 <= i <= 52 ==> #[trigger] sums@[i] == weight_sum(factor as int, i),
            forall|i: int| 0 <= i < 52 ==> 0 <= #[trigger] weights@[i] <= MAX_FACTOR,
            forall|i: int| 1 <= i <= 52 ==> #[trigger] sums@[i] >= ONE,
            taxed_income@.len() == start,
            forall|t: int|
                0 <= t < start ==> #[trigger] taxed_income@[t] == net_income(
                    taxable_income@,
                    tax_brackets@,
                    annual_inflation_rate,
                    t,
                ),
        decreases n - start,
    {
        let whole: bool = n - start > 52;
        let end: usize = if whole {
            start + 52
        } else {
            n
        };
        let week: usize = if whole {
            start + 52
        } else {
            n - 1
        };
        let income: i64 = sum_entries(taxable_income.as_slice(), start, end);
        let tax: i64 = TaxBrackets::compute_tax(income, tax_rates(), tax_brackets[week]);
        let total: u64 = sums[end - start];
        let mut t: usize = start;
        while t < end
            invariant
                n == taxable_income@.len(),
                n == tax_brackets@.len(),
                start % 52 == 0,
                start <= t <= end <= n,
                end - start <= 52,
                end == year_end(start as int, n as int),
                week == assessment_week(start as int, n as int),
                income == cap_i64(ledger_sum(taxable_income@, start as int, end as int)),
                tax == progressive_tax(
                    income as int,
                    standard_rates(),
                    tax_brackets@[week as int]@,
                ),
                total == weight_sum(factor as int, end - start),
                total >= ONE,
                factor == weekly_factor(annual_inflation_rate),
                weights@.len() == 52,
                forall|i: int|
                    0 <= i < 52 ==> #[trigger] weights@[i] == fpow(factor as int, i as nat),
                forall|i: int| 0 <= i < 52 ==> 0 <= #[trigger] weights@[i] <= MAX_FACTOR,
                taxed_income@.len() == t,
                forall|u: int|
                    0 <= u < t ==> #[trigger] taxed_income@[u] == net_income(
                        taxable_income@,
                        tax_brackets@,
                        annual_inflation_rate,
                        u,
                    ),
            decreases end - t,
        {
            let share: u64 = weights[t - start];
            proof {
                assert(year_start(t as int) == start);
                assert(-0x8000_0000_0000_0000 * MAX_FACTOR <= tax * share <= 0x8000_0000_0000_0000
                    * MAX_FACTOR) by (nonlinear_arith)
                    requires
                        -0x8000_0000_0000_0000 <= tax <= 0x8000_0000_0000_0000,
                        0 <= share <= MAX_FACTOR,
                ;
            }
            let due: i128 = div_floor((tax as i128) * (share as i128), total);
            taxed_income.push(narrow(taxable_income[t] as i128 - due));
            t += 1;
        }
        start = end;
    }
    taxed_income
}

/// The thresholds of each week, as far as a file has given them: the rows of
/// the first `next` weeks have been read; the others hold zeros.
pub struct BracketRows {
    pub rows: Vec<[u64; 4]>,
    pub next: usize,
}

/// The thresholds of each week, as far as a file has given them.
pub struct Rows {
    pub rows: Seq<[u64; 4]>,
    pub next: int,
}

impl Collector for BracketRows {
    type State = Rows;

    open spec fn state(&self) -> Rows {
        Rows { rows: self.rows@, next: self.next as int }
    }

    open spec fn wf(&self) -> bool {
        self.next <= self.rows@.len()
    }

    /// The rows once a line has been entered: four thresholds, for the first
    /// week that has none yet. A line for a week beyond the horizon is
    /// rejected.
    open spec fn absorbed(state: Rows, line: Seq<u8>) -> Result<Rows, ParseError> {
        let f = fields(line);
        match amount_field(f, 0) {
            Err(e) => Err(e),
            Ok(a) => match amount_field(f, 1) {
                Err(e) => Err(e),
                Ok(b) => match amount_field(f, 2) {
                    Err(e) => Err(e),
                    Ok(c) => match amount_field(f, 3) {
                        Err(e) => Err(e),
                        Ok(d) => if state.next >= state.rows.len() {
                            Err(ParseError::WeekOutOfRange)
                        } else {
                            Ok(
                                Rows {
                                    rows: state.rows.update(state.next, [a, b, c, d]),
                                    next: state.next + 1,
                                },
                            )
                        },
                    },
                },
            },
        }
    }

    fn absorb(&mut self, line: &[u8]) -> (r: Result<(), ParseError>) {
        let fields: Vec<&[u8]> = split_fields(line);
        let a: u64 = match get_amount(&fields, 0) {
            Ok(v) => v,
            Err(e) => {
                return Err(e);
            },
        };
        let b: u64 = match get_amount(&fields, 1) {
            Ok(v) => v,
            Err(e) => {
                return Err(e);
            },
        };
        let c: u64 = match get_amount(&fields, 2) {
            Ok(v) => v,
            Err(e) => {
                return Err(e);
            },
        };
        let d: u64 = match get_amount(&fields, 3) {
            Ok(v) => v,
            Err(e) => {
                return Err(e);
            },
        };
        if self.next >= self.rows.len() {
            return Err(ParseError::WeekOutOfRange);
        }
        let row: [u64; 4] = [a, b, c, d];
        self.rows[self.next] = row;
        self.next = self.next + 1;
        Ok(())
    }
}

/// No thresholds read yet for any of `weeks` weeks.
pub open spec fn no_rows(weeks: usize) -> Rows {
    Rows { rows: Seq::new(weeks as nat, |i: int| [0u64, 0u64, 0u64, 0u64]), next: 0 }
}

/// Reads a file of thresholds, one line of four for each week from week 0 on,
/// into the thresholds of each of the `num_timesteps` weeks of the horizon;
/// weeks that the file does not reach hold zeros. The first line that is
/// rejected, if any, is reported with its position.
pub fn parse_tax_brackets_file(text: &str, num_timesteps: usize) -> (r: Result<
    Vec<[u64; 4]>,
    LineError,
>)
    ensures
        match collected::<BracketRows>(no_rows(num_timesteps), lines(text.spec_bytes())) {
            Ok(state) => r matches Ok(found) && found@ == state.rows,
            Err(e) => r matches Err(found) && found == e,
        },
{
    let zero: [u64; 4] = [0, 0, 0, 0];
    assert(zero =~= [0u64, 0u64, 0u64, 0u64]);
    let mut rows: Vec<[u64; 4]> = Vec::new();
    while rows.len() < num_timesteps
        invariant
            rows@.len() <= num_timesteps,
            zero == [0u64, 0u64, 0u64, 0u64],
            forall|i: int| 0 <= i < rows@.len() ==> rows@[i] == zero,
        decreases num_timesteps - rows@.len(),
    {
        rows.push(zero);
    }
    assert(rows@ =~= no_rows(num_timesteps).rows);
    let mut table = BracketRows { rows, next: 0 };
    match collect_lines(&mut table, text.as_bytes()) {
        Ok(_) => Ok(table.rows),
        Err(e) => Err(e),
    }
}

} // verus!
