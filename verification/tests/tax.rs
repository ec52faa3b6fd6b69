use financial_model::fixed::{PERCENT, UNIT};
use financial_model::parse::{LineError, ParseError};
use financial_model::tax::{
    parse_tax_brackets_file, reconcile_tax, sum_amounts, sum_entries, tax_income, tax_rates,
    tax_super_fhss, TaxBracket, TaxBrackets,
};

const THRESHOLDS: [u64; 4] = [18_200 * UNIT, 45_000 * UNIT, 135_000 * UNIT, 190_000 * UNIT];

fn tax(income: i64) -> i64 {
    TaxBrackets::compute_tax(income, tax_rates(), THRESHOLDS)
}

#[test]
fn the_standard_rates_are_in_rate_units() {
    assert_eq!(tax_rates(), [0, 16_000_000, 30_000_000, 37_000_000, 45_000_000]);
}

#[test]
fn a_bracket_holds_its_part_of_the_income() {
    let below = TaxBracket::new(10, 20, 50, 7);
    assert_eq!(below, TaxBracket { amount: 0, lower_bound: 20, upper_bound: 50, tax_rate: 7 });
    assert_eq!(TaxBracket::new(20, 20, 50, 7).amount, 0);
    assert_eq!(TaxBracket::new(35, 20, 50, 7).amount, 15);
    assert_eq!(TaxBracket::new(49, 20, 50, 7).amount, 29);
    assert_eq!(TaxBracket::new(50, 20, 50, 7).amount, 30);
    assert_eq!(TaxBracket::new(i64::MAX, 20, 50, 7).amount, 30);
    assert_eq!(TaxBracket::new(-5, 0, 50, 7).amount, 0);
    assert_eq!(TaxBracket::new(i64::MAX, 0, u64::MAX, 7).amount, i64::MAX);
    assert_eq!(TaxBracket::new(60, 50, 20, 7).amount, -30);
}

#[test]
fn the_table_splits_an_income_over_five_brackets() {
    let table = TaxBrackets::new(200_000 * UNIT as i64, tax_rates(), THRESHOLDS);
    assert_eq!(table.bracket_1.amount, 18_200 * UNIT as i64);
    assert_eq!(table.bracket_2.amount, 26_800 * UNIT as i64);
    assert_eq!(table.bracket_3.amount, 90_000 * UNIT as i64);
    assert_eq!(table.bracket_4.amount, 55_000 * UNIT as i64);
    assert_eq!(table.bracket_5.amount, 10_000 * UNIT as i64);
    assert_eq!(table.bracket_5.upper_bound, u64::MAX);
    assert_eq!(table.bracket_3.tax_rate, 30_000_000);
    assert_eq!(
        table.bracket_1,
        TaxBracket {
            amount: 18_200 * UNIT as i64,
            lower_bound: 0,
            upper_bound: 18_200 * UNIT,
            tax_rate: 0
        }
    );
    assert_eq!(
        table.bracket_4,
        TaxBracket {
            amount: 55_000 * UNIT as i64,
            lower_bound: 135_000 * UNIT,
            upper_bound: 190_000 * UNIT,
            tax_rate: 37_000_000
        }
    );
}

#[test]
fn progressive_tax_of_known_incomes() {
    assert_eq!(tax(100_000 * UNIT as i64), 20_788 * UNIT as i64);
    assert_eq!(tax(200_000 * UNIT as i64), 56_138 * UNIT as i64);
    assert_eq!(tax(18_200 * UNIT as i64), 0);
    assert_eq!(tax(18_200 * UNIT as i64 + 6), 0);
    assert_eq!(tax(18_200 * UNIT as i64 + 7), 1);
    assert_eq!(tax(45_000 * UNIT as i64 + 1), 4_288 * UNIT as i64);
}

#[test]
fn no_income_no_tax() {
    assert_eq!(tax(0), 0);
    assert_eq!(tax(-1), 0);
    assert_eq!(tax(i64::MIN), 0);
    assert_eq!(TaxBrackets::compute_tax(0, [5, 4, 3, 2, 1], [9, 3, 7, 0]), 0);
}

#[test]
fn progressive_tax_never_falls_as_income_rises() {
    let mut last = 0;
    let mut income: i64 = -1_000 * UNIT as i64;
    while income < 400_000 * UNIT as i64 {
        let now = tax(income);
        assert!(now >= last);
        last = now;
        income += 997 * UNIT as i64 + 13;
    }
    assert!(tax(i64::MAX) >= last);
}

#[test]
fn progressive_tax_is_linear_within_a_bracket() {
    let step = 1_000 * UNIT as i64;
    let a = tax(50_000 * UNIT as i64);
    let b = tax(50_000 * UNIT as i64 + step);
    let c = tax(50_000 * UNIT as i64 + 2 * step);
    assert_eq!(b - a, 300 * UNIT as i64);
    assert_eq!(c - b, 300 * UNIT as i64);
    let d = tax(150_000 * UNIT as i64);
    let e = tax(150_000 * UNIT as i64 + step);
    assert_eq!(e - d, 370 * UNIT as i64);
    let f = tax(1_000_000 * UNIT as i64);
    let g = tax(1_000_000 * UNIT as i64 + step);
    assert_eq!(g - f, 450 * UNIT as i64);
}

#[test]
fn the_tax_on_the_largest_income_is_in_range() {
    let most = TaxBrackets::compute_tax(i64::MAX, [u32::MAX; 5], [0, 0, 0, 0]);
    assert_eq!(most, i64::MAX);
    let some = TaxBrackets::compute_tax(i64::MAX, [0, 0, 0, 0, 100_000_000], [0, 0, 0, 0]);
    assert_eq!(some, i64::MAX);
}

#[test]
fn thresholds_out_of_order_give_negative_parts() {
    assert_eq!(
        TaxBrackets::compute_tax(1_000, [0, 50_000_000, 0, 0, 0], [500, 100, 100, 100]),
        -200
    );
}

#[test]
fn sums_of_entries_and_amounts() {
    assert_eq!(sum_entries(&[1, -5, 10, 3], 1, 3), 5);
    assert_eq!(sum_entries(&[1, -5, 10, 3], 0, 4), 9);
    assert_eq!(sum_entries(&[1, -5, 10, 3], 2, 2), 0);
    assert_eq!(sum_entries(&[i64::MAX, i64::MAX, -1], 0, 3), i64::MAX);
    assert_eq!(sum_entries(&[i64::MIN, i64::MIN, 1], 0, 3), i64::MIN);
    assert_eq!(sum_entries(&[i64::MAX, i64::MAX, i64::MIN, i64::MIN, 5], 0, 5), 3);
    assert_eq!(sum_amounts(&[1, 2, 3]), 6);
    assert_eq!(sum_amounts(&[u64::MAX, 2, 3]), u64::MAX);
    assert_eq!(sum_amounts(&[]), 0);
}

#[test]
fn reconciliation_is_zero_for_equal_incomes() {
    let income = vec![2_000 * UNIT as i64; 52];
    assert_eq!(reconcile_tax(&income, &income, THRESHOLDS), 0);
    let mut shifted = income.clone();
    shifted[3] += 700;
    shifted[40] -= 700;
    assert_eq!(reconcile_tax(&shifted, &income, THRESHOLDS), 0);
    assert_eq!(reconcile_tax(&[], &[], THRESHOLDS), 0);
}

#[test]
fn reconciliation_taxes_the_change_in_income() {
    let original = vec![2_000 * UNIT as i64; 52];
    let mut taxable = original.clone();
    taxable[10] += 1_000 * UNIT as i64;
    assert_eq!(reconcile_tax(&taxable, &original, THRESHOLDS), 300 * UNIT as i64);
    taxable[10] -= 11_000 * UNIT as i64;
    assert_eq!(reconcile_tax(&taxable, &original, THRESHOLDS), -3_000 * UNIT as i64);
}

#[test]
fn released_savings_are_taxed_at_reduced_rates() {
    let income = vec![2_500 * UNIT as i64; 52];
    let mut taxed = vec![0u64; 52];
    let mut untaxed = vec![0i64; 52];
    assert_eq!(tax_super_fhss(&income, &taxed, &untaxed, THRESHOLDS), 0);
    taxed[7] = 10_000 * UNIT;
    untaxed[7] = 2_000 * UNIT as i64;
    untaxed[8] = 3_000 * UNIT as i64;
    assert_eq!(tax_super_fhss(&income, &taxed, &untaxed, THRESHOLDS), 1_397_500_000);
    let lower = vec![100_000 * UNIT as i64];
    assert_eq!(tax_super_fhss(&lower, &taxed, &untaxed, THRESHOLDS), 750 * UNIT as i64);
    assert_eq!(tax_super_fhss(&[200_000 * UNIT as i64], &[], &[3], THRESHOLDS), 0);
    assert_eq!(tax_super_fhss(&[200_000 * UNIT as i64], &[], &[7], THRESHOLDS), 1);
}

#[test]
fn savings_released_at_a_loss_carry_a_negative_levy() {
    let income = vec![130_000 * UNIT as i64];
    let taxed = vec![10_000 * UNIT];
    let untaxed = vec![-1_000 * UNIT as i64];
    assert_eq!(tax_super_fhss(&income, &taxed, &untaxed, THRESHOLDS), 140_500_000);
    assert_eq!(tax_super_fhss(&income, &[], &[-7], THRESHOLDS), -2);
}

#[test]
fn withholding_falls_through_the_year_with_deflation() {
    let income = vec![2_000 * UNIT as i64; 52];
    let brackets = vec![THRESHOLDS; 52];
    let net = tax_income(&income, &brackets, -5 * PERCENT);
    assert_eq!(net[0], 1_566_430_429);
    assert_eq!(net[51], 1_587_702_414);
    for week in 1..52 {
        assert!(net[week] > net[week - 1]);
    }
}

#[test]
fn withholding_is_even_without_inflation() {
    let income = vec![2_000 * UNIT as i64; 104];
    let brackets = vec![THRESHOLDS; 104];
    let net = tax_income(&income, &brackets, 0);
    assert_eq!(net.len(), 104);
    for week in 0..104 {
        assert_eq!(net[week], 1_577_153_847);
    }
}

#[test]
fn withholding_rises_through_the_year_with_inflation() {
    let income = vec![2_000 * UNIT as i64; 104];
    let brackets = vec![THRESHOLDS; 104];
    let net = tax_income(&income, &brackets, 5 * PERCENT);
    assert_eq!(net[0], 1_587_191_702);
    assert_eq!(net[1], 1_586_804_194);
    assert_eq!(net[51], 1_566_957_789);
    assert_eq!(net[52], 1_587_191_702);
    for week in 1..52 {
        assert!(net[week] < net[week - 1]);
    }
    let withheld: i64 = net[..52].iter().map(|n| 2_000 * UNIT as i64 - n).sum();
    assert_eq!(withheld, 21_987_999_972);
    assert!(withheld <= 21_988 * UNIT as i64);
}

#[test]
fn a_short_last_year_is_taxed_on_its_own() {
    let income = vec![2_000 * UNIT as i64; 60];
    let later: [u64; 4] = [10_000 * UNIT, 45_000 * UNIT, 135_000 * UNIT, 190_000 * UNIT];
    let mut brackets = vec![THRESHOLDS; 52];
    brackets.extend(vec![later; 8]);
    let net = tax_income(&income, &brackets, 0);
    assert_eq!(net[0], 1_551_923_077);
    assert_eq!(net[51], 1_551_923_077);
    assert_eq!(net[52], 1_880 * UNIT as i64);
    assert_eq!(net[59], 1_880 * UNIT as i64);
}

#[test]
fn withholding_over_no_weeks_is_empty() {
    assert_eq!(tax_income(&vec![], &vec![], 3 * PERCENT).len(), 0);
    let one = tax_income(&vec![100_000 * UNIT as i64], &vec![THRESHOLDS], 3 * PERCENT);
    assert_eq!(one, vec![100_000 * UNIT as i64 - 20_788 * UNIT as i64]);
}

#[test]
fn thresholds_are_read_week_by_week() {
    let rows = parse_tax_brackets_file("18200 45000 135000 190000\n1 2.5 3 4 5\n", 3).unwrap();
    assert_eq!(rows, vec![THRESHOLDS, [UNIT, 2_500_000, 3 * UNIT, 4 * UNIT], [0, 0, 0, 0]]);
    assert_eq!(
        parse_tax_brackets_file("1 2 3 4\n1 2 3 4\n", 1).err(),
        Some(LineError { line: 1, error: ParseError::WeekOutOfRange })
    );
    assert_eq!(
        parse_tax_brackets_file("1 2 3 4\n1 2 3\n", 5).err(),
        Some(LineError { line: 1, error: ParseError::MissingField })
    );
    assert_eq!(
        parse_tax_brackets_file("1 2 x 4\n", 5).err(),
        Some(LineError { line: 0, error: ParseError::InvalidNumber })
    );
    assert_eq!(
        parse_tax_brackets_file("1 2 x 4\n", 0).err(),
        Some(LineError { line: 0, error: ParseError::InvalidNumber })
    );
    assert_eq!(parse_tax_brackets_file("", 2).unwrap(), vec![[0, 0, 0, 0]; 2]);
}
