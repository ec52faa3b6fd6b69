use financial_model::fixed::{
    available_cash, capped_power, credit, debit, div_floor, mul_div, narrow, open_week,
    raised_power, sat_add, scale, weekly_growth_factor, ONE, PERCENT, UNIT,
};

fn power52(g: u64) -> u128 {
    let mut p: u128 = ONE as u128;
    for _ in 0..52 {
        p = p * g as u128 / ONE as u128;
    }
    p
}

#[test]
fn weekly_factor_of_ten_percent() {
    let g = weekly_growth_factor(10 * PERCENT);
    assert_eq!(g, 1_001_834_568_839);
    let target: u128 = 1_100_000_000_000;
    assert!(power52(g) <= target);
    assert!(power52(g + 1) > target);
}

#[test]
fn weekly_factor_is_close_to_the_fifty_second_root() {
    for percent in [-50i32, -10, -1, 1, 4, 7, 10, 25, 100] {
        let g = weekly_growth_factor(percent * PERCENT);
        let exact = (1.0 + percent as f64 / 100.0).powf(1.0 / 52.0);
        let got = g as f64 / ONE as f64;
        assert!((got - exact).abs() < 1e-10, "{} {}", got, exact);
    }
}

#[test]
fn weekly_factor_of_no_growth_is_one() {
    assert_eq!(weekly_growth_factor(0), ONE);
}

#[test]
fn weekly_factor_of_the_largest_rate() {
    let g = weekly_growth_factor(i32::MAX);
    assert_eq!(g, 1_061_681_290_934);
}

#[test]
fn weekly_factor_does_not_decrease_with_the_rate() {
    let mut last = 0;
    for rate in [i32::MIN, -100_000_000, -99_000_000, -5_500_000, -1, 0, 1, 52, 1_000, 5_500_000,
        100_000_000, i32::MAX]
    {
        let g = weekly_growth_factor(rate);
        assert!(g >= last);
        last = g;
    }
}

#[test]
fn weekly_factor_of_a_falling_value_is_below_one() {
    let g = weekly_growth_factor(-10 * PERCENT);
    assert_eq!(g, 997_975_887_522);
    let target: u128 = 900_000_000_000;
    assert!(power52(g) <= target);
    assert!(power52(g + 1) > target);
    assert_eq!(weekly_growth_factor(-1), 999_999_999_807);
    assert_eq!(weekly_growth_factor(1), 1_000_000_000_192);
}

#[test]
fn weekly_factor_of_a_total_loss() {
    let g = weekly_growth_factor(-100 * PERCENT);
    assert_eq!(g, 593_028_139_437);
    assert_eq!(power52(g), 0);
    assert!(power52(g + 1) > 0);
    assert_eq!(weekly_growth_factor(i32::MIN), g);
}

#[test]
fn powers_of_a_factor_below_one_shrink() {
    assert_eq!(capped_power(ONE / 2, 3, 5 * ONE as u128), ONE as u128 / 8);
    assert_eq!(capped_power(ONE / 2, 3, ONE as u128 / 8 - 1), ONE as u128 / 8);
    assert_eq!(capped_power(0, 1, 7), 0);
    assert_eq!(capped_power(0, 0, ONE as u128), ONE as u128);
    assert_eq!(capped_power(ONE - 1, 52, ONE as u128), power52(ONE - 1));
}

#[test]
fn raised_powers_round_up() {
    assert_eq!(raised_power(ONE, 1_000_000), ONE);
    assert_eq!(raised_power(ONE / 2, 3), ONE / 8);
    assert_eq!(raised_power(0, 0), ONE);
    assert_eq!(raised_power(0, 5), 0);
    assert_eq!(raised_power(1, 1), 1);
    assert_eq!(raised_power(1, 1_000), 1);
    let g = 997_975_887_522;
    let mut exact: u128 = ONE as u128;
    for _ in 0..52 {
        exact = (exact * g as u128 + ONE as u128 - 1) / ONE as u128;
    }
    assert_eq!(raised_power(g, 52) as u128, exact);
    assert!(raised_power(g, 52) as u128 >= capped_power(g, 52, ONE as u128));
    assert!(raised_power(g, 52) as u128 <= capped_power(g, 52, ONE as u128) + 52);
}

#[test]
fn division_rounds_towards_minus_infinity() {
    assert_eq!(div_floor(7, 2), 3);
    assert_eq!(div_floor(-7, 2), -4);
    assert_eq!(div_floor(-8, 2), -4);
    assert_eq!(div_floor(-1, 100), -1);
    assert_eq!(div_floor(0, 100), 0);
    assert_eq!(div_floor(-100, 100), -1);
    assert_eq!(div_floor(-101, 100), -2);
    assert_eq!(div_floor(i128::MIN + 1, 1), i128::MIN + 1);
}

#[test]
fn capped_power_is_exact_below_the_cap_and_one_more_above() {
    assert_eq!(capped_power(ONE, 1_000, 5 * ONE as u128), ONE as u128);
    assert_eq!(capped_power(2 * ONE, 3, 100 * ONE as u128), 8 * ONE as u128);
    assert_eq!(capped_power(2 * ONE, 3, 8 * ONE as u128), 8 * ONE as u128);
    assert_eq!(capped_power(2 * ONE, 3, 8 * ONE as u128 - 1), 8 * ONE as u128);
    assert_eq!(capped_power(2 * ONE, 0, 0), 1);
    assert_eq!(capped_power(1_001_834_568_839, 52, 2 * ONE as u128), power52(1_001_834_568_839));
}

#[test]
fn sums_are_capped_at_the_largest_amount() {
    assert_eq!(sat_add(2, 3), 5);
    assert_eq!(sat_add(u64::MAX, 1), u64::MAX);
    assert_eq!(sat_add(u64::MAX - 1, 1), u64::MAX);
}

#[test]
fn products_are_divided_rounding_down() {
    assert_eq!(mul_div(7, 3, 2), 10);
    assert_eq!(mul_div(u64::MAX, u64::MAX, 1), u64::MAX);
    assert_eq!(mul_div(u64::MAX, 10, 10), u64::MAX);
    assert_eq!(mul_div(100 * UNIT, 15, 100), 15 * UNIT);
}

#[test]
fn scaling_applies_one_period_of_growth() {
    assert_eq!(scale(100_000 * UNIT, 1_001_834_568_839), 100_183_456_883);
    assert_eq!(scale(5, ONE), 5);
    assert_eq!(scale(u64::MAX, 2 * ONE), u64::MAX);
    assert_eq!(scale(100 * UNIT, 997_975_887_522), 99_797_588);
    assert_eq!(scale(7, 0), 0);
}

#[test]
fn ledger_entries_are_capped_at_both_ends() {
    assert_eq!(credit(-5, 7), 2);
    assert_eq!(credit(i64::MAX, 1), i64::MAX);
    assert_eq!(credit(i64::MIN, u64::MAX), i64::MAX);
    assert_eq!(debit(5, 7), -2);
    assert_eq!(debit(i64::MIN, 1), i64::MIN);
    assert_eq!(debit(i64::MAX, u64::MAX), i64::MIN);
    assert_eq!(narrow(i128::MAX), i64::MAX);
    assert_eq!(narrow(i128::MIN), i64::MIN);
    assert_eq!(narrow(-17), -17);
}

#[test]
fn a_ledger_in_deficit_makes_no_cash_available() {
    assert_eq!(available_cash(-1), 0);
    assert_eq!(available_cash(i64::MIN), 0);
    assert_eq!(available_cash(0), 0);
    assert_eq!(available_cash(12), 12);
}

#[test]
fn week_zero_opens_with_what_is_recorded() {
    let values = vec![7u64, 0, 0];
    assert_eq!(open_week(&values, 0, 2 * ONE), 7);
    assert_eq!(open_week(&values, 1, 2 * ONE), 14);
    assert_eq!(open_week(&values, 2, 2 * ONE), 0);
}
