use financial_model::fixed::{scale, weekly_growth_factor, PERCENT, UNIT};
use financial_model::loan::{minimum_repayment, pay, pay_down, settle, Debt};

#[test]
fn level_repayment_of_a_thirty_year_loan() {
    let repayment = minimum_repayment(500_000 * UNIT, 4 * PERCENT, 30);
    assert_eq!(repayment, 545_431_085);
    let r = 1.04f64.powf(1.0 / 52.0) - 1.0;
    let growth = (1.0f64 + r).powf(1560.0);
    let exact = 500_000.0 * r * growth / (growth - 1.0);
    assert!((exact - 545.43).abs() < 0.01);
    assert!((repayment as f64 / 1e6 - exact).abs() < 1e-4);
}

#[test]
fn level_repayment_extinguishes_the_loan_in_the_last_week_of_its_term() {
    let repayment = minimum_repayment(500_000 * UNIT, 4 * PERCENT, 30);
    let factor = weekly_growth_factor(4 * PERCENT);
    let mut debt = Debt { balance: 500_000 * UNIT, repayment: Some(repayment) };
    for week in 1..=(30 * 52) {
        let owed = scale(debt.balance, factor);
        let (after, paid) = settle(Debt { balance: owed, repayment: debt.repayment });
        if week < 30 * 52 {
            assert_eq!(paid, Some(repayment));
            assert_eq!(after.balance, owed - repayment);
            assert!(after.balance > 0);
            assert!(after.balance < debt.balance);
            assert_eq!(after.repayment, Some(repayment));
        } else {
            assert_eq!(debt.balance, 545_016_291);
            assert_eq!(paid, Some(545_427_521));
            assert!(owed <= repayment);
            assert_eq!(after, Debt { balance: 0, repayment: None });
        }
        debt = after;
    }
}

#[test]
fn level_repayment_extinguishes_the_loan_in_exact_arithmetic() {
    let repayment = minimum_repayment(500_000 * UNIT, 4 * PERCENT, 30) as f64 / 1e6;
    let r = 1.04f64.powf(1.0 / 52.0) - 1.0;
    let mut balance = 500_000.0f64;
    for _ in 0..(30 * 52) {
        balance = balance * (1.0 + r) - repayment;
        assert!(balance > -0.01);
    }
    assert!(balance.abs() < 0.01, "{}", balance);
}

#[test]
fn level_repayment_of_a_short_loan() {
    assert_eq!(minimum_repayment(20_000 * UNIT, 5 * PERCENT, 4), 105_891_236);
    assert_eq!(minimum_repayment(20_000 * UNIT, 5_500_000, 4), 106_872_392);
    assert_eq!(minimum_repayment(20_000 * UNIT, 6 * PERCENT, 1), 396_151_675);
}

#[test]
fn level_repayment_without_interest_is_an_even_split() {
    assert_eq!(minimum_repayment(1_040 * UNIT, 0, 1), 20 * UNIT);
    assert_eq!(minimum_repayment(1_040 * UNIT + 1, 0, 1), 20 * UNIT + 1);
    assert_eq!(minimum_repayment(50_000, 0, 2), 481);
}

#[test]
fn level_repayment_at_interest_below_zero() {
    let repayment = minimum_repayment(1_040 * UNIT, -5 * PERCENT, 1);
    assert_eq!(repayment, 19_481_842);
    let r = 0.95f64.powf(1.0 / 52.0) - 1.0;
    let growth = (1.0f64 + r).powf(52.0);
    let exact = 1_040.0 * r * growth / (growth - 1.0);
    assert!((repayment as f64 / 1e6 - exact).abs() < 1e-4);
    assert_eq!(minimum_repayment(1_041 * UNIT + 1, -5 * PERCENT, 1), 19_500_575);
    assert_eq!(minimum_repayment(500_000 * UNIT, -4 * PERCENT, 30), 163_280_813);
    assert_eq!(minimum_repayment(1_040 * UNIT, -100 * PERCENT, 1), 1);
}

#[test]
fn level_repayment_at_interest_below_zero_extinguishes_the_loan_in_its_last_week() {
    let repayment = minimum_repayment(500_000 * UNIT, -4 * PERCENT, 30);
    let factor = weekly_growth_factor(-4 * PERCENT);
    let mut debt = Debt { balance: 500_000 * UNIT, repayment: Some(repayment) };
    for week in 1..=(30 * 52) {
        let owed = scale(debt.balance, factor);
        let (after, paid) = settle(Debt { balance: owed, repayment: debt.repayment });
        if week < 30 * 52 {
            assert_eq!(paid, Some(repayment));
            assert!(after.balance > 0);
        } else {
            assert_eq!(debt.balance, 163_407_725);
            assert_eq!(after, Debt { balance: 0, repayment: None });
        }
        debt = after;
    }
}

#[test]
fn level_repayment_without_a_term_is_the_whole_loan() {
    assert_eq!(minimum_repayment(77, 5 * PERCENT, 0), 77);
}

#[test]
fn level_repayment_of_nothing_is_nothing() {
    assert_eq!(minimum_repayment(0, 5 * PERCENT, 10), 0);
    assert_eq!(minimum_repayment(0, 0, 10), 0);
}

#[test]
fn level_repayment_of_a_small_loan_clears_it_early() {
    let repayment = minimum_repayment(5, 4 * PERCENT, 30);
    assert_eq!(repayment, 1);
    let factor = weekly_growth_factor(4 * PERCENT);
    let mut debt = Debt { balance: 5, repayment: Some(repayment) };
    for _ in 0..5 {
        debt = settle(Debt { balance: scale(debt.balance, factor), repayment: debt.repayment }).0;
    }
    assert_eq!(debt, Debt { balance: 0, repayment: None });
}

#[test]
fn level_repayment_of_the_largest_loan() {
    assert_eq!(minimum_repayment(u64::MAX, i32::MAX, 1), 1_190_802_813_490_232_311);
    assert_eq!(minimum_repayment(u64::MAX, 0, 1), u64::MAX / 52 + 1);
}

#[test]
fn a_payment_never_exceeds_the_balance() {
    assert_eq!(pay(100, 30), 30);
    assert_eq!(pay(100, 100), 100);
    assert_eq!(pay(100, 101), 100);
    assert_eq!(pay(0, 5), 0);
}

#[test]
fn an_extra_payment_that_clears_the_debt_ends_the_repayment() {
    let debt = Debt { balance: 100, repayment: Some(30) };
    assert_eq!(pay_down(debt, 40), (Debt { balance: 60, repayment: Some(30) }, 40));
    assert_eq!(pay_down(debt, 100), (Debt { balance: 0, repayment: None }, 100));
    assert_eq!(pay_down(debt, 500), (Debt { balance: 0, repayment: None }, 100));
    assert_eq!(pay_down(debt, 0), (Debt { balance: 100, repayment: Some(30) }, 0));
}

#[test]
fn settling_makes_the_minimum_repayment() {
    let (after, paid) = settle(Debt { balance: 100, repayment: Some(30) });
    assert_eq!(after, Debt { balance: 70, repayment: Some(30) });
    assert_eq!(paid, Some(30));
}

#[test]
fn settling_clears_an_exhausted_debt() {
    let (after, paid) = settle(Debt { balance: 20, repayment: Some(30) });
    assert_eq!(after, Debt { balance: 0, repayment: None });
    assert_eq!(paid, Some(20));
    let (after, paid) = settle(Debt { balance: 30, repayment: Some(30) });
    assert_eq!(after, Debt { balance: 0, repayment: None });
    assert_eq!(paid, Some(30));
}

#[test]
fn settling_without_a_repayment_changes_nothing() {
    let (after, paid) = settle(Debt { balance: 20, repayment: None });
    assert_eq!(after, Debt { balance: 20, repayment: None });
    assert_eq!(paid, None);
}
