use financial_model::fixed::{PERCENT, UNIT};
use financial_model::model::{Model, Schedules};
use financial_model::params::Rates;
use financial_model::tax::{tax_rates, TaxBrackets};
use financial_model::{car_loan, hecs, home, home_loan, shares, superannuation};
use std::collections::HashMap;

const THRESHOLDS: [u64; 4] = [18_200 * UNIT, 45_000 * UNIT, 135_000 * UNIT, 190_000 * UNIT];
const NET: i64 = 1_077_153_847;

/// The cash entry of a week before the simulation: income less the tax
/// withheld, less expenses.
fn entry(week: usize, weeks: usize) -> i64 {
    let start = week / 52 * 52;
    let end = if start + 52 < weeks { start + 52 } else { weeks };
    let year = (end - start) as i64;
    let tax = TaxBrackets::compute_tax(year * 2_000 * UNIT as i64, tax_rates(), THRESHOLDS);
    2_000 * UNIT as i64 - tax / year - 500 * UNIT as i64
}

/// The cash balance at the close of a week where nothing but income and
/// expenses touches it.
fn closing(week: usize, weeks: usize) -> i64 {
    (0..=week).map(|w| entry(w, weeks)).sum()
}

fn no_rates() -> Rates {
    Rates {
        home_appreciation_rate: 0,
        home_loan_interest_rate: 0,
        car_loan_interest_rate: 0,
        hecs_indexation_rate: 0,
        shares_ror: 0,
        super_ror: 0,
        inflation_rate: 0,
    }
}

fn no_schedules() -> Schedules {
    Schedules {
        home: HashMap::new(),
        home_loan: HashMap::new(),
        car_loan: HashMap::new(),
        hecs: HashMap::new(),
        shares: HashMap::new(),
        superannuation: HashMap::new(),
    }
}

fn model(weeks: usize, rates: Rates, schedules: Schedules) -> Model {
    Model::new(
        rates,
        schedules,
        vec![2_000 * UNIT; weeks],
        vec![500 * UNIT; weeks],
        vec![THRESHOLDS; weeks],
    )
}

#[test]
fn cash_is_carried_forward_week_by_week() {
    let mut model = model(106, no_rates(), no_schedules());
    assert_eq!(model.num_timesteps(), 106);
    assert_eq!(entry(0, 106), NET);
    assert_eq!(entry(103, 106), NET);
    assert_eq!(entry(104, 106), 1_500 * UNIT as i64);
    assert_eq!(model.cash_at(0), NET);
    assert_eq!(model.cash_at(105), 1_500 * UNIT as i64);
    model.run();
    assert_eq!(model.cash_at(51), 52 * NET);
    assert_eq!(model.cash_at(105), 104 * NET + 3_000 * UNIT as i64);
    for week in 0..106 {
        assert_eq!(model.cash_at(week), closing(week, 106));
        assert_eq!(model.taxable_income_at(week), 2_000 * UNIT as i64);
        assert_eq!(model.home().value_at(week), 0);
        assert_eq!(model.home_loan().value_at(week), 0);
        assert_eq!(model.car_loan().value_at(week), 0);
        assert_eq!(model.hecs().value_at(week), 0);
        assert_eq!(model.shares().value_at(week), 0);
        assert_eq!(model.superannuation().value_at(week), 0);
    }
}

#[test]
fn running_is_stepping_through_every_week() {
    let mut schedules = no_schedules();
    schedules.shares.insert(
        2,
        vec![shares::Command::Buy(shares::BuyCommand { time: 2, amount: 700 * UNIT })],
    );
    let mut a = model(10, no_rates(), schedules);
    let mut schedules = no_schedules();
    schedules.shares.insert(
        2,
        vec![shares::Command::Buy(shares::BuyCommand { time: 2, amount: 700 * UNIT })],
    );
    let mut b = model(10, no_rates(), schedules);
    a.run();
    for week in 0..10 {
        b.simulate_timestep(week);
    }
    for week in 0..10 {
        assert_eq!(a.cash_at(week), b.cash_at(week));
        assert_eq!(a.shares().value_at(week), b.shares().value_at(week));
    }
    assert_eq!(entry(3, 10), 1_471_200_000);
    assert_eq!(a.cash_at(9), 14_012 * UNIT as i64);
    assert_eq!(a.cash_at(9), closing(9, 10) - 700 * UNIT as i64);
    assert_eq!(a.shares().value_at(9), 700 * UNIT);
}

#[test]
fn a_share_sale_is_taxed_at_the_next_year_end() {
    let mut schedules = no_schedules();
    schedules.shares.insert(
        0,
        vec![shares::Command::Buy(shares::BuyCommand { time: 0, amount: 10_000 * UNIT })],
    );
    schedules.shares.insert(
        53,
        vec![shares::Command::Sell(shares::SellCommand { time: 53, amount: u64::MAX })],
    );
    let rates = Rates { shares_ror: 10 * PERCENT, ..no_rates() };
    let mut model = model(106, rates, schedules);
    model.run();
    assert_eq!(model.cash_at(0), NET - 10_000 * UNIT as i64);
    assert_eq!(model.cash_at(52), 53 * NET - 10_000 * UNIT as i64);
    assert_eq!(model.shares().value_at(52), 10_999_999_973);
    assert_eq!(model.cash_at(53), 54 * NET - 10_000 * UNIT as i64 + 11_020_180_230);
    assert_eq!(model.taxable_income_at(53), 2_000 * UNIT as i64 + 510_090_115);
    assert_eq!(model.taxable_income_at(54), 2_000 * UNIT as i64);
    let year = 104_000 * UNIT as i64;
    let owed = TaxBrackets::compute_tax(year + 510_090_115, tax_rates(), THRESHOLDS)
        - TaxBrackets::compute_tax(year, tax_rates(), THRESHOLDS);
    assert_eq!(owed, 153_027_034);
    assert_eq!(model.cash_at(103), 104 * NET - 10_000 * UNIT as i64 + 11_020_180_230);
    assert_eq!(
        model.cash_at(104),
        closing(104, 106) - 10_000 * UNIT as i64 + 11_020_180_230 - owed
    );
}

#[test]
fn instruments_see_the_cash_that_earlier_ones_leave() {
    let mut schedules = no_schedules();
    schedules.home.insert(
        1,
        vec![home::Command::Buy(home::BuyCommand { time: 1, amount: 1_000 * UNIT })],
    );
    schedules.home_loan.insert(
        1,
        vec![home_loan::Command::StartAll(home_loan::StartAllCommand { time: 1, duration: 1 })],
    );
    schedules.superannuation.insert(
        1,
        vec![superannuation::Command::BuyAllNCC(superannuation::BuyAllCommand { time: 1 })],
    );
    let mut model = model(4, no_rates(), schedules);
    model.run();
    let after_home = 3_000 * UNIT as i64 - 1_000 * UNIT as i64;
    assert_eq!(model.home().value_at(1), 1_000 * UNIT);
    assert_eq!(model.home_loan().value_at(1), after_home as u64);
    assert_eq!(model.superannuation().value_at(2), 2 * after_home as u64);
    assert_eq!(model.cash_at(1), 0);
    let regular = after_home as u64 / 52 + 1;
    assert_eq!(regular, 38_461_539);
    assert_eq!(model.cash_at(2), 1_500 * UNIT as i64 - regular as i64);
    assert_eq!(model.home_loan().value_at(2), after_home as u64 - regular);
}

#[test]
fn a_concessional_contribution_is_refunded_and_its_release_taxed() {
    let mut schedules = no_schedules();
    schedules.superannuation.insert(
        0,
        vec![superannuation::Command::BuyCC(superannuation::BuyCommand {
            time: 0,
            amount: 10_000 * UNIT,
        })],
    );
    schedules.superannuation.insert(
        10,
        vec![superannuation::Command::SellAll(superannuation::SellAllCommand { time: 10 })],
    );
    let mut model = model(60, no_rates(), schedules);
    model.run();
    assert_eq!(model.cash_at(0), NET - 10_000 * UNIT as i64);
    assert_eq!(model.taxable_income_at(0), -8_000 * UNIT as i64);
    assert_eq!(model.superannuation().value_at(1), 8_500 * UNIT);
    assert_eq!(model.cash_at(10), 11 * NET - 1_500 * UNIT as i64);
    assert_eq!(model.superannuation().value_at(11), 0);
    assert_eq!(model.cash_at(51), 52 * NET - 1_500 * UNIT as i64);
    assert_eq!(
        model.cash_at(52),
        closing(52, 60) - 1_500 * UNIT as i64 + 3_000 * UNIT as i64
    );
}

#[test]
fn loans_are_repaid_from_cash() {
    let mut schedules = no_schedules();
    schedules.home_loan.insert(
        0,
        vec![home_loan::Command::Start(home_loan::StartCommand {
            time: 0,
            amount: 5_200 * UNIT,
            duration: 1,
        })],
    );
    schedules.car_loan.insert(
        0,
        vec![car_loan::Command::Start(car_loan::StartCommand {
            time: 0,
            amount: 1_040 * UNIT,
            balloon_payment: 300 * UNIT,
            duration: 1,
        })],
    );
    schedules.hecs.insert(
        3,
        vec![hecs::Command::Pay(hecs::PayCommand { time: 3, amount: 50 * UNIT })],
    );
    let mut model = model(60, no_rates(), schedules);
    model.run();
    assert_eq!(model.cash_at(0), NET + 5_200 * UNIT as i64);
    assert_eq!(model.cash_at(1), 2 * NET + 5_200 * UNIT as i64 - 120 * UNIT as i64);
    assert_eq!(model.cash_at(3), 4 * NET + 5_200 * UNIT as i64 - 3 * 120 * UNIT as i64);
    assert_eq!(model.home_loan().value_at(52), 0);
    assert_eq!(model.car_loan().value_at(52), 0);
    assert_eq!(model.car_loan().balloon_at(51), 300 * UNIT);
    assert_eq!(model.car_loan().balloon_at(52), 0);
    assert_eq!(
        model.cash_at(52),
        closing(52, 60) + 5_200 * UNIT as i64 - 5_200 * UNIT as i64 - 1_040 * UNIT as i64
            - 300 * UNIT as i64
    );
    assert_eq!(model.cash_at(59), model.cash_at(52) + 7 * 1_500 * UNIT as i64);
}

#[test]
fn a_falling_market_carries_a_loss_into_taxable_income() {
    let mut schedules = no_schedules();
    schedules.shares.insert(
        0,
        vec![shares::Command::Buy(shares::BuyCommand { time: 0, amount: 10_000 * UNIT })],
    );
    schedules.shares.insert(
        52,
        vec![shares::Command::Sell(shares::SellCommand { time: 52, amount: u64::MAX })],
    );
    schedules.home.insert(
        0,
        vec![home::Command::Buy(home::BuyCommand { time: 0, amount: 100 * UNIT })],
    );
    let rates = Rates {
        shares_ror: -10 * PERCENT,
        home_appreciation_rate: -10 * PERCENT,
        ..no_rates()
    };
    let mut model = model(60, rates, schedules);
    model.run();
    assert_eq!(model.shares().value_at(52), 8_999_999_976);
    assert_eq!(model.home().value_at(1), 99_797_588);
    assert_eq!(model.taxable_income_at(52), 2_000 * UNIT as i64 - 1_000_000_024);
    assert_eq!(
        model.cash_at(52),
        closing(52, 60) - 10_100 * UNIT as i64 + 8_999_999_976
    );
}

#[test]
fn the_cash_ledger_is_written_as_text() {
    let mut model = Model::new(
        no_rates(),
        no_schedules(),
        vec![0, 0],
        vec![1_500_000, 0],
        vec![THRESHOLDS; 2],
    );
    model.run();
    let mut file = Vec::new();
    model.write_cash_to_file(&mut file);
    assert_eq!(String::from_utf8(file).unwrap(), "0 -1.500000\n1 -1.500000\n");
}

#[test]
fn a_model_over_no_weeks_runs() {
    let mut model = Model::new(no_rates(), no_schedules(), vec![], vec![], vec![]);
    model.run();
    assert_eq!(model.num_timesteps(), 0);
}
