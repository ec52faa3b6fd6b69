use financial_model::fixed::{PERCENT, UNIT};
use financial_model::hecs::{
    compute_repayment_income, minimum_repayment, Asset, Command, Params, PayCommand, PayReceipt,
    Transaction,
};
use financial_model::parse::ParseError;
use std::collections::HashMap;

#[test]
fn the_repayment_rate_rises_with_income() {
    assert_eq!(minimum_repayment(0), 0);
    assert_eq!(minimum_repayment(54_435 * UNIT), 0);
    assert_eq!(minimum_repayment(54_435 * UNIT + 1), (54_435 * UNIT + 1) / 100 / 52);
    assert_eq!(minimum_repayment(60_000 * UNIT), 11_538_461);
    assert_eq!(minimum_repayment(62_850 * UNIT), 62_850 * UNIT / 100 / 52);
    assert_eq!(minimum_repayment(62_850 * UNIT + 1), (62_850 * UNIT + 1) * 2 / 100 / 52);
    assert_eq!(minimum_repayment(66_620 * UNIT + 1), 32_028_846);
    assert_eq!(minimum_repayment(100_000 * UNIT), 105_769_230);
    assert_eq!(minimum_repayment(159_663 * UNIT), 291_692_019);
    assert_eq!(minimum_repayment(159_663 * UNIT + 1), 307_044_230);
    assert_eq!(minimum_repayment(200_000 * UNIT), 384_615_384);
    assert_eq!(minimum_repayment(u64::MAX), u64::MAX / 10 / 52);
}

#[test]
fn the_income_window_is_the_last_fifty_two_weeks() {
    let income: Vec<u64> = (0..120u64).collect();
    assert_eq!(compute_repayment_income(&income, 0), 0);
    assert_eq!(compute_repayment_income(&income, 3), 6);
    assert_eq!(compute_repayment_income(&income, 51), (0..=51u64).sum::<u64>());
    assert_eq!(compute_repayment_income(&income, 52), (1..=52u64).sum::<u64>());
    assert_eq!(compute_repayment_income(&income, 119), (68..=119u64).sum::<u64>());
    assert_eq!(compute_repayment_income(&vec![u64::MAX, 1], 1), u64::MAX);
}

#[test]
fn a_study_debt_is_repaid_from_income() {
    let commands: HashMap<usize, Vec<Command>> = HashMap::new();
    let income = vec![2_000 * UNIT; 60];
    let mut asset = Asset::with_balance(60, 30_000 * UNIT);
    let params = Params::new(0);
    let first = asset.simulate_timestep(0, params, &commands, &income);
    assert_eq!(first, Some(vec![Transaction::Pay(PayReceipt { time: 0, amount: 0 })]));
    assert_eq!(asset.value_at(0), 30_000 * UNIT);
    let mut owed = 30_000 * UNIT;
    for time in 1..60 {
        let weeks = if time >= 51 { 52 } else { time as u64 + 1 };
        let due = minimum_repayment(weeks * 2_000 * UNIT);
        let receipts = asset.simulate_timestep(time, params, &commands, &income);
        assert_eq!(receipts, Some(vec![Transaction::Pay(PayReceipt { time, amount: due })]));
        owed -= due;
        assert_eq!(asset.value_at(time), owed);
        assert_eq!(asset.minimum_weekly_repayment(), Some(due));
    }
    assert_eq!(minimum_repayment(52 * 2_000 * UNIT), 120_000_000);
    assert!(owed < 30_000 * UNIT);
}

#[test]
fn a_study_debt_is_indexed_weekly() {
    let commands: HashMap<usize, Vec<Command>> = HashMap::new();
    let income = vec![0u64; 3];
    let mut asset = Asset::with_balance(3, 10_000 * UNIT);
    let params = Params::new(10 * PERCENT);
    asset.simulate_timestep(0, params, &commands, &income);
    assert_eq!(asset.value_at(0), 10_000 * UNIT);
    asset.simulate_timestep(1, params, &commands, &income);
    assert_eq!(asset.value_at(1), 10_018_345_688);
}

#[test]
fn a_voluntary_payment_is_capped_at_the_debt() {
    let mut commands: HashMap<usize, Vec<Command>> = HashMap::new();
    commands.insert(
        0,
        vec![
            Command::Pay(PayCommand { time: 0, amount: 300 }),
            Command::Pay(PayCommand { time: 0, amount: 900 }),
        ],
    );
    let income = vec![0u64; 2];
    let mut asset = Asset::with_balance(2, 1_000);
    let receipts = asset.simulate_timestep(0, Params::new(0), &commands, &income);
    assert_eq!(
        receipts,
        Some(vec![
            Transaction::Pay(PayReceipt { time: 0, amount: 0 }),
            Transaction::Pay(PayReceipt { time: 0, amount: 300 }),
            Transaction::Pay(PayReceipt { time: 0, amount: 700 }),
        ])
    );
    assert_eq!(asset.value_at(0), 0);
    assert_eq!(asset.simulate_timestep(1, Params::new(0), &commands, &income), None);
    assert_eq!(asset.minimum_weekly_repayment(), None);
}

#[test]
fn without_a_debt_nothing_is_repaid() {
    let commands: HashMap<usize, Vec<Command>> = HashMap::new();
    let income = vec![5_000 * UNIT; 3];
    let mut asset = Asset::new(3);
    for time in 0..3 {
        let receipts = asset.simulate_timestep(time, Params::new(3 * PERCENT), &commands, &income);
        assert_eq!(receipts, None);
        assert_eq!(asset.value_at(time), 0);
        assert_eq!(asset.minimum_weekly_repayment(), None);
    }
}

#[test]
fn study_debt_commands_are_read_from_text() {
    assert_eq!(
        Command::new("10 PAY 250"),
        Ok(Command::Pay(PayCommand { time: 10, amount: 250 * UNIT }))
    );
    assert_eq!(Command::new("10 START 250"), Err(ParseError::UnknownCommand));
    assert_eq!(Command::new("10 PAY"), Err(ParseError::MissingField));
    assert_eq!(Command::new("10 PAY ALL"), Err(ParseError::InvalidNumber));
}
