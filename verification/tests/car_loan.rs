use financial_model::car_loan::{
    parse_input, Asset, Command, Params, PayReceipt, StartCommand, Transaction,
};
use financial_model::fixed::{scale, weekly_growth_factor, PERCENT, UNIT};
use financial_model::loan::minimum_repayment;
use financial_model::parse::ParseError;
use std::collections::HashMap;

#[test]
fn the_balloon_is_paid_once_at_its_due_week() {
    let start = 3;
    let due = start + 52;
    let mut commands: HashMap<usize, Vec<Command>> = HashMap::new();
    commands.insert(
        start,
        vec![Command::Start(StartCommand {
            time: start,
            amount: 20_000 * UNIT,
            balloon_payment: 5_000 * UNIT,
            duration: 1,
        })],
    );
    let weeks = 70;
    let params = Params::new(6 * PERCENT);
    let factor = weekly_growth_factor(6 * PERCENT);
    let regular = minimum_repayment(20_000 * UNIT, 6 * PERCENT, 1);
    let mut asset = Asset::new(weeks);
    let mut balloon = 5_000 * UNIT;
    let mut balloon_receipts = 0;
    for time in 0..weeks {
        let receipts = asset.simulate_timestep(time, params, &commands);
        if time <= start {
            assert_eq!(receipts, None);
            continue;
        }
        balloon = scale(balloon, factor);
        let list = receipts.unwrap_or_default();
        if time == due {
            assert_eq!(list[0], Transaction::Pay(PayReceipt { time, amount: balloon }));
            assert!(balloon > 5_000 * UNIT);
            balloon_receipts += 1;
            assert_eq!(asset.balloon_at(time), 0);
            assert_eq!(asset.balloon_payment_time(), None);
            balloon = 0;
            assert!(list.len() <= 2);
        } else {
            assert_eq!(asset.balloon_at(time), balloon);
            assert!(list.len() <= 1);
            for receipt in &list {
                let Transaction::Pay(r) = receipt;
                assert!(r.amount <= regular);
                assert_eq!(r.time, time);
            }
            if time < due {
                assert_eq!(asset.balloon_payment_time(), Some(due));
            }
        }
        assert_eq!(asset.owed_at(time), asset.value_at(time) + asset.balloon_at(time));
    }
    assert_eq!(balloon_receipts, 1);
    assert_eq!(asset.value_at(weeks - 1), 0);
    assert_eq!(asset.minimum_weekly_repayment(), None);
}

#[test]
fn a_car_loan_starts_without_a_receipt() {
    let mut commands: HashMap<usize, Vec<Command>> = HashMap::new();
    commands.insert(
        0,
        vec![Command::Start(StartCommand {
            time: 0,
            amount: 1_040,
            balloon_payment: 77,
            duration: 1,
        })],
    );
    let mut asset = Asset::new(3);
    assert_eq!(asset.simulate_timestep(0, Params::new(0), &commands), None);
    assert_eq!(asset.value_at(0), 1_040);
    assert_eq!(asset.balloon_at(0), 77);
    assert_eq!(asset.balloon_payment_time(), Some(52));
    assert_eq!(asset.minimum_weekly_repayment(), Some(20));
    assert_eq!(
        asset.simulate_timestep(1, Params::new(0), &commands),
        Some(vec![Transaction::Pay(PayReceipt { time: 1, amount: 20 })])
    );
    assert_eq!(asset.value_at(1), 1_020);
    assert_eq!(asset.balloon_at(1), 77);
}

#[test]
fn a_balloon_beyond_the_largest_week_never_falls_due() {
    let mut commands: HashMap<usize, Vec<Command>> = HashMap::new();
    commands.insert(
        1,
        vec![Command::Start(StartCommand {
            time: 1,
            amount: 10,
            balloon_payment: 5,
            duration: usize::MAX,
        })],
    );
    let mut asset = Asset::new(3);
    asset.simulate_timestep(0, Params::new(0), &commands);
    asset.simulate_timestep(1, Params::new(0), &commands);
    assert_eq!(asset.balloon_payment_time(), Some(usize::MAX));
    asset.simulate_timestep(2, Params::new(0), &commands);
    assert_eq!(asset.balloon_at(2), 5);
}

#[test]
fn car_loan_commands_are_read_from_text() {
    assert_eq!(
        Command::new("52 START 20000.0 5.5 4"),
        Ok(Command::Start(StartCommand {
            time: 52,
            amount: 20_000 * UNIT,
            balloon_payment: 5_500_000,
            duration: 4
        }))
    );
    assert_eq!(Command::new("52 PAY 1"), Err(ParseError::UnknownCommand));
    assert_eq!(Command::new("52 START 20000.0 5.5"), Err(ParseError::MissingField));
    assert_eq!(Command::new("52 START 20000.0 5.5 4.0"), Err(ParseError::InvalidNumber));
    let schedule = parse_input("52 START 20000.0 5.5 4\n").unwrap();
    assert_eq!(schedule[&52].len(), 1);
}

#[test]
fn a_car_loan_series_holds_balance_and_balloon() {
    let mut commands: HashMap<usize, Vec<Command>> = HashMap::new();
    commands.insert(
        0,
        vec![Command::Start(StartCommand {
            time: 0,
            amount: 2_000_000,
            balloon_payment: 500_000,
            duration: 0,
        })],
    );
    let mut asset = Asset::new(2);
    asset.simulate_timestep(0, Params::new(0), &commands);
    asset.simulate_timestep(1, Params::new(0), &commands);
    let mut file = Vec::new();
    asset.write_to_file(&mut file);
    assert_eq!(String::from_utf8(file).unwrap(), "0 2.500000\n1 0.500000\n");
}
