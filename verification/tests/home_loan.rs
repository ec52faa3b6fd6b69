use financial_model::fixed::{scale, weekly_growth_factor, PERCENT, UNIT};
use financial_model::home_loan::{
    Asset, Command, Params, PayAllCommand, PayCommand, PayReceipt, StartAllCommand, StartCommand,
    StartReceipt, Transaction,
};
use financial_model::loan::minimum_repayment;
use financial_model::parse::ParseError;
use std::collections::HashMap;

#[test]
fn a_home_loan_is_paid_off_in_the_last_week_of_its_term() {
    let mut commands: HashMap<usize, Vec<Command>> = HashMap::new();
    commands.insert(
        0,
        vec![Command::Start(StartCommand { time: 0, amount: 500_000 * UNIT, duration: 30 })],
    );
    let weeks = 30 * 52 + 3;
    let cash = vec![0i64; weeks];
    let mut asset = Asset::new(weeks);
    let params = Params::new(4 * PERCENT);
    let started = asset.simulate_timestep(0, params, &commands, &cash);
    assert_eq!(
        started,
        Some(vec![Transaction::Start(StartReceipt { time: 0, amount: 500_000 * UNIT })])
    );
    assert_eq!(asset.value_at(0), 500_000 * UNIT);
    let regular = minimum_repayment(500_000 * UNIT, 4 * PERCENT, 30);
    assert_eq!(regular, 545_431_085);
    assert_eq!(asset.minimum_weekly_repayment(), Some(regular));
    let factor = weekly_growth_factor(4 * PERCENT);
    for time in 1..weeks {
        let before = asset.value_at(time - 1);
        let receipts = asset.simulate_timestep(time, params, &commands, &cash);
        let after = asset.value_at(time);
        if time < 30 * 52 {
            let paid = Transaction::Pay(PayReceipt { time, amount: regular });
            assert_eq!(receipts, Some(vec![paid]));
            assert_eq!(after, scale(before, factor) - regular);
            assert!(after > 0);
            assert!(after < before);
            assert_eq!(asset.minimum_weekly_repayment(), Some(regular));
        } else if time == 30 * 52 {
            assert!(before > UNIT);
            let last = scale(before, factor);
            assert!(0 < last && last <= regular);
            assert_eq!(last, 545_427_521);
            assert_eq!(receipts, Some(vec![Transaction::Pay(PayReceipt { time, amount: last })]));
            assert_eq!(after, 0);
            assert_eq!(asset.minimum_weekly_repayment(), None);
        } else {
            assert_eq!(receipts, None);
            assert_eq!(after, 0);
        }
    }
    assert_eq!(asset.value_at(1), 499_831_833_414);
    assert_eq!(asset.value_at(30 * 52 - 1), 545_016_291);
}

#[test]
fn an_extra_payment_is_capped_at_the_balance() {
    let mut commands: HashMap<usize, Vec<Command>> = HashMap::new();
    commands.insert(
        0,
        vec![
            Command::Start(StartCommand { time: 0, amount: 1_000, duration: 1 }),
            Command::Pay(PayCommand { time: 0, amount: 400 }),
            Command::Pay(PayCommand { time: 0, amount: 700 }),
            Command::Pay(PayCommand { time: 0, amount: 5 }),
        ],
    );
    let cash = vec![0i64; 2];
    let mut asset = Asset::new(2);
    let receipts = asset.simulate_timestep(0, Params::new(0), &commands, &cash);
    assert_eq!(
        receipts,
        Some(vec![
            Transaction::Start(StartReceipt { time: 0, amount: 1_000 }),
            Transaction::Pay(PayReceipt { time: 0, amount: 400 }),
            Transaction::Pay(PayReceipt { time: 0, amount: 600 }),
            Transaction::Pay(PayReceipt { time: 0, amount: 0 }),
        ])
    );
    assert_eq!(asset.value_at(0), 0);
    assert_eq!(asset.minimum_weekly_repayment(), None);
    assert_eq!(asset.simulate_timestep(1, Params::new(0), &commands, &cash), None);
    assert_eq!(asset.value_at(1), 0);
}

#[test]
fn an_extra_payment_leaves_the_repayment_in_force_while_anything_is_owed() {
    let mut commands: HashMap<usize, Vec<Command>> = HashMap::new();
    commands.insert(
        0,
        vec![
            Command::Start(StartCommand { time: 0, amount: 1_040, duration: 1 }),
            Command::Pay(PayCommand { time: 0, amount: 1_000 }),
        ],
    );
    let cash = vec![0i64; 4];
    let mut asset = Asset::new(4);
    asset.simulate_timestep(0, Params::new(0), &commands, &cash);
    assert_eq!(asset.value_at(0), 40);
    assert_eq!(asset.minimum_weekly_repayment(), Some(20));
    assert_eq!(
        asset.simulate_timestep(1, Params::new(0), &commands, &cash),
        Some(vec![Transaction::Pay(PayReceipt { time: 1, amount: 20 })])
    );
    assert_eq!(
        asset.simulate_timestep(2, Params::new(0), &commands, &cash),
        Some(vec![Transaction::Pay(PayReceipt { time: 2, amount: 20 })])
    );
    assert_eq!(asset.minimum_weekly_repayment(), None);
    assert_eq!(asset.simulate_timestep(3, Params::new(0), &commands, &cash), None);
}

#[test]
fn a_home_loan_at_falling_interest_shrinks_by_itself() {
    let mut commands: HashMap<usize, Vec<Command>> = HashMap::new();
    commands.insert(
        0,
        vec![Command::Start(StartCommand { time: 0, amount: 1_040 * UNIT, duration: 1 })],
    );
    let cash = vec![0i64; 3];
    let mut asset = Asset::new(3);
    let params = Params::new(-10 * PERCENT);
    asset.simulate_timestep(0, params, &commands, &cash);
    assert_eq!(asset.minimum_weekly_repayment(), Some(18_945_693));
    asset.simulate_timestep(1, params, &commands, &cash);
    let grown = (1_040 * UNIT as u128 * 997_975_887_522 / 1_000_000_000_000) as u64;
    assert!(grown < 1_040 * UNIT);
    assert_eq!(asset.value_at(1), grown - 18_945_693);
}

#[test]
fn all_cash_commands_read_the_ledger_of_the_week() {
    let mut commands: HashMap<usize, Vec<Command>> = HashMap::new();
    commands.insert(1, vec![Command::StartAll(StartAllCommand { time: 1, duration: 2 })]);
    commands.insert(2, vec![Command::PayAll(PayAllCommand { time: 2 })]);
    commands.insert(3, vec![Command::PayAll(PayAllCommand { time: 3 })]);
    let cash = vec![9i64, 50_000, 20_000, 1_000_000];
    let mut asset = Asset::new(4);
    let params = Params::new(0);
    assert_eq!(asset.simulate_timestep(0, params, &commands, &cash), None);
    assert_eq!(
        asset.simulate_timestep(1, params, &commands, &cash),
        Some(vec![Transaction::Start(StartReceipt { time: 1, amount: 50_000 })])
    );
    let regular = minimum_repayment(50_000, 0, 2);
    assert_eq!(regular, 481);
    assert_eq!(
        asset.simulate_timestep(2, params, &commands, &cash),
        Some(vec![
            Transaction::Pay(PayReceipt { time: 2, amount: regular }),
            Transaction::Pay(PayReceipt { time: 2, amount: 20_000 }),
        ])
    );
    assert_eq!(asset.value_at(2), 30_000 - regular);
    assert_eq!(
        asset.simulate_timestep(3, params, &commands, &cash),
        Some(vec![
            Transaction::Pay(PayReceipt { time: 3, amount: regular }),
            Transaction::Pay(PayReceipt { time: 3, amount: 30_000 - 2 * regular }),
        ])
    );
    assert_eq!(asset.value_at(3), 0);
}

#[test]
fn a_loan_of_all_cash_from_a_deficit_is_a_loan_of_nothing() {
    let mut commands: HashMap<usize, Vec<Command>> = HashMap::new();
    commands.insert(
        0,
        vec![
            Command::StartAll(StartAllCommand { time: 0, duration: 2 }),
            Command::PayAll(PayAllCommand { time: 0 }),
        ],
    );
    let mut asset = Asset::new(1);
    assert_eq!(
        asset.simulate_timestep(0, Params::new(5 * PERCENT), &commands, &vec![-70i64]),
        Some(vec![
            Transaction::Start(StartReceipt { time: 0, amount: 0 }),
            Transaction::Pay(PayReceipt { time: 0, amount: 0 }),
        ])
    );
    assert_eq!(asset.value_at(0), 0);
}

#[test]
fn home_loan_commands_are_read_from_text() {
    assert_eq!(
        Command::new("52 START 20000.0 4"),
        Ok(Command::Start(StartCommand { time: 52, amount: 20_000 * UNIT, duration: 4 }))
    );
    assert_eq!(
        Command::new("52 START ALL 30"),
        Ok(Command::StartAll(StartAllCommand { time: 52, duration: 30 }))
    );
    assert_eq!(
        Command::new("60 PAY 12.5"),
        Ok(Command::Pay(PayCommand { time: 60, amount: 12_500_000 }))
    );
    assert_eq!(Command::new("60 PAY ALL"), Ok(Command::PayAll(PayAllCommand { time: 60 })));
    assert_eq!(Command::new("60 STOP"), Err(ParseError::UnknownCommand));
    assert_eq!(Command::new("60 START"), Err(ParseError::MissingField));
    assert_eq!(Command::new("60 PAY"), Err(ParseError::MissingField));
    assert_eq!(Command::new("60 START 5"), Err(ParseError::MissingField));
    assert_eq!(Command::new("60 START ALL"), Err(ParseError::MissingField));
    assert_eq!(Command::new("60 START 5 2.5"), Err(ParseError::InvalidNumber));
    assert_eq!(Command::new("60 PAY all"), Err(ParseError::InvalidNumber));
}

#[test]
fn the_all_cash_loan_commands_are_built_from_their_fields() {
    let fields: Vec<&[u8]> = vec![b"7", b"START", b"ALL", b"25"];
    assert_eq!(StartAllCommand::new(fields), Ok(StartAllCommand { time: 7, duration: 25 }));
    let fields: Vec<&[u8]> = vec![b"7", b"START", b"ALL"];
    assert_eq!(StartAllCommand::new(fields), Err(ParseError::MissingField));
    let fields: Vec<&[u8]> = vec![b"7", b"START", b"ALL", b"x"];
    assert_eq!(StartAllCommand::new(fields), Err(ParseError::InvalidNumber));
    let fields: Vec<&[u8]> = vec![b"+8", b"PAY", b"ALL"];
    assert_eq!(PayAllCommand::new(fields), Ok(PayAllCommand { time: 8 }));
    let fields: Vec<&[u8]> = vec![b"", b"PAY", b"ALL"];
    assert_eq!(PayAllCommand::new(fields), Err(ParseError::InvalidNumber));
}
