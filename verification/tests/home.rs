use financial_model::fixed::{PERCENT, UNIT};
use financial_model::home::{
    parse_input, Asset, BuyCommand, BuyReceipt, Command, Params, SellCommand, SellReceipt,
    Transaction,
};
use financial_model::parse::{LineError, ParseError};
use std::collections::HashMap;

#[test]
fn a_home_appreciates_from_the_week_after_its_purchase() {
    let mut commands: HashMap<usize, Vec<Command>> = HashMap::new();
    commands.insert(0, vec![Command::Buy(BuyCommand { time: 0, amount: 100_000 * UNIT })]);
    commands.insert(2, vec![Command::Sell(SellCommand { time: 2 })]);
    let mut asset = Asset::new(4);
    let params = Params::new(10 * PERCENT);
    assert_eq!(
        asset.simulate_timestep(0, params, &commands),
        Some(vec![Transaction::Buy(BuyReceipt { time: 0, amount: 100_000 * UNIT })])
    );
    assert_eq!(asset.value_at(0), 100_000 * UNIT);
    assert_eq!(asset.simulate_timestep(1, params, &commands), None);
    assert_eq!(asset.value_at(1), 100_183_456_883);
    let sold = asset.simulate_timestep(2, params, &commands);
    let proceeds = (100_183_456_883u128 * 1_001_834_568_839 / 1_000_000_000_000) as u64;
    assert_eq!(sold, Some(vec![Transaction::Sell(SellReceipt { time: 2, amount: proceeds })]));
    assert_eq!(asset.value_at(2), 0);
    assert_eq!(asset.simulate_timestep(3, params, &commands), None);
    assert_eq!(asset.value_at(3), 0);
}

#[test]
fn home_commands_of_a_week_apply_in_order() {
    let mut commands: HashMap<usize, Vec<Command>> = HashMap::new();
    commands.insert(
        0,
        vec![
            Command::Buy(BuyCommand { time: 0, amount: 5 }),
            Command::Buy(BuyCommand { time: 0, amount: 6 }),
            Command::Sell(SellCommand { time: 0 }),
            Command::Buy(BuyCommand { time: 0, amount: 7 }),
        ],
    );
    let mut asset = Asset::new(1);
    assert_eq!(
        asset.simulate_timestep(0, Params::new(0), &commands),
        Some(vec![
            Transaction::Buy(BuyReceipt { time: 0, amount: 5 }),
            Transaction::Buy(BuyReceipt { time: 0, amount: 6 }),
            Transaction::Sell(SellReceipt { time: 0, amount: 11 }),
            Transaction::Buy(BuyReceipt { time: 0, amount: 7 }),
        ])
    );
    assert_eq!(asset.value_at(0), 7);
}

#[test]
fn the_value_of_a_home_is_capped() {
    let mut commands: HashMap<usize, Vec<Command>> = HashMap::new();
    commands.insert(
        0,
        vec![
            Command::Buy(BuyCommand { time: 0, amount: u64::MAX }),
            Command::Buy(BuyCommand { time: 0, amount: 6 }),
        ],
    );
    let mut asset = Asset::new(2);
    asset.simulate_timestep(0, Params::new(0), &commands);
    assert_eq!(asset.value_at(0), u64::MAX);
    asset.simulate_timestep(1, Params::new(50 * PERCENT), &commands);
    assert_eq!(asset.value_at(1), u64::MAX);
}

#[test]
fn a_new_home_is_worth_nothing() {
    let asset = Asset::new(3);
    assert_eq!(asset.num_timesteps(), 3);
    assert_eq!(asset.value_at(0), 0);
    assert_eq!(asset.value_at(2), 0);
}

#[test]
fn home_commands_are_read_from_text() {
    assert_eq!(
        Command::new("0 BUY 750000.00"),
        Ok(Command::Buy(BuyCommand { time: 0, amount: 750_000 * UNIT }))
    );
    assert_eq!(Command::new("104 SELL"), Ok(Command::Sell(SellCommand { time: 104 })));
    assert_eq!(Command::new("104 SELL 5 extra"), Ok(Command::Sell(SellCommand { time: 104 })));
    assert_eq!(Command::new("104 RENT"), Err(ParseError::UnknownCommand));
    assert_eq!(Command::new("104"), Err(ParseError::MissingField));
    assert_eq!(Command::new("0 BUY"), Err(ParseError::MissingField));
    assert_eq!(Command::new("0 BUY ten"), Err(ParseError::InvalidNumber));
    assert_eq!(
        Command::new("99999999999999999999999 SELL"),
        Err(ParseError::InvalidNumber)
    );
}

#[test]
fn a_home_schedule_is_read_from_text() {
    let schedule = parse_input("0 BUY 1\n7 SELL\n7 BUY 2").unwrap();
    assert_eq!(schedule[&0], vec![Command::Buy(BuyCommand { time: 0, amount: UNIT })]);
    assert_eq!(
        schedule[&7],
        vec![
            Command::Sell(SellCommand { time: 7 }),
            Command::Buy(BuyCommand { time: 7, amount: 2 * UNIT })
        ]
    );
    assert_eq!(
        parse_input("0 BUY 1\n7 SELL\n7 BUY").err(),
        Some(LineError { line: 2, error: ParseError::MissingField })
    );
}

#[test]
fn a_home_series_is_written_as_text() {
    let mut commands: HashMap<usize, Vec<Command>> = HashMap::new();
    commands.insert(1, vec![Command::Buy(BuyCommand { time: 1, amount: 1_500_000 })]);
    let mut asset = Asset::new(3);
    for time in 0..3 {
        asset.simulate_timestep(time, Params::new(0), &commands);
    }
    let mut file = Vec::new();
    asset.write_to_file(&mut file);
    assert_eq!(String::from_utf8(file).unwrap(), "0 0.000000\n1 1.500000\n2 1.500000\n");
}
