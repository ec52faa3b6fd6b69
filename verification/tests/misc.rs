use financial_model::fixed::UNIT;
use financial_model::misc::parse_input;
use financial_model::params::{parse_params_file, RateTable, Rates};
use financial_model::parse::{LineError, ParseError};
use financial_model::schedule::{build_schedule, lookup, wrap, Timed};
use financial_model::shares::{BuyCommand, Command, SellCommand};

#[test]
fn weekly_entries_add_up() {
    let totals = parse_input("0 100\n2 50.5\n0 0.25\n\n2 1", 4);
    assert_eq!(
        totals,
        Err(LineError { line: 3, error: ParseError::MissingField })
    );
    let totals = parse_input("0 100\r\n2 50.5\n0 0.25\n\r2 1\n", 4).unwrap();
    assert_eq!(totals, vec![100_250_000, 0, 51_500_000, 0]);
    assert_eq!(parse_input("", 2).unwrap(), vec![0, 0]);
    assert_eq!(parse_input("", 0).unwrap(), Vec::<u64>::new());
}

#[test]
fn weekly_entries_are_capped() {
    let totals = parse_input("1 18446744073709.551615\n1 0.000001", 2).unwrap();
    assert_eq!(totals, vec![0, u64::MAX]);
}

#[test]
fn an_entry_beyond_the_horizon_is_rejected() {
    assert_eq!(
        parse_input("0 1\n4 1\n", 4),
        Err(LineError { line: 1, error: ParseError::WeekOutOfRange })
    );
    assert_eq!(
        parse_input("0 1\n4 x\n", 4),
        Err(LineError { line: 1, error: ParseError::InvalidNumber })
    );
    assert_eq!(
        parse_input("0 1\n3\n", 4),
        Err(LineError { line: 1, error: ParseError::MissingField })
    );
    assert_eq!(
        parse_input("0", 0),
        Err(LineError { line: 0, error: ParseError::MissingField })
    );
}

#[test]
fn rates_are_read_by_name() {
    let text = "HOME_APPRECIATION_RATE 3.5\nHOME_LOAN_INTEREST_RATE 6\nCAR_LOAN_INTEREST_RATE 8\n\
                HECS_INDEXATION_RATE 2\nSHARES_ROR 7\nSUPER_ROR 7.5\nINFLATION_RATE 3\n\
                SOMETHING_ELSE 1\nSHARES_ROR 9\n";
    let table = parse_params_file(text).unwrap();
    assert_eq!(
        table.rates(),
        Some(Rates {
            home_appreciation_rate: 3_500_000,
            home_loan_interest_rate: 6_000_000,
            car_loan_interest_rate: 8_000_000,
            hecs_indexation_rate: 2_000_000,
            shares_ror: 9_000_000,
            super_ror: 7_500_000,
            inflation_rate: 3_000_000,
        })
    );
}

#[test]
fn a_rate_may_be_below_zero() {
    let table = parse_params_file("INFLATION_RATE -1.5\nSHARES_ROR -7\n").unwrap();
    assert_eq!(table.inflation_rate, Some(-1_500_000));
    assert_eq!(table.shares_ror, Some(-7_000_000));
}

#[test]
fn a_missing_rate_leaves_the_table_incomplete() {
    let table = parse_params_file("SHARES_ROR 7\n").unwrap();
    assert_eq!(
        table,
        RateTable {
            home_appreciation_rate: None,
            home_loan_interest_rate: None,
            car_loan_interest_rate: None,
            hecs_indexation_rate: None,
            shares_ror: Some(7_000_000),
            super_ror: None,
            inflation_rate: None,
        }
    );
    assert_eq!(table.rates(), None);
    assert_eq!(parse_params_file("").unwrap().rates(), None);
}

#[test]
fn a_bad_rate_line_is_rejected() {
    assert_eq!(
        parse_params_file("SHARES_ROR 7\nSUPER_ROR\n"),
        Err(LineError { line: 1, error: ParseError::MissingField })
    );
    assert_eq!(
        parse_params_file("SHARES_ROR 7\n\nSUPER_ROR 1\n"),
        Err(LineError { line: 1, error: ParseError::MissingField })
    );
    assert_eq!(
        parse_params_file("UNKNOWN x\n"),
        Err(LineError { line: 0, error: ParseError::InvalidNumber })
    );
    assert_eq!(
        parse_params_file("SHARES_ROR --7\n"),
        Err(LineError { line: 0, error: ParseError::InvalidNumber })
    );
}

#[test]
fn a_schedule_groups_commands_by_week() {
    let commands = vec![
        Command::Buy(BuyCommand { time: 5, amount: 1 }),
        Command::Sell(SellCommand { time: 2, amount: 2 }),
        Command::Buy(BuyCommand { time: 5, amount: 3 }),
    ];
    assert_eq!(commands[1].time(), 2);
    let schedule = build_schedule(&commands);
    assert_eq!(schedule.len(), 2);
    assert_eq!(lookup(&schedule, 5), Some(&vec![commands[0], commands[2]]));
    assert_eq!(lookup(&schedule, 2), Some(&vec![commands[1]]));
    assert_eq!(lookup(&schedule, 3), None);
}

#[test]
fn no_receipts_are_handed_out_as_none() {
    assert_eq!(wrap(Vec::<u64>::new()), None);
    assert_eq!(wrap(vec![UNIT]), Some(vec![UNIT]));
}
