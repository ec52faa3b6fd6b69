//! The home: a single appreciating holding that can be added to and sold.

use crate::fixed::{cap_u64, open_week, opening, sat_add, weekly_factor, weekly_growth_factor};
use crate::parse::{
    amount_field, fields, get_amount, get_whole, is_keyword, split_fields, views, whole_field,
    FromLine, LineError, ParseError,
};
use crate::schedule::{
    commands_at, lookup, parse_schedule, reads_as, reported, wrap, Timed,
};
use std::collections::HashMap;
use vstd::prelude::*;
use vstd::string::StringSliceAdditionalSpecFns;

verus! {

/// A purchase for a stated amount.
#[derive(Clone, Copy, Debug, PartialEq, Eq, Structural)]
pub struct BuyCommand {
    pub time: usize,
    pub amount: u64,
}

/// A sale of the whole holding.
#[derive(Clone, Copy, Debug, PartialEq, Eq, Structural)]
pub struct SellCommand {
    pub time: usize,
}

/// What can be asked of the home in a week.
#[derive(Clone, Copy, Debug, PartialEq, Eq, Structural)]
pub enum Command {
    Buy(BuyCommand),
    Sell(SellCommand),
}

impl BuyCommand {
    /// The purchase that the fields of a line write: the week first, the amount third.
    pub open spec fn parsed(fields: Seq<Seq<u8>>) -> Result<BuyCommand, ParseError> {
        match whole_field(fields, 0) {
            Err(e) => Err(e),
            Ok(time) => match amount_field(fields, 2) {
                Err(e) => Err(e),
                Ok(amount) => Ok(BuyCommand { time, amount }),
            },
        }
    }

    /// Reads the command from the fields of its line.
    pub fn new(fields: Vec<&[u8]>) -> (r: Result<BuyCommand, ParseError>)
        ensures
            r == BuyCommand::parsed(views(fields@)),
    {
        let time: usize = match get_whole(&fields, 0) {
            Ok(v) => v,
            Err(e) => {
                return Err(e);
            },
        };
        let amount: u64 = match get_amount(&fields, 2) {
            Ok(v) => v,
            Err(e) => {
                return Err(e);
            },
        };
        Ok(BuyCommand { time, amount })
    }
}

impl SellCommand {
    /// The sale that the fields of a line write: the week first.
    pub open spec fn parsed(fields: Seq<Seq<u8>>) -> Result<SellCommand, ParseError> {
        match whole_field(fields, 0) {
            Err(e) => Err(e),
            Ok(time) => Ok(SellCommand { time }),
        }
    }

    /// Reads the command from the fields of its line.
    pub fn new(fields: Vec<&[u8]>) -> (r: Result<SellCommand, ParseError>)
        ensures
            r == SellCommand::parsed(views(fields@)),
    {
        let time: usize = match get_whole(&fields, 0) {
            Ok(v) => v,
            Err(e) => {
                return Err(e);
            },
        };
        Ok(SellCommand { time })
    }
}

impl Command {
    /// The command that the fields of a line write, or why the line is
    /// rejected. The second field is the action: `BUY` or `SELL`.
    pub open spec fn parsed(fields: Seq<Seq<u8>>) -> Result<Command, ParseError> {
        if fields.len() <= 1 {
            Err(ParseError::MissingField)
        } else if fields[1] == "BUY".spec_bytes() {
            match BuyCommand::parsed(fields) {
                Ok(c) => Ok(Command::Buy(c)),
                Err(e) => Err(e),
            }
        } else if fields[1] == "SELL".spec_bytes() {
            match SellCommand::parsed(fields) {
                Ok(c) => Ok(Command::Sell(c)),
                Err(e) => Err(e),
            }
        } else {
            Err(ParseError::UnknownCommand)
        }
    }

    /// Reads a command from a line of text.
    pub fn new(input_line: &str) -> (r: Result<Command, ParseError>)
        ensures
            r == Command::parsed(fields(input_line.spec_bytes())),
    {
        Command::from_line(input_line.as_bytes())
    }
}

impl FromLine for Command {
    open spec fn of_line(line: Seq<u8>) -> Result<Command, ParseError> {
        Command::parsed(fields(line))
    }

    fn from_line(line: &[u8]) -> (r: Result<Command, ParseError>) {
        let fields: Vec<&[u8]> = split_fields(line);
        assert(forall|k: int|
            0 <= k < fields@.len() ==> fields@[k]@ == #[trigger] views(fields@)[k]);
        if fields.len() <= 1 {
            Err(ParseError::MissingField)
        } else if is_keyword(fields[1], "BUY") {
            match BuyCommand::new(fields) {
                Ok(c) => Ok(Command::Buy(c)),
                Err(e) => Err(e),
            }
        } else if is_keyword(fields[1], "SELL") {
            match SellCommand::new(fields) {
                Ok(c) => Ok(Command::Sell(c)),
                Err(e) => Err(e),
            }
        } else {
            Err(ParseError::UnknownCommand)
        }
    }
}

impl Timed for Command {
    open spec fn week(&self) -> usize {
        match self {
            Command::Buy(c) => c.time,
            Command::Sell(c) => c.time,
        }
    }

    fn time(&self) -> (t: usize) {
        match self {
            Command::Buy(c) => c.time,
            Command::Sell(c) => c.time,
        }
    }
}

/// Reads a file of commands, one to a line, into a schedule: each command under
/// its week, in the order of the file. The first line that is rejected, if
/// any, is reported with its position.
pub fn parse_input(text: &str) -> (r: Result<HashMap<usize, Vec<Command>>, LineError>)
    ensures
        reads_as::<Command>(text.spec_bytes(), r),
{
    parse_schedule(text.as_bytes())
}

/// The home's rate of appreciation, as an annual percentage.
#[derive(Clone, Copy, Debug, PartialEq, Eq, Structural)]
pub struct Params {
    pub annual_ror: i32,
}

impl Params {
    /// The parameters that hold the given annual percentage rate.
    pub fn new(annual_ror: i32) -> (params: Params)
        ensures
            params.annual_ror == annual_ror,
    {
        Params { annual_ror }
    }
}

/// A purchase and the amount paid for it.
#[derive(Clone, Copy, Debug, PartialEq, Eq, Structural)]
pub struct BuyReceipt {
    pub time: usize,
    pub amount: u64,
}

impl BuyReceipt {
    /// The receipt for `amount` in week `time`.
    pub fn new(time: usize, amount: u64) -> (receipt: BuyReceipt)
        ensures
            receipt == (BuyReceipt { time, amount }),
    {
        BuyReceipt { time, amount }
    }
}

/// A sale and its proceeds.
#[derive(Clone, Copy, Debug, PartialEq, Eq, Structural)]
pub struct SellReceipt {
    pub time: usize,
    pub amount: u64,
}

impl SellReceipt {
    /// The receipt for `amount` in week `time`.
    pub fn new(time: usize, amount: u64) -> (receipt: SellReceipt)
        ensures
            receipt == (SellReceipt { time, amount }),
    {
        SellReceipt { time, amount }
    }
}

/// One effect of a simulated week on the home.
#[derive(Clone, Copy, Debug, PartialEq, Eq, Structural)]
pub enum Transaction {
    Buy(BuyReceipt),
    Sell(SellReceipt),
}

/// The value and the receipts that one command leaves.
pub open spec fn apply_command(value: u64, time: usize, command: Command) -> (
    u64,
    Seq<Transaction>,
) {
    match command {
        Command::Buy(c) => (
            cap_u64(value + c.amount) as u64,
            seq![Transaction::Buy(BuyReceipt { time, amount: c.amount })],
        ),
        Command::Sell(_) => (0, seq![Transaction::Sell(SellReceipt { time, amount: value })]),
    }
}

/// The value and the receipts that a week's commands leave, applied in
/// schedule order.
pub open spec fn after_commands(value: u64, time: usize, commands: Seq<Command>) -> (
    u64,
    Seq<Transaction>,
)
    decreases commands.len(),
{
    if commands.len() == 0 {
        (value, Seq::empty())
    } else {
        let before = after_commands(value, time, commands.drop_last());
        let last = apply_command(before.0, time, commands.last());
        (last.0, before.1 + last.1)
    }
}

/// The series and the receipts that simulating week `time` leaves: the
/// previous week's value appreciates by one week (nothing appreciates in week
/// 0), then the week's commands are applied in schedule order. The week's
/// closing value depends on nothing but the previous week's and the week's
/// commands.
pub open spec fn step(
    values: Seq<u64>,
    time: usize,
    params: Params,
    commands: Map<usize, Vec<Command>>,
) -> (Seq<u64>, Seq<Transaction>) {
    let start = opening(values, time, weekly_factor(params.annual_ror));
    let after = after_commands(start, time, commands_at(commands, time));
    (values.update(time as int, after.0), after.1)
}

/// The home: its value week by week.
pub struct Asset {
    value: Vec<u64>,
}

impl View for Asset {
    type V = Seq<u64>;

    /// The home's closing value at each week simulated so far; zero elsewhere.
    closed spec fn view(&self) -> Seq<u64> {
        self.value@
    }
}

impl Asset {
    /// The home's closing value at each week simulated so far; zero elsewhere.
    pub open spec fn values(&self) -> Seq<u64> {
        self@
    }

    /// A home of no value over a horizon of `num_timesteps` weeks.
    pub fn new(num_timesteps: usize) -> (asset: Asset)
        ensures
            asset.values() == Seq::new(num_timesteps as nat, |i: int| 0u64),
    {
        let value: Vec<u64> = vec![0u64; num_timesteps];
        assert(value@ =~= Seq::new(num_timesteps as nat, |i: int| 0u64));
        Asset { value }
    }

    /// The home's value at week `time`.
    pub fn value_at(&self, time: usize) -> (v: u64)
        requires
            time < self.values().len(),
        ensures
            v == self.values()[time as int],
    {
        self.value[time]
    }

    /// Writes the series to `file`, which holds the text of the output file:
    /// one line for each week of the horizon.
    pub fn write_to_file(&self, file: &mut Vec<u8>)
        ensures
            final(file)@ == old(file)@ + crate::report::series_text(self.values()),
    {
        crate::report::write_series(file, &self.value);
    }

    /// The number of weeks in the horizon.
    pub fn num_timesteps(&self) -> (n: usize)
        ensures
            n == self.values().len(),
    {
        self.value.len()
    }

    /// Simulates week `time`: the previous week's value appreciates by one
    /// week (nothing appreciates in week 0), then the week's commands are
    /// applied in schedule order. Returns the receipts of the commands, in
    /// order.
    pub fn simulate_timestep(
        &mut self,
        time: usize,
        params: Params,
        commands: &HashMap<usize, Vec<Command>>,
    ) -> (receipts: Option<Vec<Transaction>>)
        requires
            time < old(self).values().len(),
        ensures
            final(self)@ == step(old(self)@, time, params, commands@).0,
            reported(receipts, step(old(self)@, time, params, commands@).1),
    {
        let factor: u64 = weekly_growth_factor(params.annual_ror);
        let start: u64 = open_week(&self.value, time, factor);
        let mut value: u64 = start;
        let mut receipts: Vec<Transaction> = Vec::new();
        if let Some(list) = lookup(commands, time) {
            let mut i: usize = 0;
            while i < list.len()
                invariant
                    i <= list@.len(),
                    value == after_commands(start, time, list@.take(i as int)).0,
                    receipts@ == after_commands(start, time, list@.take(i as int)).1,
                decreases list@.len() - i,
            {
                assert(list@.take(i + 1).drop_last() =~= list@.take(i as int));
                match &list[i] {
                    Command::Buy(c) => {
                        value = sat_add(value, c.amount);
                        receipts.push(Transaction::Buy(BuyReceipt::new(time, c.amount)));
                    },
                    Command::Sell(_) => {
                        receipts.push(Transaction::Sell(SellReceipt::new(time, value)));
                        value = 0;
                    },
                }
                assert(receipts@ =~= after_commands(start, time, list@.take(i + 1)).1);
                i += 1;
            }
            assert(list@.take(list@.len() as int) =~= list@);
        }
        self.value[time] = value;
        wrap(receipts)
    }
}

} // verus!
