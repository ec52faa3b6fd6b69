//! The home loan: an amortizing liability with a level minimum repayment.

use crate::fixed::{available, available_cash, open_week, opening, weekly_factor,
    weekly_growth_factor};
use crate::loan::{annuity, minimum_repayment, pay_down, run_on, settle, settled, Debt};
use crate::parse::{
    amount_field, fields, get_amount, get_whole, is_keyword, split_fields, views, whole_field,
    FromLine, LineError, ParseError,
};
use crate::schedule::{
    commands_at, lookup, parse_schedule, reads_as, reported, wrap, Timed,
};
use std::collections::HashMap;
use vstd::prelude::*;
use vstd::string::StringSliceAdditionalSpecFns;

verus! {

/// Takes out a loan of a stated amount over a term of `duration` years.
#[derive(Clone, Copy, Debug, PartialEq, Eq, Structural)]
pub struct StartCommand {
    pub time: usize,
    pub amount: u64,
    pub duration: usize,
}

/// Takes out a loan of all available cash over a term of `duration` years.
#[derive(Clone, Copy, Debug, PartialEq, Eq, Structural)]
pub struct StartAllCommand {
    pub time: usize,
    pub duration: usize,
}

/// An extra payment of a stated amount.
#[derive(Clone, Copy, Debug, PartialEq, Eq, Structural)]
pub struct PayCommand {
    pub time: usize,
    pub amount: u64,
}

/// An extra payment of all available cash.
#[derive(Clone, Copy, Debug, PartialEq, Eq, Structural)]
pub struct PayAllCommand {
    pub time: usize,
}

/// What can be asked of the home loan in a week.
#[derive(Clone, Copy, Debug, PartialEq, Eq, Structural)]
pub enum Command {
    Start(StartCommand),
    StartAll(StartAllCommand),
    Pay(PayCommand),
    PayAll(PayAllCommand),
}

impl StartCommand {
    /// The loan that the fields of a line write: the week first, the amount
    /// third, the term in years fourth.
    pub open spec fn parsed(fields: Seq<Seq<u8>>) -> Result<StartCommand, ParseError> {
        match whole_field(fields, 0) {
            Err(e) => Err(e),
            Ok(time) => match amount_field(fields, 2) {
                Err(e) => Err(e),
                Ok(amount) => match whole_field(fields, 3) {
                    Err(e) => Err(e),
                    Ok(duration) => Ok(StartCommand { time, amount, duration }),
                },
            },
        }
    }

    /// Reads the command from the fields of its line.
    pub fn new(fields: Vec<&[u8]>) -> (r: Result<StartCommand, ParseError>)
        ensures
            r == StartCommand::parsed(views(fields@)),
    {
        let time: usize = match get_whole(&fields, 0) {
            Ok(v) => v,
            Err(e) => {
                return Err(e);
            },
        };
        let amount: u64 = match get_amount(&fields, 2) {
            Ok(v) => v,
            Err(e) => {
                return Err(e);
            },
        };
        let duration: usize = match get_whole(&fields, 3) {
            Ok(v) => v,
            Err(e) => {
                return Err(e);
            },
        };
        Ok(StartCommand { time, amount, duration })
    }
}

impl StartAllCommand {
    /// The loan that the fields of a line write: the week first, the term in years fourth.
    pub open spec fn parsed(fields: Seq<Seq<u8>>) -> Result<StartAllCommand, ParseError> {
        match whole_field(fields, 0) {
            Err(e) => Err(e),
            Ok(time) => match whole_field(fields, 3) {
                Err(e) => Err(e),
                Ok(duration) => Ok(StartAllCommand { time, duration }),
            },
        }
    }

    /// Reads the command from the fields of its line.
    pub fn new(fields: Vec<&[u8]>) -> (r: Result<StartAllCommand, ParseError>)
        ensures
            r == StartAllCommand::parsed(views(fields@)),
    {
        let time: usize = match get_whole(&fields, 0) {
            Ok(v) => v,
            Err(e) => {
                return Err(e);
            },
        };
        let duration: usize = match get_whole(&fields, 3) {
            Ok(v) => v,
            Err(e) => {
                return Err(e);
            },
        };
        Ok(StartAllCommand { time, duration })
    }
}

impl PayCommand {
    /// The payment that the fields of a line write: the week first, the amount third.
    pub open spec fn parsed(fields: Seq<Seq<u8>>) -> Result<PayCommand, ParseError> {
        match whole_field(fields, 0) {
            Err(e) => Err(e),
            Ok(time) => match amount_field(fields, 2) {
                Err(e) => Err(e),
                Ok(amount) => Ok(PayCommand { time, amount }),
            },
        }
    }

    /// Reads the command from the fields of its line.
    pub fn new(fields: Vec<&[u8]>) -> (r: Result<PayCommand, ParseError>)
        ensures
            r == PayCommand::parsed(views(fields@)),
    {
        let time: usize = match get_whole(&fields, 0) {
            Ok(v) => v,
            Err(e) => {
                return Err(e);
            },
        };
        let amount: u64 = match get_amount(&fields, 2) {
            Ok(v) => v,
            Err(e) => {
                return Err(e);
            },
        };
        Ok(PayCommand { time, amount })
    }
}

impl PayAllCommand {
    /// The payment that the fields of a line write: the week first.
    pub open spec fn parsed(fields: Seq<Seq<u8>>) -> Result<PayAllCommand, ParseError> {
        match whole_field(fields, 0) {
            Err(e) => Err(e),
            Ok(time) => Ok(PayAllCommand { time }),
        }
    }

    /// Reads the command from the fields of its line.
    pub fn new(fields: Vec<&[u8]>) -> (r: Result<PayAllCommand, ParseError>)
        ensures
            r == PayAllCommand::parsed(views(fields@)),
    {
        let time: usize = match get_whole(&fields, 0) {
            Ok(v) => v,
            Err(e) => {
                return Err(e);
            },
        };
        Ok(PayAllCommand { time })
    }
}

impl Command {
    /// The command that the fields of a line write, or why the line is
    /// rejected. The second field is the action, `START` or `PAY`; `ALL` in
    /// the third field, in place of an amount, asks for all available cash.
    pub open spec fn parsed(fields: Seq<Seq<u8>>) -> Result<Command, ParseError> {
        if fields.len() <= 1 {
            Err(ParseError::MissingField)
        } else if fields[1] == "START".spec_bytes() {
            if fields.len() <= 2 {
                Err(ParseError::MissingField)
            } else if fields[2] == "ALL".spec_bytes() {
                match StartAllCommand::parsed(fields) {
                    Ok(c) => Ok(Command::StartAll(c)),
                    Err(e) => Err(e),
                }
            } else {
                match StartCommand::parsed(fields) {
                    Ok(c) => Ok(Command::Start(c)),
                    Err(e) => Err(e),
                }
            }
        } else if fields[1] == "PAY".spec_bytes() {
            if fields.len() <= 2 {
                Err(ParseError::MissingField)
            } else if fields[2] == "ALL".spec_bytes() {
                match PayAllCommand::parsed(fields) {
                    Ok(c) => Ok(Command::PayAll(c)),
                    Err(e) => Err(e),
                }
            } else {
                match PayCommand::parsed(fields) {
                    Ok(c) => Ok(Command::Pay(c)),
                    Err(e) => Err(e),
                }
            }
        } else {
            Err(ParseError::UnknownCommand)
        }
    }

    /// Reads a command from a line of text.
    pub fn new(input_line: &str) -> (r: Result<Command, ParseError>)
        ensures
            r == Command::parsed(fields(input_line.spec_bytes())),
    {
        Command::from_line(input_line.as_bytes())
    }
}

impl FromLine for Command {
    open spec fn of_line(line: Seq<u8>) -> Result<Command, ParseError> {
        Command::parsed(fields(line))
    }

    fn from_line(line: &[u8]) -> (r: Result<Command, ParseError>) {
        let fields: Vec<&[u8]> = split_fields(line);
        assert(forall|k: int|
            0 <= k < fields@.len() ==> fields@[k]@ == #[trigger] views(fields@)[k]);
        if fields.len() <= 1 {
            Err(ParseError::MissingField)
        } else if is_keyword(fields[1], "START") {
            if fields.len() <= 2 {
                Err(ParseError::MissingField)
            } else if is_keyword(fields[2], "ALL") {
                match StartAllCommand::new(fields) {
                    Ok(c) => Ok(Command::StartAll(c)),
                    Err(e) => Err(e),
                }
            } else {
                match StartCommand::new(fields) {
                    Ok(c) => Ok(Command::Start(c)),
                    Err(e) => Err(e),
                }
            }
        } else if is_keyword(fields[1], "PAY") {
            if fields.len() <= 2 {
                Err(ParseError::MissingField)
            } else if is_keyword(fields[2], "ALL") {
                match PayAllCommand::new(fields) {
                    Ok(c) => Ok(Command::PayAll(c)),
                    Err(e) => Err(e),
                }
            } else {
                match PayCommand::new(fields) {
                    Ok(c) => Ok(Command::Pay(c)),
                    Err(e) => Err(e),
                }
            }
        } else {
            Err(ParseError::UnknownCommand)
        }
    }
}

impl Timed for Command {
    open spec fn week(&self) -> usize {
        match self {
            Command::Start(c) => c.time,
            Command::StartAll(c) => c.time,
            Command::Pay(c) => c.time,
            Command::PayAll(c) => c.time,
        }
    }

    fn time(&self) -> (t: usize) {
        match self {
            Command::Start(c) => c.time,
            Command::StartAll(c) => c.time,
            Command::Pay(c) => c.time,
            Command::PayAll(c) => c.time,
        }
    }
}

/// Reads a file of commands, one to a line, into a schedule: each command under
/// its week, in the order of the file. The first line that is rejected, if
/// any, is reported with its position.
pub fn parse_input(text: &str) -> (r: Result<HashMap<usize, Vec<Command>>, LineError>)
    ensures
        reads_as::<Command>(text.spec_bytes(), r),
{
    parse_schedule(text.as_bytes())
}

/// The loan's interest rate, as an annual percentage.
#[derive(Clone, Copy, Debug, PartialEq, Eq, Structural)]
pub struct Params {
    pub annual_interest_rate: i32,
}

impl Params {
    /// The parameters that hold the given annual percentage rate.
    pub fn new(annual_interest_rate: i32) -> (params: Params)
        ensures
            params.annual_interest_rate == annual_interest_rate,
    {
        Params { annual_interest_rate }
    }
}

/// The funds that a new loan provides.
#[derive(Clone, Copy, Debug, PartialEq, Eq, Structural)]
pub struct StartReceipt {
    pub time: usize,
    pub amount: u64,
}

impl StartReceipt {
    /// The receipt for `amount` in week `time`.
    pub fn new(time: usize, amount: u64) -> (receipt: StartReceipt)
        ensures
            receipt == (StartReceipt { time, amount }),
    {
        StartReceipt { time, amount }
    }
}

/// A payment and the amount actually paid.
#[derive(Clone, Copy, Debug, PartialEq, Eq, Structural)]
pub struct PayReceipt {
    pub time: usize,
    pub amount: u64,
}

impl PayReceipt {
    /// The receipt for `amount` in week `time`.
    pub fn new(time: usize, amount: u64) -> (receipt: PayReceipt)
        ensures
            receipt == (PayReceipt { time, amount }),
    {
        PayReceipt { time, amount }
    }
}

/// One effect of a simulated week on the home loan.
#[derive(Clone, Copy, Debug, PartialEq, Eq, Structural)]
pub enum Transaction {
    Start(StartReceipt),
    Pay(PayReceipt),
}

/// The receipt of the week's minimum repayment, if one was made.
pub open spec fn repayment_receipt(time: usize, paid: Option<u64>) -> Seq<Transaction> {
    match paid {
        Some(amount) => seq![Transaction::Pay(PayReceipt { time, amount })],
        None => Seq::empty(),
    }
}

/// The loan that starts with `amount` borrowed over `duration` years at the
/// annual rate `rate`, and the receipt for the funds.
pub open spec fn started(amount: u64, rate: i32, duration: usize, time: usize) -> (
    Debt,
    Seq<Transaction>,
) {
    (
        Debt { balance: amount, repayment: Some(annuity(amount, rate, duration)) },
        seq![Transaction::Start(StartReceipt { time, amount })],
    )
}

/// The loan after an extra payment of `requested`, and the receipt for what
/// was actually paid. The minimum repayment lapses at once where the payment
/// leaves nothing owed.
pub open spec fn paid_down(debt: Debt, requested: u64, time: usize) -> (Debt, Seq<Transaction>) {
    let after = crate::loan::paid_down(debt, requested);
    (after.0, seq![Transaction::Pay(PayReceipt { time, amount: after.1 })])
}

/// The loan and the receipts that one command leaves, given the cash ledger's
/// value `cash` for the week.
pub open spec fn apply_command(debt: Debt, time: usize, rate: i32, cash: i64, command: Command)
    -> (Debt, Seq<Transaction>) {
    match command {
        Command::Start(c) => started(c.amount, rate, c.duration, time),
        Command::StartAll(c) => started(available(cash) as u64, rate, c.duration, time),
        Command::Pay(c) => paid_down(debt, c.amount, time),
        Command::PayAll(_) => paid_down(debt, available(cash) as u64, time),
    }
}

/// The loan and the receipts that a week's commands leave, applied in schedule
/// order.
pub open spec fn after_commands(
    debt: Debt,
    time: usize,
    rate: i32,
    cash: i64,
    commands: Seq<Command>,
) -> (Debt, Seq<Transaction>)
    decreases commands.len(),
{
    if commands.len() == 0 {
        (debt, Seq::empty())
    } else {
        let before = after_commands(debt, time, rate, cash, commands.drop_last());
        let last = apply_command(before.0, time, rate, cash, commands.last());
        (last.0, before.1 + last.1)
    }
}

/// What the home loan holds: the closing balance at each week simulated so
/// far, zero elsewhere, and the minimum weekly repayment in force, if any.
pub struct Loan {
    pub values: Seq<u64>,
    pub repayment: Option<u64>,
}

/// The loan and the receipts that simulating week `time` leaves: the previous
/// week's balance accrues one week's interest (none accrues in week 0), the
/// minimum repayment in force is made, and the week's commands are applied in
/// schedule order, given the cash ledger's value `cash` for the week. The
/// receipt of the repayment comes first.
pub open spec fn step(
    loan: Loan,
    time: usize,
    params: Params,
    commands: Map<usize, Vec<Command>>,
    cash: i64,
) -> (Loan, Seq<Transaction>) {
    let rate = params.annual_interest_rate;
    let start = Debt {
        balance: opening(loan.values, time, weekly_factor(rate)),
        repayment: loan.repayment,
    };
    let regular = settled(start);
    let after = after_commands(regular.0, time, rate, cash, commands_at(commands, time));
    (
        Loan {
            values: loan.values.update(time as int, after.0.balance),
            repayment: after.0.repayment,
        },
        repayment_receipt(time, regular.1) + after.1,
    )
}

/// In a week after week 0 without commands, the loan's balance and repayment
/// are what one more week of growth and minimum repayment leaves of those of
/// the week before.
pub proof fn lemma_quiet_week(
    loan: Loan,
    time: usize,
    params: Params,
    commands: Map<usize, Vec<Command>>,
    cash: i64,
)
    requires
        0 < time < loan.values.len(),
        commands_at(commands, time).len() == 0,
    ensures
        ({
            let after = step(loan, time, params, commands, cash).0;
            let debt = run_on(
                Debt { balance: loan.values[time - 1], repayment: loan.repayment },
                weekly_factor(params.annual_interest_rate),
                1,
            );
            &&& after.values[time as int] == debt.balance
            &&& after.repayment == debt.repayment
        }),
{
    reveal_with_fuel(run_on, 2);
}

/// The home loan: its balance week by week and the minimum repayment in force.
pub struct Asset {
    value: Vec<u64>,
    minimum_weekly_repayment: Option<u64>,
}

impl View for Asset {
    type V = Loan;

    closed spec fn view(&self) -> Loan {
        Loan { values: self.value@, repayment: self.minimum_weekly_repayment }
    }
}

impl Asset {
    /// The closing balance at each week simulated so far; zero elsewhere.
    pub open spec fn values(&self) -> Seq<u64> {
        self@.values
    }

    /// The minimum weekly repayment in force, if any.
    pub open spec fn repayment(&self) -> Option<u64> {
        self@.repayment
    }

    /// No loan, over a horizon of `num_timesteps` weeks.
    pub fn new(num_timesteps: usize) -> (asset: Asset)
        ensures
            asset.values() == Seq::new(num_timesteps as nat, |i: int| 0u64),
            asset.repayment() is None,
    {
        let value: Vec<u64> = vec![0u64; num_timesteps];
        assert(value@ =~= Seq::new(num_timesteps as nat, |i: int| 0u64));
        Asset { value, minimum_weekly_repayment: None }
    }

    /// The balance at week `time`.
    pub fn value_at(&self, time: usize) -> (v: u64)
        requires
            time < self.values().len(),
        ensures
            v == self.values()[time as int],
    {
        self.value[time]
    }

    /// The minimum weekly repayment in force, if any.
    pub fn minimum_weekly_repayment(&self) -> (m: Option<u64>)
        ensures
            m == self.repayment(),
    {
        self.minimum_weekly_repayment
    }

    /// Writes the series to `file`, which holds the text of the output file:
    /// one line for each week of the horizon.
    pub fn write_to_file(&self, file: &mut Vec<u8>)
        ensures
            final(file)@ == old(file)@ + crate::report::series_text(self.values()),
    {
        crate::report::write_series(file, &self.value);
    }

    /// The number of weeks in the horizon.
    pub fn num_timesteps(&self) -> (n: usize)
        ensures
            n == self.values().len(),
    {
        self.value.len()
    }

    /// Simulates week `time`: the previous week's balance accrues one week's
    /// interest (none accrues in week 0), the minimum repayment in force is
    /// made, and the week's commands are applied in schedule order. Returns
    /// the receipt of the repayment followed by those of the commands.
    pub fn simulate_timestep(
        &mut self,
        time: usize,
        params: Params,
        commands: &HashMap<usize, Vec<Command>>,
        cash: &Vec<i64>,
    ) -> (receipts: Option<Vec<Transaction>>)
        requires
            time < old(self).values().len(),
            time < cash@.len(),
        ensures
            final(self)@ == step(old(self)@, time, params, commands@, cash@[time as int]).0,
            reported(receipts, step(old(self)@, time, params, commands@, cash@[time as int]).1),
    {
        let rate: i32 = params.annual_interest_rate;
        let factor: u64 = weekly_growth_factor(rate);
        let start = Debt {
            balance: open_week(&self.value, time, factor),
            repayment: self.minimum_weekly_repayment,
        };
        let (regular, paid) = settle(start);
        let mut receipts: Vec<Transaction> = Vec::new();
        if let Some(amount) = paid {
            receipts.push(Transaction::Pay(PayReceipt::new(time, amount)));
        }
        assert(receipts@ =~= repayment_receipt(time, paid));
        let ghost first = receipts@;
        let week_cash: i64 = cash[time];
        let mut debt: Debt = regular;
        if let Some(list) = lookup(commands, time) {
            let mut i: usize = 0;
            while i < list.len()
                invariant
                    i <= list@.len(),
                    debt == after_commands(regular, time, rate, week_cash, list@.take(i as int)).0,
                    receipts@ == first + after_commands(
                        regular,
                        time,
                        rate,
                        week_cash,
                        list@.take(i as int),
                    ).1,
                decreases list@.len() - i,
            {
                assert(list@.take(i + 1).drop_last() =~= list@.take(i as int));
                let ghost so_far = receipts@;
                match &list[i] {
                    Command::Start(c) => {
                        debt = Debt {
                            balance: c.amount,
                            repayment: Some(minimum_repayment(c.amount, rate, c.duration)),
                        };
                        receipts.push(Transaction::Start(StartReceipt::new(time, c.amount)));
                    },
                    Command::StartAll(c) => {
                        let amount: u64 = available_cash(week_cash);
                        debt = Debt {
                            balance: amount,
                            repayment: Some(minimum_repayment(amount, rate, c.duration)),
                        };
                        receipts.push(Transaction::Start(StartReceipt::new(time, amount)));
                    },
                    Command::Pay(c) => {
                        let (after, amount) = pay_down(debt, c.amount);
                        debt = after;
                        receipts.push(Transaction::Pay(PayReceipt::new(time, amount)));
                    },
                    Command::PayAll(_) => {
                        let (after, amount) = pay_down(debt, available_cash(week_cash));
                        debt = after;
                        receipts.push(Transaction::Pay(PayReceipt::new(time, amount)));
                    },
                }
                assert(receipts@ =~= first + after_commands(
                    regular,
                    time,
                    rate,
                    week_cash,
                    list@.take(i + 1),
                ).1);
                i += 1;
            }
            assert(list@.take(list@.len() as int) =~= list@);
        } else {
            assert(receipts@ =~= first + Seq::<Transaction>::empty());
        }
        self.value[time] = debt.balance;
        self.minimum_weekly_repayment = debt.repayment;
        wrap(receipts)
    }
}

} // verus!
