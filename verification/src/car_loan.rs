//! The car loan: an amortizing liability that also carries a balloon, a
//! separate balance that accrues interest alongside the loan and falls due in
//! full at the end of the term.

use crate::fixed::{min_int, open_week, opening, sat_add, weekly_factor, weekly_growth_factor};
use crate::loan::{annuity, minimum_repayment, settle, settled, Debt};
use crate::parse::{
    amount_field, fields, get_amount, get_whole, is_keyword, split_fields, views, whole_field,
    FromLine, LineError, ParseError,
};
use crate::schedule::{
    commands_at, lookup, parse_schedule, reads_as, reported, wrap, Timed,
};
use std::collections::HashMap;
use vstd::prelude::*;
use vstd::string::StringSliceAdditionalSpecFns;

verus! {

/// Takes out a loan of a stated amount with a stated balloon over a term of
/// `duration` years.
#[derive(Clone, Copy, Debug, PartialEq, Eq, Structural)]
pub struct StartCommand {
    pub time: usize,
    pub amount: u64,
    pub balloon_payment: u64,
    pub duration: usize,
}

/// What can be asked of the car loan in a week.
#[derive(Clone, Copy, Debug, PartialEq, Eq, Structural)]
pub enum Command {
    Start(StartCommand),
}

impl StartCommand {
    /// The loan that the fields of a line write: the week first, the amount
    /// third, the balloon fourth, the term in years fifth.
    pub open spec fn parsed(fields: Seq<Seq<u8>>) -> Result<StartCommand, ParseError> {
        match whole_field(fields, 0) {
            Err(e) => Err(e),
            Ok(time) => match amount_field(fields, 2) {
                Err(e) => Err(e),
                Ok(amount) => match amount_field(fields, 3) {
                    Err(e) => Err(e),
                    Ok(balloon_payment) => match whole_field(fields, 4) {
                        Err(e) => Err(e),
                        Ok(duration) => Ok(
                            StartCommand { time, amount, balloon_payment, duration },
                        ),
                    },
                },
            },
        }
    }

    /// Reads the command from the fields of its line.
    pub fn new(fields: Vec<&[u8]>) -> (r: Result<StartCommand, ParseError>)
        ensures
            r == StartCommand::parsed(views(fields@)),
    {
        let time: usize = match get_whole(&fields, 0) {
            Ok(v) => v,
            Err(e) => {
                return Err(e);
            },
        };
        let amount: u64 = match get_amount(&fields, 2) {
            Ok(v) => v,
            Err(e) => {
                return Err(e);
            },
        };
        let balloon_payment: u64 = match get_amount(&fields, 3) {
            Ok(v) => v,
            Err(e) => {
                return Err(e);
            },
        };
        let duration: usize = match get_whole(&fields, 4) {
            Ok(v) => v,
            Err(e) => {
                return Err(e);
            },
        };
        Ok(StartCommand { time, amount, balloon_payment, duration })
    }
}

impl Command {
    /// The command that the fields of a line write, or why the line is
    /// rejected. The second field is the action: `START`.
    pub open spec fn parsed(fields: Seq<Seq<u8>>) -> Result<Command, ParseError> {
        if fields.len() <= 1 {
            Err(ParseError::MissingField)
        } else if fields[1] == "START".spec_bytes() {
            match StartCommand::parsed(fields) {
                Ok(c) => Ok(Command::Start(c)),
                Err(e) => Err(e),
            }
        } else {
            Err(ParseError::UnknownCommand)
        }
    }

    /// Reads a command from a line of text.
    pub fn new(input_line: &str) -> (r: Result<Command, ParseError>)
        ensures
            r == Command::parsed(fields(input_line.spec_bytes())),
    {
        Command::from_line(input_line.as_bytes())
    }
}

impl FromLine for Command {
    open spec fn of_line(line: Seq<u8>) -> Result<Command, ParseError> {
        Command::parsed(fields(line))
    }

    fn from_line(line: &[u8]) -> (r: Result<Command, ParseError>) {
        let fields: Vec<&[u8]> = split_fields(line);
        assert(forall|k: int|
            0 <= k < fields@.len() ==> fields@[k]@ == #[trigger] views(fields@)[k]);
        if fields.len() <= 1 {
            Err(ParseError::MissingField)
        } else if is_keyword(fields[1], "START") {
            match StartCommand::new(fields) {
                Ok(c) => Ok(Command::Start(c)),
                Err(e) => Err(e),
            }
        } else {
            Err(ParseError::UnknownCommand)
        }
    }
}

impl Timed for Command {
    open spec fn week(&self) -> usize {
        match self {
            Command::Start(c) => c.time,
        }
    }

    fn time(&self) -> (t: usize) {
        match self {
            Command::Start(c) => c.time,
        }
    }
}

/// Reads a file of commands, one to a line, into a schedule: each command under
/// its week, in the order of the file. The first line that is rejected, if
/// any, is reported with its position.
pub fn parse_input(text: &str) -> (r: Result<HashMap<usize, Vec<Command>>, LineError>)
    ensures
        reads_as::<Command>(text.spec_bytes(), r),
{
    parse_schedule(text.as_bytes())
}

/// The loan's interest rate, as an annual percentage.
#[derive(Clone, Copy, Debug, PartialEq, Eq, Structural)]
pub struct Params {
    pub annual_interest_rate: i32,
}

impl Params {
    /// The parameters that hold the given annual percentage rate.
    pub fn new(annual_interest_rate: i32) -> (params: Params)
        ensures
            params.annual_interest_rate == annual_interest_rate,
    {
        Params { annual_interest_rate }
    }
}

/// A payment and the amount actually paid.
#[derive(Clone, Copy, Debug, PartialEq, Eq, Structural)]
pub struct PayReceipt {
    pub time: usize,
    pub amount: u64,
}

impl PayReceipt {
    /// The receipt for `amount` in week `time`.
    pub fn new(time: usize, amount: u64) -> (receipt: PayReceipt)
        ensures
            receipt == (PayReceipt { time, amount }),
    {
        PayReceipt { time, amount }
    }
}

/// One effect of a simulated week on the car loan.
#[derive(Clone, Copy, Debug, PartialEq, Eq, Structural)]
pub enum Transaction {
    Pay(PayReceipt),
}

/// The car loan at one moment: the amortizing debt, the balloon, and the week
/// in which the balloon falls due while one is pending.
#[derive(Clone, Copy, Debug, PartialEq, Eq, Structural)]
pub struct CarLoan {
    pub debt: Debt,
    pub balloon: u64,
    pub due: Option<usize>,
}

/// The week in which the balloon of a loan started in week `time` over
/// `duration` years falls due: fifty-two weeks later for each year, or the
/// largest week number where that cannot be represented.
pub open spec fn due_week(time: usize, duration: usize) -> usize {
    min_int(time + duration * 52, usize::MAX as int) as usize
}

/// The loan once the balloon has been paid if this is its due week, and the
/// amount paid: the whole balloon, after which none is pending.
pub open spec fn balloon_settled(loan: CarLoan, time: usize) -> (CarLoan, Option<u64>) {
    if loan.due == Some(time) {
        (CarLoan { debt: loan.debt, balloon: 0, due: None }, Some(loan.balloon))
    } else {
        (loan, None)
    }
}

/// The receipt of a payment, if one was made.
pub open spec fn payment_receipt(time: usize, paid: Option<u64>) -> Seq<Transaction> {
    match paid {
        Some(amount) => seq![Transaction::Pay(PayReceipt { time, amount })],
        None => Seq::empty(),
    }
}

/// The loan that one command leaves.
pub open spec fn apply_command(loan: CarLoan, time: usize, rate: i32, command: Command) -> CarLoan {
    match command {
        Command::Start(c) => CarLoan {
            debt: Debt { balance: c.amount, repayment: Some(annuity(c.amount, rate, c.duration)) },
            balloon: c.balloon_payment,
            due: Some(due_week(time, c.duration)),
        },
    }
}

/// The loan that a week's commands leave, applied in schedule order.
pub open spec fn after_commands(loan: CarLoan, time: usize, rate: i32, commands: Seq<Command>)
    -> CarLoan
    decreases commands.len(),
{
    if commands.len() == 0 {
        loan
    } else {
        apply_command(
            after_commands(loan, time, rate, commands.drop_last()),
            time,
            rate,
            commands.last(),
        )
    }
}

/// What the car loan holds: the closing balance and the closing balloon at
/// each week simulated so far, zero elsewhere, the week in which the pending
/// balloon falls due, and the minimum weekly repayment in force.
pub struct Account {
    pub values: Seq<u64>,
    pub balloons: Seq<u64>,
    pub due: Option<usize>,
    pub repayment: Option<u64>,
}

/// The account and the receipts that simulating week `time` leaves: balance
/// and balloon accrue one week's interest (none accrues in week 0), the
/// balloon is paid in full if this is its due week, the minimum repayment in
/// force is made, and the week's commands are applied in schedule order. The
/// receipt of the balloon comes before that of the repayment.
pub open spec fn step(
    account: Account,
    time: usize,
    params: Params,
    commands: Map<usize, Vec<Command>>,
) -> (Account, Seq<Transaction>) {
    let rate = params.annual_interest_rate;
    let start = CarLoan {
        debt: Debt {
            balance: opening(account.values, time, weekly_factor(rate)),
            repayment: account.repayment,
        },
        balloon: opening(account.balloons, time, weekly_factor(rate)),
        due: account.due,
    };
    let lump = balloon_settled(start, time);
    let regular = settled(lump.0.debt);
    let after = after_commands(
        CarLoan { debt: regular.0, ..lump.0 },
        time,
        rate,
        commands_at(commands, time),
    );
    (
        Account {
            values: account.values.update(time as int, after.debt.balance),
            balloons: account.balloons.update(time as int, after.balloon),
            due: after.due,
            repayment: after.debt.repayment,
        },
        payment_receipt(time, lump.1) + payment_receipt(time, regular.1),
    )
}

/// In a week after week 0 without commands, the loan's balance and repayment
/// are what one more week of growth and minimum repayment leaves of those of
/// the week before; the balloon has no part in it.
pub proof fn lemma_quiet_week(
    account: Account,
    time: usize,
    params: Params,
    commands: Map<usize, Vec<Command>>,
)
    requires
        0 < time < account.values.len(),
        commands_at(commands, time).len() == 0,
    ensures
        ({
            let after = step(account, time, params, commands).0;
            let debt = crate::loan::run_on(
                Debt { balance: account.values[time - 1], repayment: account.repayment },
                weekly_factor(params.annual_interest_rate),
                1,
            );
            &&& after.values[time as int] == debt.balance
            &&& after.repayment == debt.repayment
        }),
{
    reveal_with_fuel(crate::loan::run_on, 2);
}

/// All that is owed week by week: balance and balloon together, capped at the
/// largest amount.
pub open spec fn owed(account: Account) -> Seq<u64> {
    Seq::new(
        account.values.len(),
        |i: int| crate::fixed::cap_u64(account.values[i] + account.balloons[i]) as u64,
    )
}

/// The car loan: its balance and its balloon week by week, the week in which
/// the balloon falls due, and the minimum repayment in force.
pub struct Asset {
    value: Vec<u64>,
    balloon_payment_value: Vec<u64>,
    balloon_payment_time: Option<usize>,
    minimum_weekly_repayment: Option<u64>,
}

impl View for Asset {
    type V = Account;

    closed spec fn view(&self) -> Account {
        Account {
            values: self.value@,
            balloons: self.balloon_payment_value@,
            due: self.balloon_payment_time,
            repayment: self.minimum_weekly_repayment,
        }
    }
}

impl Asset {
    /// The closing balance at each week simulated so far; zero elsewhere.
    pub open spec fn values(&self) -> Seq<u64> {
        self@.values
    }

    /// The closing balloon at each week simulated so far; zero elsewhere.
    pub open spec fn balloons(&self) -> Seq<u64> {
        self@.balloons
    }

    /// The week in which the pending balloon falls due, if one is pending.
    pub open spec fn due(&self) -> Option<usize> {
        self@.due
    }

    /// The minimum weekly repayment in force, if any.
    pub open spec fn repayment(&self) -> Option<u64> {
        self@.repayment
    }

    /// Both series cover the same horizon.
    pub open spec fn wf(&self) -> bool {
        self.values().len() == self.balloons().len()
    }

    /// No loan, over a horizon of `num_timesteps` weeks.
    pub fn new(num_timesteps: usize) -> (asset: Asset)
        ensures
            asset.wf(),
            asset.values() == Seq::new(num_timesteps as nat, |i: int| 0u64),
            asset.balloons() == Seq::new(num_timesteps as nat, |i: int| 0u64),
            asset.due() is None,
            asset.repayment() is None,
    {
        let value: Vec<u64> = vec![0u64; num_timesteps];
        let balloon_payment_value: Vec<u64> = vec![0u64; num_timesteps];
        assert(value@ =~= Seq::new(num_timesteps as nat, |i: int| 0u64));
        assert(balloon_payment_value@ =~= Seq::new(num_timesteps as nat, |i: int| 0u64));
        Asset {
            value,
            balloon_payment_value,
            balloon_payment_time: None,
            minimum_weekly_repayment: None,
        }
    }

    /// The balance at week `time`, without the balloon.
    pub fn value_at(&self, time: usize) -> (v: u64)
        requires
            time < self.values().len(),
        ensures
            v == self.values()[time as int],
    {
        self.value[time]
    }

    /// The balloon at week `time`.
    pub fn balloon_at(&self, time: usize) -> (v: u64)
        requires
            self.wf(),
            time < self.values().len(),
        ensures
            v == self.balloons()[time as int],
    {
        self.balloon_payment_value[time]
    }

    /// All that is owed at week `time`: balance and balloon together, capped
    /// at the largest amount.
    pub fn owed_at(&self, time: usize) -> (v: u64)
        requires
            self.wf(),
            time < self.values().len(),
        ensures
            v == crate::fixed::cap_u64(self.values()[time as int] + self.balloons()[time as int]),
    {
        sat_add(self.value[time], self.balloon_payment_value[time])
    }

    /// The week in which the pending balloon falls due, if one is pending.
    pub fn balloon_payment_time(&self) -> (due: Option<usize>)
        ensures
            due == self.due(),
    {
        self.balloon_payment_time
    }

    /// The minimum weekly repayment in force, if any.
    pub fn minimum_weekly_repayment(&self) -> (m: Option<u64>)
        ensures
            m == self.repayment(),
    {
        self.minimum_weekly_repayment
    }

    /// Writes to `file`, which holds the text of the output file, all that is
    /// owed week by week, balance and balloon together: one line for each
    /// week of the horizon.
    pub fn write_to_file(&self, file: &mut Vec<u8>)
        requires
            self.wf(),
        ensures
            final(file)@ == old(file)@ + crate::report::series_text(owed(self@)),
    {
        let mut series: Vec<u64> = Vec::new();
        let mut i: usize = 0;
        while i < self.value.len()
            invariant
                self.wf(),
                i <= self.values().len(),
                series@.len() == i,
                forall|k: int|
                    0 <= k < i ==> series@[k] == crate::fixed::cap_u64(
                        self.values()[k] + self.balloons()[k],
                    ),
            decreases self.values().len() - i,
        {
            series.push(self.owed_at(i));
            i += 1;
        }
        assert(series@ =~= owed(self@));
        crate::report::write_series(file, &series);
    }

    /// The number of weeks in the horizon.
    pub fn num_timesteps(&self) -> (n: usize)
        ensures
            n == self.values().len(),
    {
        self.value.len()
    }

    /// Simulates week `time`: balance and balloon accrue one week's interest
    /// (none accrues in week 0), the balloon is paid in full if this is its
    /// due week, the minimum repayment in force is made, and the week's
    /// commands are applied in schedule order. Returns the receipt of the
    /// balloon followed by that of the repayment.
    pub fn simulate_timestep(
        &mut self,
        time: usize,
        params: Params,
        commands: &HashMap<usize, Vec<Command>>,
    ) -> (receipts: Option<Vec<Transaction>>)
        requires
            old(self).wf(),
            time < old(self).values().len(),
        ensures
            final(self).wf(),
            final(self)@ == step(old(self)@, time, params, commands@).0,
            reported(receipts, step(old(self)@, time, params, commands@).1),
    {
        let rate: i32 = params.annual_interest_rate;
        let factor: u64 = weekly_growth_factor(rate);
        let mut receipts: Vec<Transaction> = Vec::new();
        let mut balloon: u64 = open_week(&self.balloon_payment_value, time, factor);
        let mut due: Option<usize> = self.balloon_payment_time;
        let ghost start_balloon = balloon;
        let ghost start_due = due;
        match due {
            Some(week) => {
                if week == time {
                    receipts.push(Transaction::Pay(PayReceipt::new(time, balloon)));
                    balloon = 0;
                    due = None;
                }
            },
            None => {},
        }
        let ghost lump = balloon_settled(
            CarLoan {
                debt: Debt {
                    balance: opening(self.values(), time, factor as int),
                    repayment: self.repayment(),
                },
                balloon: start_balloon,
                due: start_due,
            },
            time,
        );
        assert(receipts@ =~= payment_receipt(time, lump.1));
        let (regular, paid) = settle(
            Debt {
                balance: open_week(&self.value, time, factor),
                repayment: self.minimum_weekly_repayment,
            },
        );
        if let Some(amount) = paid {
            receipts.push(Transaction::Pay(PayReceipt::new(time, amount)));
        }
        assert(receipts@ =~= payment_receipt(time, lump.1) + payment_receipt(time, paid));
        let ghost first = CarLoan { debt: regular, balloon, due };
        let mut loan = CarLoan { debt: regular, balloon, due };
        if let Some(list) = lookup(commands, time) {
            let mut i: usize = 0;
            while i < list.len()
                invariant
                    i <= list@.len(),
                    loan == after_commands(first, time, rate, list@.take(i as int)),
                decreases list@.len() - i,
            {
                assert(list@.take(i + 1).drop_last() =~= list@.take(i as int));
                match &list[i] {
                    Command::Start(c) => {
                        let end: u128 = (time as u128) + (c.duration as u128) * 52;
                        let week: usize = if end > usize::MAX as u128 {
                            usize::MAX
                        } else {
                            end as usize
                        };
                        loan = CarLoan {
                            debt: Debt {
                                balance: c.amount,
                                repayment: Some(minimum_repayment(c.amount, rate, c.duration)),
                            },
                            balloon: c.balloon_payment,
                            due: Some(week),
                        };
                    },
                }
                i += 1;
            }
            assert(list@.take(list@.len() as int) =~= list@);
        }
        self.value[time] = loan.debt.balance;
        self.balloon_payment_value[time] = loan.balloon;
        self.balloon_payment_time = loan.due;
        self.minimum_weekly_repayment = loan.debt.repayment;
        wrap(receipts)
    }
}

} // verus!
