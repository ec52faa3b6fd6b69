//! The study debt: an indexed liability whose minimum repayment follows
//! income.
//!
//! Each week the minimum repayment is set afresh from the income of the
//! fifty-two weeks that end with the current one, through a table of
//! repayment rates that rise with income.

use crate::fixed::{cap_u64, open_week, opening, sat_add, weekly_factor, weekly_growth_factor,
    UNIT, WHOLE};
use crate::loan::{paid_down, pay_down, settle, settled, Debt};
use crate::parse::{
    amount_field, fields, get_amount, get_whole, is_keyword, split_fields, views, whole_field,
    FromLine, LineError, ParseError,
};
use crate::schedule::{
    commands_at, lookup, parse_schedule, reads_as, reported, wrap, Timed,
};
use std::collections::HashMap;
use vstd::arithmetic::div_mod::{lemma_div_is_ordered, lemma_div_multiples_vanish};
use vstd::prelude::*;
use vstd::string::StringSliceAdditionalSpecFns;

verus! {

/// A voluntary payment of a stated amount.
#[derive(Clone, Copy, Debug, PartialEq, Eq, Structural)]
pub struct PayCommand {
    pub time: usize,
    pub amount: u64,
}

/// What can be asked of the study debt in a week.
#[derive(Clone, Copy, Debug, PartialEq, Eq, Structural)]
pub enum Command {
    Pay(PayCommand),
}

impl PayCommand {
    /// The payment that the fields of a line write: the week first, the amount third.
    pub open spec fn parsed(fields: Seq<Seq<u8>>) -> Result<PayCommand, ParseError> {
        match whole_field(fields, 0) {
            Err(e) => Err(e),
            Ok(time) => match amount_field(fields, 2) {
                Err(e) => Err(e),
                Ok(amount) => Ok(PayCommand { time, amount }),
            },
        }
    }

    /// Reads the command from the fields of its line.
    pub fn new(fields: Vec<&[u8]>) -> (r: Result<PayCommand, ParseError>)
        ensures
            r == PayCommand::parsed(views(fields@)),
    {
        let time: usize = match get_whole(&fields, 0) {
            Ok(v) => v,
            Err(e) => {
                return Err(e);
            },
        };
        let amount: u64 = match get_amount(&fields, 2) {
            Ok(v) => v,
            Err(e) => {
                return Err(e);
            },
        };
        Ok(PayCommand { time, amount })
    }
}

impl Command {
    /// The command that the fields of a line write, or why the line is
    /// rejected. The second field is the action: `PAY`.
    pub open spec fn parsed(fields: Seq<Seq<u8>>) -> Result<Command, ParseError> {
        if fields.len() <= 1 {
            Err(ParseError::MissingField)
        } else if fields[1] == "PAY".spec_bytes() {
            match PayCommand::parsed(fields) {
                Ok(c) => Ok(Command::Pay(c)),
                Err(e) => Err(e),
            }
        } else {
            Err(ParseError::UnknownCommand)
        }
    }

    /// Reads a command from a line of text.
    pub fn new(input_line: &str) -> (r: Result<Command, ParseError>)
        ensures
            r == Command::parsed(fields(input_line.spec_bytes())),
    {
        Command::from_line(input_line.as_bytes())
    }
}

impl FromLine for Command {
    open spec fn of_line(line: Seq<u8>) -> Result<Command, ParseError> {
        Command::parsed(fields(line))
    }

    fn from_line(line: &[u8]) -> (r: Result<Command, ParseError>) {
        let fields: Vec<&[u8]> = split_fields(line);
        assert(forall|k: int|
            0 <= k < fields@.len() ==> fields@[k]@ == #[trigger] views(fields@)[k]);
        if fields.len() <= 1 {
            Err(ParseError::MissingField)
        } else if is_keyword(fields[1], "PAY") {
            match PayCommand::new(fields) {
                Ok(c) => Ok(Command::Pay(c)),
                Err(e) => Err(e),
            }
        } else {
            Err(ParseError::UnknownCommand)
        }
    }
}

impl Timed for Command {
    open spec fn week(&self) -> usize {
        match self {
            Command::Pay(c) => c.time,
        }
    }

    fn time(&self) -> (t: usize) {
        match self {
            Command::Pay(c) => c.time,
        }
    }
}

/// Reads a file of commands, one to a line, into a schedule: each command under
/// its week, in the order of the file. The first line that is rejected, if
/// any, is reported with its position.
pub fn parse_input(text: &str) -> (r: Result<HashMap<usize, Vec<Command>>, LineError>)
    ensures
        reads_as::<Command>(text.spec_bytes(), r),
{
    parse_schedule(text.as_bytes())
}

/// The debt's indexation rate, as an annual percentage.
#[derive(Clone, Copy, Debug, PartialEq, Eq, Structural)]
pub struct Params {
    pub annual_indexation_rate: i32,
}

impl Params {
    /// The parameters that hold the given annual percentage rate.
    pub fn new(annual_indexation_rate: i32) -> (params: Params)
        ensures
            params.annual_indexation_rate == annual_indexation_rate,
    {
        Params { annual_indexation_rate }
    }
}

/// A payment and the amount actually paid.
#[derive(Clone, Copy, Debug, PartialEq, Eq, Structural)]
pub struct PayReceipt {
    pub time: usize,
    pub amount: u64,
}

impl PayReceipt {
    /// The receipt for `amount` in week `time`.
    pub fn new(time: usize, amount: u64) -> (receipt: PayReceipt)
        ensures
            receipt == (PayReceipt { time, amount }),
    {
        PayReceipt { time, amount }
    }
}

/// One effect of a simulated week on the study debt.
#[derive(Clone, Copy, Debug, PartialEq, Eq, Structural)]
pub enum Transaction {
    Pay(PayReceipt),
}

/// The number of income bands in the repayment table.
pub const BANDS: usize = 19;

/// The income, in whole currency units, up to and including which band `band`
/// applies. The last band has no upper limit.
pub open spec fn band_limit(band: int) -> int {
    if band == 0 {
        54_435
    } else if band == 1 {
        62_850
    } else if band == 2 {
        66_620
    } else if band == 3 {
        70_618
    } else if band == 4 {
        74_855
    } else if band == 5 {
        79_346
    } else if band == 6 {
        84_107
    } else if band == 7 {
        89_154
    } else if band == 8 {
        94_503
    } else if band == 9 {
        100_174
    } else if band == 10 {
        106_185
    } else if band == 11 {
        112_556
    } else if band == 12 {
        119_309
    } else if band == 13 {
        126_467
    } else if band == 14 {
        134_056
    } else if band == 15 {
        142_100
    } else if band == 16 {
        150_626
    } else {
        159_663
    }
}

/// The repayment rate of band `band`, in rate units: nothing in the lowest
/// band, one percent in the next, and from two percent upwards in steps of
/// half a percent, to ten percent in the highest.
pub open spec fn band_rate(band: int) -> int {
    if band <= 0 {
        0
    } else if band == 1 {
        1_000_000
    } else {
        1_000_000 + 500_000 * band
    }
}

/// The band that an income falls in: the lowest whose limit the income does
/// not exceed, or the last.
pub open spec fn band_from(income: u64, band: int) -> int
    decreases BANDS - band,
{
    if band >= BANDS - 1 {
        BANDS - 1
    } else if income <= band_limit(band) * UNIT {
        band
    } else {
        band_from(income, band + 1)
    }
}

/// The band that an income falls in.
pub open spec fn band_of(income: u64) -> int {
    band_from(income, 0)
}

/// The minimum weekly repayment for a yearly income: the income times the
/// rate of its band, spread over fifty-two weeks and rounded down.
pub open spec fn income_repayment(income: u64) -> u64 {
    (income * band_rate(band_of(income)) / (WHOLE * 52)) as u64
}

/// The sum of `series[lo..hi]`.
pub open spec fn sum_between(series: Seq<u64>, lo: int, hi: int) -> int
    decreases hi - lo,
{
    if hi <= lo {
        0
    } else {
        sum_between(series, lo, hi - 1) + series[hi - 1]
    }
}

/// The first week of the fifty-two that end with week `time`.
pub open spec fn window_start(time: usize) -> int {
    if time >= 51 {
        time - 51
    } else {
        0
    }
}

/// The income of the fifty-two weeks that end with week `time`, or of as many
/// as there have been, capped at the largest amount.
pub open spec fn window_income(income: Seq<u64>, time: usize) -> u64 {
    cap_u64(sum_between(income, window_start(time), time + 1)) as u64
}

/// No sum of amounts is negative.
pub proof fn lemma_sum_nonnegative(series: Seq<u64>, lo: int, hi: int)
    ensures
        sum_between(series, lo, hi) >= 0,
    decreases hi - lo,
{
    if hi > lo {
        lemma_sum_nonnegative(series, lo, hi - 1);
    }
}

/// The upper limit of band `band`, in whole currency units.
fn limit_of(band: usize) -> (limit: u64)
    requires
        band < BANDS - 1,
    ensures
        limit == band_limit(band as int),
{
    if band == 0 {
        54_435
    } else if band == 1 {
        62_850
    } else if band == 2 {
        66_620
    } else if band == 3 {
        70_618
    } else if band == 4 {
        74_855
    } else if band == 5 {
        79_346
    } else if band == 6 {
        84_107
    } else if band == 7 {
        89_154
    } else if band == 8 {
        94_503
    } else if band == 9 {
        100_174
    } else if band == 10 {
        106_185
    } else if band == 11 {
        112_556
    } else if band == 12 {
        119_309
    } else if band == 13 {
        126_467
    } else if band == 14 {
        134_056
    } else if band == 15 {
        142_100
    } else if band == 16 {
        150_626
    } else {
        159_663
    }
}

/// The minimum weekly repayment that a yearly income of `repayment_income`
/// calls for.
pub fn minimum_repayment(repayment_income: u64) -> (r: u64)
    ensures
        r == income_repayment(repayment_income),
{
    let mut band: usize = 0;
    while band < BANDS - 1 && repayment_income > limit_of(band) * UNIT
        invariant
            band <= BANDS - 1,
            band_of(repayment_income) == band_from(repayment_income, band as int),
        decreases BANDS - band,
    {
        band += 1;
    }
    let rate: u64 = if band == 0 {
        0
    } else if band == 1 {
        1_000_000
    } else {
        1_000_000 + 500_000 * (band as u64)
    };
    proof {
        assert(repayment_income * rate <= repayment_income * (WHOLE * 52) <= u64::MAX * (WHOLE
            * 52)) by (nonlinear_arith)
            requires
                0 <= repayment_income <= u64::MAX,
                0 <= rate <= WHOLE * 52,
        ;
        lemma_div_is_ordered(
            repayment_income * rate,
            repayment_income * (WHOLE * 52),
            (WHOLE * 52) as int,
        );
        lemma_div_multiples_vanish(repayment_income as int, (WHOLE * 52) as int);
    }
    let due: u128 = (repayment_income as u128) * (rate as u128) / ((WHOLE as u128) * 52);
    due as u64
}

/// The income of the fifty-two weeks that end with week `time`.
pub fn compute_repayment_income(repayment_income: &Vec<u64>, time: usize) -> (sum: u64)
    requires
        time < repayment_income@.len(),
    ensures
        sum == window_income(repayment_income@, time),
{
    let lo: usize = if time >= 51 {
        time - 51
    } else {
        0
    };
    let weeks: usize = repayment_income.len();
    let mut sum: u64 = 0;
    let mut i: usize = lo;
    while i <= time
        invariant
            lo <= i <= time + 1,
            time < weeks,
            weeks == repayment_income@.len(),
            sum == cap_u64(sum_between(repayment_income@, lo as int, i as int)),
        decreases time + 1 - i,
    {
        proof {
            lemma_sum_nonnegative(repayment_income@, lo as int, i as int);
        }
        sum = sat_add(sum, repayment_income[i]);
        i += 1;
    }
    sum
}

/// The debt as week `time` finds it: the balance with which the week opens,
/// and the minimum repayment that the income window calls for while anything
/// is owed.
pub open spec fn assessed(balance: u64, income: Seq<u64>, time: usize) -> Debt {
    Debt {
        balance,
        repayment: if balance == 0 {
            None
        } else {
            Some(income_repayment(window_income(income, time)))
        },
    }
}

/// The receipt of the week's minimum repayment, if one was made.
pub open spec fn repayment_receipt(time: usize, paid: Option<u64>) -> Seq<Transaction> {
    match paid {
        Some(amount) => seq![Transaction::Pay(PayReceipt { time, amount })],
        None => Seq::empty(),
    }
}

/// The debt and the receipts that one command leaves: a payment takes no
/// more than is owed, and the minimum repayment lapses at once where it
/// leaves nothing owed.
pub open spec fn apply_command(debt: Debt, time: usize, command: Command) -> (
    Debt,
    Seq<Transaction>,
) {
    match command {
        Command::Pay(c) => {
            let after = paid_down(debt, c.amount);
            (after.0, seq![Transaction::Pay(PayReceipt { time, amount: after.1 })])
        },
    }
}

/// The debt and the receipts that a week's commands leave, applied in schedule
/// order.
pub open spec fn after_commands(debt: Debt, time: usize, commands: Seq<Command>) -> (
    Debt,
    Seq<Transaction>,
)
    decreases commands.len(),
{
    if commands.len() == 0 {
        (debt, Seq::empty())
    } else {
        let before = after_commands(debt, time, commands.drop_last());
        let last = apply_command(before.0, time, commands.last());
        (last.0, before.1 + last.1)
    }
}

/// What the study debt holds: the closing balance at each week simulated so
/// far, elsewhere zero but for an opening balance recorded at week 0, and the
/// minimum weekly repayment in force, if any.
pub struct StudyDebt {
    pub values: Seq<u64>,
    pub repayment: Option<u64>,
}

/// The debt and the receipts that simulating week `time` leaves: the previous
/// week's balance is indexed by one week (not in week 0), the minimum
/// repayment is set from the income window, or lapses where nothing is owed,
/// and is made, and the week's commands are applied in schedule order. The
/// receipt of the repayment comes first.
pub open spec fn step(
    debt: StudyDebt,
    time: usize,
    params: Params,
    commands: Map<usize, Vec<Command>>,
    repayment_income: Seq<u64>,
) -> (StudyDebt, Seq<Transaction>) {
    let start = assessed(
        opening(debt.values, time, weekly_factor(params.annual_indexation_rate)),
        repayment_income,
        time,
    );
    let regular = settled(start);
    let after = after_commands(regular.0, time, commands_at(commands, time));
    (
        StudyDebt {
            values: debt.values.update(time as int, after.0.balance),
            repayment: after.0.repayment,
        },
        repayment_receipt(time, regular.1) + after.1,
    )
}

/// The study debt: its balance week by week and the minimum repayment in
/// force.
pub struct Asset {
    value: Vec<u64>,
    minimum_weekly_repayment: Option<u64>,
}

impl View for Asset {
    type V = StudyDebt;

    closed spec fn view(&self) -> StudyDebt {
        StudyDebt { values: self.value@, repayment: self.minimum_weekly_repayment }
    }
}

impl Asset {
    /// The closing balance at each week simulated so far.
    pub open spec fn values(&self) -> Seq<u64> {
        self@.values
    }

    /// The minimum weekly repayment in force, if any.
    pub open spec fn repayment(&self) -> Option<u64> {
        self@.repayment
    }

    /// No debt, over a horizon of `num_timesteps` weeks.
    pub fn new(num_timesteps: usize) -> (asset: Asset)
        ensures
            asset.values() == Seq::new(num_timesteps as nat, |i: int| 0u64),
            asset.repayment() is None,
    {
        let value: Vec<u64> = vec![0u64; num_timesteps];
        assert(value@ =~= Seq::new(num_timesteps as nat, |i: int| 0u64));
        Asset { value, minimum_weekly_repayment: None }
    }

    /// A debt of `balance` at the start of week 0, over a horizon of
    /// `num_timesteps` weeks.
    pub fn with_balance(num_timesteps: usize, balance: u64) -> (asset: Asset)
        requires
            num_timesteps > 0,
        ensures
            asset.values() == Seq::new(num_timesteps as nat, |i: int| 0u64).update(0, balance),
            asset.repayment() is None,
    {
        let mut value: Vec<u64> = vec![0u64; num_timesteps];
        assert(value@ =~= Seq::new(num_timesteps as nat, |i: int| 0u64));
        value[0] = balance;
        Asset { value, minimum_weekly_repayment: None }
    }

    /// The balance at week `time`.
    pub fn value_at(&self, time: usize) -> (v: u64)
        requires
            time < self.values().len(),
        ensures
            v == self.values()[time as int],
    {
        self.value[time]
    }

    /// The minimum weekly repayment in force, if any.
    pub fn minimum_weekly_repayment(&self) -> (m: Option<u64>)
        ensures
            m == self.repayment(),
    {
        self.minimum_weekly_repayment
    }

    /// Writes the series to `file`, which holds the text of the output file:
    /// one line for each week of the horizon.
    pub fn write_to_file(&self, file: &mut Vec<u8>)
        ensures
            final(file)@ == old(file)@ + crate::report::series_text(self.values()),
    {
        crate::report::write_series(file, &self.value);
    }

    /// The number of weeks in the horizon.
    pub fn num_timesteps(&self) -> (n: usize)
        ensures
            n == self.values().len(),
    {
        self.value.len()
    }

    /// Simulates week `time`: the previous week's balance is indexed by one
    /// week (not in week 0), the minimum repayment is set from the income
    /// window, or lapses where nothing is owed, and is made, and the week's
    /// commands are applied in schedule order. Returns the receipt of the
    /// repayment followed by those of the commands.
    pub fn simulate_timestep(
        &mut self,
        time: usize,
        params: Params,
        commands: &HashMap<usize, Vec<Command>>,
        repayment_income: &Vec<u64>,
    ) -> (receipts: Option<Vec<Transaction>>)
        requires
            time < old(self).values().len(),
            time < repayment_income@.len(),
        ensures
            final(self)@ == step(old(self)@, time, params, commands@, repayment_income@).0,
            reported(receipts, step(old(self)@, time, params, commands@, repayment_income@).1),
    {
        let factor: u64 = weekly_growth_factor(params.annual_indexation_rate);
        let balance: u64 = open_week(&self.value, time, factor);
        let start = if balance == 0 {
            Debt { balance, repayment: None }
        } else {
            let year_repayment_income: u64 = compute_repayment_income(repayment_income, time);
            Debt { balance, repayment: Some(minimum_repayment(year_repayment_income)) }
        };
        let (regular, paid) = settle(start);
        let mut receipts: Vec<Transaction> = Vec::new();
        if let Some(amount) = paid {
            receipts.push(Transaction::Pay(PayReceipt::new(time, amount)));
        }
        assert(receipts@ =~= repayment_receipt(time, paid));
        let ghost first = receipts@;
        let mut debt: Debt = regular;
        if let Some(list) = lookup(commands, time) {
            let mut i: usize = 0;
            while i < list.len()
                invariant
                    i <= list@.len(),
                    debt == after_commands(regular, time, list@.take(i as int)).0,
                    receipts@ == first + after_commands(regular, time, list@.take(i as int)).1,
                decreases list@.len() - i,
            {
                assert(list@.take(i + 1).drop_last() =~= list@.take(i as int));
                match &list[i] {
                    Command::Pay(c) => {
                        let (after, amount) = pay_down(debt, c.amount);
                        debt = after;
                        receipts.push(Transaction::Pay(PayReceipt::new(time, amount)));
                    },
                }
                assert(receipts@ =~= first + after_commands(regular, time, list@.take(i + 1)).1);
                i += 1;
            }
            assert(list@.take(list@.len() as int) =~= list@);
        } else {
            assert(receipts@ =~= first + Seq::<Transaction>::empty());
        }
        self.value[time] = debt.balance;
        self.minimum_weekly_repayment = debt.repayment;
        wrap(receipts)
    }
}

} // verus!
