//! The share portfolio: one first-in, first-out pool of lots.
//!
//! A sale reports, for each portion sold, the proceeds and the part of the
//! gain that is taxable: all of it, or half of it where the lot was held for
//! more than a year.

use crate::fixed::{cap_u64, div_floor, weekly_factor, weekly_growth_factor};
use crate::lots::{all_wf, grown_all, kept, lemma_sale_totals, lemma_sale_wf, sold, total, Lot,
    Pool};
use crate::parse::{
    amount_field, fields, get_amount, get_whole, is_keyword, split_fields, views, whole_field,
    FromLine, LineError, ParseError,
};
use crate::schedule::{
    commands_at, lookup, parse_schedule, reads_as, reported, wrap, Timed,
};
use std::collections::HashMap;
use vstd::prelude::*;
use vstd::string::StringSliceAdditionalSpecFns;

verus! {

/// A purchase of shares for a stated amount.
#[derive(Clone, Copy, Debug, PartialEq, Eq, Structural)]
pub struct BuyCommand {
    pub time: usize,
    pub amount: u64,
}

/// A sale of shares worth a stated amount.
#[derive(Clone, Copy, Debug, PartialEq, Eq, Structural)]
pub struct SellCommand {
    pub time: usize,
    pub amount: u64,
}

/// What can be asked of the share portfolio in a week.
#[derive(Clone, Copy, Debug, PartialEq, Eq, Structural)]
pub enum Command {
    Buy(BuyCommand),
    Sell(SellCommand),
}

impl BuyCommand {
    /// The purchase that the fields of a line write: the week first, the amount third.
    pub open spec fn parsed(fields: Seq<Seq<u8>>) -> Result<BuyCommand, ParseError> {
        match whole_field(fields, 0) {
            Err(e) => Err(e),
            Ok(time) => match amount_field(fields, 2) {
                Err(e) => Err(e),
                Ok(amount) => Ok(BuyCommand { time, amount }),
            },
        }
    }

    /// Reads the command from the fields of its line.
    pub fn new(fields: Vec<&[u8]>) -> (r: Result<BuyCommand, ParseError>)
        ensures
            r == BuyCommand::parsed(views(fields@)),
    {
        let time: usize = match get_whole(&fields, 0) {
            Ok(v) => v,
            Err(e) => {
                return Err(e);
            },
        };
        let amount: u64 = match get_amount(&fields, 2) {
            Ok(v) => v,
            Err(e) => {
                return Err(e);
            },
        };
        Ok(BuyCommand { time, amount })
    }
}

impl SellCommand {
    /// The sale that the fields of a line write: the week first, the amount third.
    pub open spec fn parsed(fields: Seq<Seq<u8>>) -> Result<SellCommand, ParseError> {
        match whole_field(fields, 0) {
            Err(e) => Err(e),
            Ok(time) => match amount_field(fields, 2) {
                Err(e) => Err(e),
                Ok(amount) => Ok(SellCommand { time, amount }),
            },
        }
    }

    /// Reads the command from the fields of its line.
    pub fn new(fields: Vec<&[u8]>) -> (r: Result<SellCommand, ParseError>)
        ensures
            r == SellCommand::parsed(views(fields@)),
    {
        let time: usize = match get_whole(&fields, 0) {
            Ok(v) => v,
            Err(e) => {
                return Err(e);
            },
        };
        let amount: u64 = match get_amount(&fields, 2) {
            Ok(v) => v,
            Err(e) => {
                return Err(e);
            },
        };
        Ok(SellCommand { time, amount })
    }
}

impl Command {
    /// The command that the fields of a line write, or why the line is
    /// rejected. The second field is the action: `BUY` or `SELL`.
    pub open spec fn parsed(fields: Seq<Seq<u8>>) -> Result<Command, ParseError> {
        if fields.len() <= 1 {
            Err(ParseError::MissingField)
        } else if fields[1] == "BUY".spec_bytes() {
            match BuyCommand::parsed(fields) {
                Ok(c) => Ok(Command::Buy(c)),
                Err(e) => Err(e),
            }
        } else if fields[1] == "SELL".spec_bytes() {
            match SellCommand::parsed(fields) {
                Ok(c) => Ok(Command::Sell(c)),
                Err(e) => Err(e),
            }
        } else {
            Err(ParseError::UnknownCommand)
        }
    }

    /// Reads a command from a line of text.
    pub fn new(input_line: &str) -> (r: Result<Command, ParseError>)
        ensures
            r == Command::parsed(fields(input_line.spec_bytes())),
    {
        Command::from_line(input_line.as_bytes())
    }
}

impl FromLine for Command {
    open spec fn of_line(line: Seq<u8>) -> Result<Command, ParseError> {
        Command::parsed(fields(line))
    }

    fn from_line(line: &[u8]) -> (r: Result<Command, ParseError>) {
        let fields: Vec<&[u8]> = split_fields(line);
        assert(forall|k: int|
            0 <= k < fields@.len() ==> fields@[k]@ == #[trigger] views(fields@)[k]);
        if fields.len() <= 1 {
            Err(ParseError::MissingField)
        } else if is_keyword(fields[1], "BUY") {
            match BuyCommand::new(fields) {
                Ok(c) => Ok(Command::Buy(c)),
                Err(e) => Err(e),
            }
        } else if is_keyword(fields[1], "SELL") {
            match SellCommand::new(fields) {
                Ok(c) => Ok(Command::Sell(c)),
                Err(e) => Err(e),
            }
        } else {
            Err(ParseError::UnknownCommand)
        }
    }
}

impl Timed for Command {
    open spec fn week(&self) -> usize {
        match self {
            Command::Buy(c) => c.time,
            Command::Sell(c) => c.time,
        }
    }

    fn time(&self) -> (t: usize) {
        match self {
            Command::Buy(c) => c.time,
            Command::Sell(c) => c.time,
        }
    }
}

/// Reads a file of commands, one to a line, into a schedule: each command under
/// its week, in the order of the file. The first line that is rejected, if
/// any, is reported with its position.
pub fn parse_input(text: &str) -> (r: Result<HashMap<usize, Vec<Command>>, LineError>)
    ensures
        reads_as::<Command>(text.spec_bytes(), r),
{
    parse_schedule(text.as_bytes())
}

/// The portfolio's rate of return, as an annual percentage.
#[derive(Clone, Copy, Debug, PartialEq, Eq, Structural)]
pub struct Params {
    pub annual_ror: i32,
}

impl Params {
    /// The parameters that hold the given annual percentage rate.
    pub fn new(annual_ror: i32) -> (params: Params)
        ensures
            params.annual_ror == annual_ror,
    {
        Params { annual_ror }
    }
}

/// A purchase and the amount paid for it.
#[derive(Clone, Copy, Debug, PartialEq, Eq, Structural)]
pub struct BuyReceipt {
    pub time: usize,
    pub amount: u64,
}

impl BuyReceipt {
    /// The receipt for `amount` in week `time`.
    pub fn new(time: usize, amount: u64) -> (receipt: BuyReceipt)
        ensures
            receipt == (BuyReceipt { time, amount }),
    {
        BuyReceipt { time, amount }
    }
}

/// One portion of a sale: its proceeds and the taxable part of its gain,
/// which is negative where the portion was sold at a loss.
#[derive(Clone, Copy, Debug, PartialEq, Eq, Structural)]
pub struct SellReceipt {
    pub time: usize,
    pub amount: u64,
    pub taxable_amount: i64,
}

/// The weeks a lot must be held for, and exceed, to earn the discount.
pub const DISCOUNT_WEEKS: usize = 52;

/// The taxable part of a realised gain or loss: half of it, rounded down,
/// where the lot was held for more than fifty-two weeks, and all of it
/// otherwise.
pub open spec fn taxable_gain(gain: i64, weeks_held: usize) -> i64 {
    if weeks_held > DISCOUNT_WEEKS {
        (gain as int / 2) as i64
    } else {
        gain
    }
}

impl SellReceipt {
    /// The receipt for one portion sold.
    pub open spec fn of(time: usize, portion: Lot) -> SellReceipt {
        SellReceipt {
            time,
            amount: cap_u64(portion.principal + portion.gain) as u64,
            taxable_amount: taxable_gain(portion.gain, portion.weeks_held),
        }
    }

    /// The receipt for a portion that returns `paid_amount` of principal and
    /// `capital_gains` of gain after `weeks_held` weeks.
    pub fn new(time: usize, paid_amount: u64, capital_gains: i64, weeks_held: usize) -> (receipt:
        SellReceipt)
        ensures
            receipt.time == time,
            receipt.amount == cap_u64(paid_amount + capital_gains),
            weeks_held > 52 ==> receipt.taxable_amount == capital_gains as int / 2,
            weeks_held <= 52 ==> receipt.taxable_amount == capital_gains,
            receipt == SellReceipt::of(
                time,
                Lot { principal: paid_amount, gain: capital_gains, weeks_held },
            ),
    {
        let wide: i128 = paid_amount as i128 + capital_gains as i128;
        let amount: u64 = if wide < 0 {
            0
        } else if wide > u64::MAX as i128 {
            u64::MAX
        } else {
            wide as u64
        };
        if weeks_held > DISCOUNT_WEEKS {
            SellReceipt {
                time,
                amount,
                taxable_amount: div_floor(capital_gains as i128, 2) as i64,
            }
        } else {
            SellReceipt { time, amount, taxable_amount: capital_gains }
        }
    }
}

/// One effect of a simulated week on the share portfolio.
#[derive(Clone, Copy, Debug, PartialEq, Eq, Structural)]
pub enum Transaction {
    Buy(BuyReceipt),
    Sell(SellReceipt),
}

/// One sell receipt for each portion sold, in the order sold.
pub open spec fn sale_receipts(time: usize, portions: Seq<Lot>) -> Seq<Transaction> {
    Seq::new(portions.len(), |i: int| Transaction::Sell(SellReceipt::of(time, portions[i])))
}

/// The pool and the receipts that one command leaves.
pub open spec fn apply_command(lots: Seq<Lot>, time: usize, command: Command) -> (
    Seq<Lot>,
    Seq<Transaction>,
) {
    match command {
        Command::Buy(c) => (
            lots.push(Lot { principal: c.amount, gain: 0, weeks_held: 0 }),
            seq![Transaction::Buy(BuyReceipt { time, amount: c.amount })],
        ),
        Command::Sell(c) => (
            kept(lots, c.amount as int),
            sale_receipts(time, sold(lots, c.amount as int)),
        ),
    }
}

/// The pool and the receipts that a week's commands leave, applied in schedule
/// order.
pub open spec fn after_commands(lots: Seq<Lot>, time: usize, commands: Seq<Command>) -> (
    Seq<Lot>,
    Seq<Transaction>,
)
    decreases commands.len(),
{
    if commands.len() == 0 {
        (lots, Seq::empty())
    } else {
        let before = after_commands(lots, time, commands.drop_last());
        let last = apply_command(before.0, time, commands.last());
        (last.0, before.1 + last.1)
    }
}

/// The combined proceeds of the sell receipts in a list.
pub open spec fn proceeds(receipts: Seq<Transaction>) -> int
    decreases receipts.len(),
{
    if receipts.len() == 0 {
        0
    } else {
        proceeds(receipts.drop_last()) + match receipts.last() {
            Transaction::Sell(r) => r.amount as int,
            Transaction::Buy(_) => 0,
        }
    }
}

/// The sell receipts of well-formed portions add up to the portions' value.
pub proof fn lemma_sale_receipts_total(time: usize, portions: Seq<Lot>)
    requires
        all_wf(portions),
    ensures
        proceeds(sale_receipts(time, portions)) == total(portions),
    decreases portions.len(),
{
    if portions.len() > 0 {
        lemma_sale_receipts_total(time, portions.drop_last());
        assert(sale_receipts(time, portions).drop_last() =~= sale_receipts(
            time,
            portions.drop_last(),
        ));
        assert(portions.last().wf());
    }
}

/// A sale of `amount` from a pool yields receipts whose proceeds add up to
/// exactly `amount` where the pool holds that much; where it holds less, the
/// proceeds add up to all it holds and the pool is left empty. Either way the
/// pool loses exactly the proceeds, so a sale never raises its value.
pub proof fn lemma_sale(lots: Seq<Lot>, time: usize, amount: u64)
    requires
        all_wf(lots),
    ensures
        ({
            let after = apply_command(lots, time, Command::Sell(SellCommand { time, amount }));
            &&& amount <= total(lots) ==> proceeds(after.1) == amount
            &&& amount > total(lots) ==> proceeds(after.1) == total(lots) && after.0.len() == 0
            &&& total(after.0) == total(lots) - proceeds(after.1)
            &&& total(after.0) <= total(lots)
            &&& all_wf(after.0)
        }),
{
    lemma_sale_totals(lots, amount as int);
    lemma_sale_wf(lots, amount as int);
    lemma_sale_receipts_total(time, sold(lots, amount as int));
    crate::lots::lemma_total_nonnegative(lots);
}

/// Whatever the commands of a week, a pool of well-formed lots stays one.
pub proof fn lemma_after_commands_wf(lots: Seq<Lot>, time: usize, commands: Seq<Command>)
    requires
        all_wf(lots),
    ensures
        all_wf(after_commands(lots, time, commands).0),
    decreases commands.len(),
{
    if commands.len() > 0 {
        lemma_after_commands_wf(lots, time, commands.drop_last());
        let before = after_commands(lots, time, commands.drop_last()).0;
        match commands.last() {
            Command::Buy(c) => {},
            Command::Sell(c) => {
                lemma_sale_wf(before, c.amount as int);
            },
        }
    }
}

/// Simulating a week leaves a portfolio of well-formed lots one, with a
/// series as long as before.
pub proof fn lemma_step_wf(
    portfolio: Portfolio,
    time: usize,
    params: Params,
    commands: Map<usize, Vec<Command>>,
)
    requires
        all_wf(portfolio.lots),
        time < portfolio.values.len(),
    ensures
        all_wf(step(portfolio, time, params, commands).0.lots),
        step(portfolio, time, params, commands).0.values.len() == portfolio.values.len(),
{
    let factor = weekly_factor(params.annual_ror);
    crate::fixed::lemma_weekly_factor_bounds(params.annual_ror);
    crate::lots::lemma_grown_wf(portfolio.lots, factor);
    lemma_after_commands_wf(
        grown_all(portfolio.lots, factor),
        time,
        commands_at(commands, time),
    );
}

/// Every portion of a sale reports as taxable the gain it realised, halved
/// where the lot was held for more than fifty-two weeks.
pub proof fn lemma_discount(lots: Seq<Lot>, time: usize, amount: u64, i: int)
    requires
        0 <= i < sold(lots, amount as int).len(),
    ensures
        ({
            let portion = sold(lots, amount as int)[i];
            let receipts = apply_command(lots, time, Command::Sell(SellCommand { time, amount })).1;
            &&& receipts.len() == sold(lots, amount as int).len()
            &&& receipts[i] matches Transaction::Sell(r) && {
                &&& portion.weeks_held > 52 ==> r.taxable_amount == portion.gain as int / 2
                &&& portion.weeks_held <= 52 ==> r.taxable_amount == portion.gain
            }
        }),
{
}

/// What the share portfolio holds: its value at each week simulated so far,
/// zero elsewhere, and its lots, oldest first.
pub struct Portfolio {
    pub values: Seq<u64>,
    pub lots: Seq<Lot>,
}

/// The portfolio and the receipts that simulating week `time` leaves: every
/// lot earns one week's return and ages by a week, the value of the pool is
/// recorded for the week, and the week's commands are applied in schedule
/// order.
pub open spec fn step(
    portfolio: Portfolio,
    time: usize,
    params: Params,
    commands: Map<usize, Vec<Command>>,
) -> (Portfolio, Seq<Transaction>) {
    let grown = grown_all(portfolio.lots, weekly_factor(params.annual_ror));
    let after = after_commands(grown, time, commands_at(commands, time));
    (
        Portfolio {
            values: portfolio.values.update(time as int, cap_u64(total(grown)) as u64),
            lots: after.0,
        },
        after.1,
    )
}

/// The share portfolio: its value week by week and its lots.
pub struct Asset {
    value: Vec<u64>,
    shares: Pool,
}

impl View for Asset {
    type V = Portfolio;

    closed spec fn view(&self) -> Portfolio {
        Portfolio { values: self.value@, lots: self.shares@ }
    }
}

/// Appends one sell receipt for each portion to `receipts`.
fn push_sales(receipts: &mut Vec<Transaction>, time: usize, portions: &Vec<Lot>)
    ensures
        final(receipts)@ == old(receipts)@ + sale_receipts(time, portions@),
{
    let ghost before = receipts@;
    let mut i: usize = 0;
    while i < portions.len()
        invariant
            i <= portions@.len(),
            receipts@ == before + sale_receipts(time, portions@.take(i as int)),
        decreases portions@.len() - i,
    {
        let lot: Lot = portions[i];
        receipts.push(
            Transaction::Sell(SellReceipt::new(time, lot.principal, lot.gain, lot.weeks_held)),
        );
        assert(receipts@ =~= before + sale_receipts(time, portions@.take(i + 1)));
        i += 1;
    }
    assert(portions@.take(portions@.len() as int) =~= portions@);
}

impl Asset {
    /// The portfolio's value at each week simulated so far; zero elsewhere.
    pub open spec fn values(&self) -> Seq<u64> {
        self@.values
    }

    /// The lots held, oldest first.
    pub open spec fn lots(&self) -> Seq<Lot> {
        self@.lots
    }

    /// Every lot held is well formed.
    pub open spec fn wf(&self) -> bool {
        all_wf(self.lots())
    }

    /// An empty portfolio over a horizon of `num_timesteps` weeks.
    pub fn new(num_timesteps: usize) -> (asset: Asset)
        ensures
            asset.wf(),
            asset.values() == Seq::new(num_timesteps as nat, |i: int| 0u64),
            asset.lots() == Seq::<Lot>::empty(),
    {
        let value: Vec<u64> = vec![0u64; num_timesteps];
        assert(value@ =~= Seq::new(num_timesteps as nat, |i: int| 0u64));
        Asset { value, shares: Pool::new() }
    }

    /// The portfolio's value at week `time`.
    pub fn value_at(&self, time: usize) -> (v: u64)
        requires
            time < self.values().len(),
        ensures
            v == self.values()[time as int],
    {
        self.value[time]
    }

    /// Writes the series to `file`, which holds the text of the output file:
    /// one line for each week of the horizon.
    pub fn write_to_file(&self, file: &mut Vec<u8>)
        ensures
            final(file)@ == old(file)@ + crate::report::series_text(self.values()),
    {
        crate::report::write_series(file, &self.value);
    }

    /// The number of weeks in the horizon.
    pub fn num_timesteps(&self) -> (n: usize)
        ensures
            n == self.values().len(),
    {
        self.value.len()
    }

    /// Applies one command to the pool and appends its receipts.
    fn apply(&mut self, time: usize, command: &Command, receipts: &mut Vec<Transaction>)
        requires
            old(self).wf(),
        ensures
            final(self).wf(),
            final(self).values() == old(self).values(),
            final(self).lots() == apply_command(old(self).lots(), time, *command).0,
            final(receipts)@ == old(receipts)@ + apply_command(old(self).lots(), time, *command).1,
    {
        match command {
            Command::Buy(c) => {
                self.shares.push(Lot::new(c.amount));
                receipts.push(Transaction::Buy(BuyReceipt::new(time, c.amount)));
                assert(receipts@ =~= old(receipts)@ + apply_command(
                    old(self).lots(),
                    time,
                    *command,
                ).1);
            },
            Command::Sell(c) => {
                let portions: Vec<Lot> = self.shares.sell(c.amount);
                push_sales(receipts, time, &portions);
            },
        }
    }

    /// Simulates week `time`: every lot earns one week's return and ages by a
    /// week, the portfolio's value for the week is recorded, and the week's
    /// commands are applied in schedule order. Returns the receipts of the
    /// commands, in order.
    pub fn simulate_timestep(
        &mut self,
        time: usize,
        params: Params,
        commands: &HashMap<usize, Vec<Command>>,
    ) -> (receipts: Option<Vec<Transaction>>)
        requires
            old(self).wf(),
            time < old(self).values().len(),
        ensures
            final(self).wf(),
            final(self)@ == step(old(self)@, time, params, commands@).0,
            reported(receipts, step(old(self)@, time, params, commands@).1),
    {
        let factor: u64 = weekly_growth_factor(params.annual_ror);
        self.shares.grow(factor);
        let ghost grown = self.lots();
        let value: u64 = self.shares.value();
        self.value[time] = value;
        let mut receipts: Vec<Transaction> = Vec::new();
        if let Some(list) = lookup(commands, time) {
            let mut i: usize = 0;
            while i < list.len()
                invariant
                    i <= list@.len(),
                    self.wf(),
                    self.values() == old(self).values().update(time as int, value),
                    self.lots() == after_commands(grown, time, list@.take(i as int)).0,
                    receipts@ == after_commands(grown, time, list@.take(i as int)).1,
                decreases list@.len() - i,
            {
                assert(list@.take(i + 1).drop_last() =~= list@.take(i as int));
                self.apply(time, &list[i], &mut receipts);
                i += 1;
            }
            assert(list@.take(list@.len() as int) =~= list@);
        }
        wrap(receipts)
    }
}

} // verus!
