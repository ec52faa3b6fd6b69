//! The retirement account: three first-in, first-out pools, one for each
//! stream of contributions.
//!
//! Guarantee and concessional contributions are taxed on entry; non-concessional
//! contributions are not. Withdrawals draw on the concessional pool first and
//! then on the non-concessional pool; the guarantee pool is never drawn on.
//! In each lot, `principal` is the taxed component and `gain` the untaxed one.

use crate::fixed::{available, available_cash, cap_u64, mul_div, sat_add, weekly_factor,
    weekly_growth_factor};
use crate::lots::{all_wf, grown_all, kept, lemma_sale_totals, sold, total, value_of, Lot, Pool};
use crate::parse::{
    amount_field, fields, get_amount, get_whole, is_keyword, split_fields, views, whole_field,
    FromLine, LineError, ParseError,
};
use crate::schedule::{
    commands_at, lookup, parse_schedule, reads_as, reported, wrap, Timed,
};
use std::collections::HashMap;
use vstd::prelude::*;
use vstd::string::StringSliceAdditionalSpecFns;

verus! {

/// A contribution of a stated amount.
#[derive(Clone, Copy, Debug, PartialEq, Eq, Structural)]
pub struct BuyCommand {
    pub time: usize,
    pub amount: u64,
}

/// A contribution of all available cash.
#[derive(Clone, Copy, Debug, PartialEq, Eq, Structural)]
pub struct BuyAllCommand {
    pub time: usize,
}

/// A withdrawal of a stated amount.
#[derive(Clone, Copy, Debug, PartialEq, Eq, Structural)]
pub struct SellCommand {
    pub time: usize,
    pub amount: u64,
}

/// A withdrawal of everything that can be withdrawn.
#[derive(Clone, Copy, Debug, PartialEq, Eq, Structural)]
pub struct SellAllCommand {
    pub time: usize,
}

/// What can be asked of the retirement account in a week.
#[derive(Clone, Copy, Debug, PartialEq, Eq, Structural)]
pub enum Command {
    BuySG(BuyCommand),
    BuyCC(BuyCommand),
    BuyAllCC(BuyAllCommand),
    BuyNCC(BuyCommand),
    BuyAllNCC(BuyAllCommand),
    Sell(SellCommand),
    SellAll(SellAllCommand),
}

impl BuyCommand {
    /// The contribution that the fields of a line write: the week first, the amount fourth.
    pub open spec fn parsed(fields: Seq<Seq<u8>>) -> Result<BuyCommand, ParseError> {
        match whole_field(fields, 0) {
            Err(e) => Err(e),
            Ok(time) => match amount_field(fields, 3) {
                Err(e) => Err(e),
                Ok(amount) => Ok(BuyCommand { time, amount }),
            },
        }
    }

    /// Reads the command from the fields of its line.
    pub fn new(fields: Vec<&[u8]>) -> (r: Result<BuyCommand, ParseError>)
        ensures
            r == BuyCommand::parsed(views(fields@)),
    {
        let time: usize = match get_whole(&fields, 0) {
            Ok(v) => v,
            Err(e) => {
                return Err(e);
            },
        };
        let amount: u64 = match get_amount(&fields, 3) {
            Ok(v) => v,
            Err(e) => {
                return Err(e);
            },
        };
        Ok(BuyCommand { time, amount })
    }
}

impl BuyAllCommand {
    /// The contribution that the fields of a line write: the week first.
    pub open spec fn parsed(fields: Seq<Seq<u8>>) -> Result<BuyAllCommand, ParseError> {
        match whole_field(fields, 0) {
            Err(e) => Err(e),
            Ok(time) => Ok(BuyAllCommand { time }),
        }
    }

    /// Reads the command from the fields of its line.
    pub fn new(fields: Vec<&[u8]>) -> (r: Result<BuyAllCommand, ParseError>)
        ensures
            r == BuyAllCommand::parsed(views(fields@)),
    {
        let time: usize = match get_whole(&fields, 0) {
            Ok(v) => v,
            Err(e) => {
                return Err(e);
            },
        };
        Ok(BuyAllCommand { time })
    }
}

impl SellCommand {
    /// The withdrawal that the fields of a line write: the week first, the amount third.
    pub open spec fn parsed(fields: Seq<Seq<u8>>) -> Result<SellCommand, ParseError> {
        match whole_field(fields, 0) {
            Err(e) => Err(e),
            Ok(time) => match amount_field(fields, 2) {
                Err(e) => Err(e),
                Ok(amount) => Ok(SellCommand { time, amount }),
            },
        }
    }

    /// Reads the command from the fields of its line.
    pub fn new(fields: Vec<&[u8]>) -> (r: Result<SellCommand, ParseError>)
        ensures
            r == SellCommand::parsed(views(fields@)),
    {
        let time: usize = match get_whole(&fields, 0) {
            Ok(v) => v,
            Err(e) => {
                return Err(e);
            },
        };
        let amount: u64 = match get_amount(&fields, 2) {
            Ok(v) => v,
            Err(e) => {
                return Err(e);
            },
        };
        Ok(SellCommand { time, amount })
    }
}

impl SellAllCommand {
    /// The withdrawal that the fields of a line write: the week first.
    pub open spec fn parsed(fields: Seq<Seq<u8>>) -> Result<SellAllCommand, ParseError> {
        match whole_field(fields, 0) {
            Err(e) => Err(e),
            Ok(time) => Ok(SellAllCommand { time }),
        }
    }

    /// Reads the command from the fields of its line.
    pub fn new(fields: Vec<&[u8]>) -> (r: Result<SellAllCommand, ParseError>)
        ensures
            r == SellAllCommand::parsed(views(fields@)),
    {
        let time: usize = match get_whole(&fields, 0) {
            Ok(v) => v,
            Err(e) => {
                return Err(e);
            },
        };
        Ok(SellAllCommand { time })
    }
}

impl Command {
    /// The command that the fields of a line write, or why the line is
    /// rejected. The second field is the action, `BUY` or `SELL`; after
    /// `BUY` the third names the stream, `SG`, `CC` or `NCC`; `ALL` in place of
    /// an amount asks for all available cash, or for all that can be withdrawn.
    pub open spec fn parsed(fields: Seq<Seq<u8>>) -> Result<Command, ParseError> {
        if fields.len() <= 1 {
            Err(ParseError::MissingField)
        } else if fields[1] == "BUY".spec_bytes() {
            if fields.len() <= 2 {
                Err(ParseError::MissingField)
            } else if fields[2] == "SG".spec_bytes() {
                match BuyCommand::parsed(fields) {
                    Ok(c) => Ok(Command::BuySG(c)),
                    Err(e) => Err(e),
                }
            } else if fields[2] == "CC".spec_bytes() {
                if fields.len() <= 3 {
                    Err(ParseError::MissingField)
                } else if fields[3] == "ALL".spec_bytes() {
                    match BuyAllCommand::parsed(fields) {
                        Ok(c) => Ok(Command::BuyAllCC(c)),
                        Err(e) => Err(e),
                    }
                } else {
                    match BuyCommand::parsed(fields) {
                        Ok(c) => Ok(Command::BuyCC(c)),
                        Err(e) => Err(e),
                    }
                }
            } else if fields[2] == "NCC".spec_bytes() {
                if fields.len() <= 3 {
                    Err(ParseError::MissingField)
                } else if fields[3] == "ALL".spec_bytes() {
                    match BuyAllCommand::parsed(fields) {
                        Ok(c) => Ok(Command::BuyAllNCC(c)),
                        Err(e) => Err(e),
                    }
                } else {
                    match BuyCommand::parsed(fields) {
                        Ok(c) => Ok(Command::BuyNCC(c)),
                        Err(e) => Err(e),
                    }
                }
            } else {
                Err(ParseError::UnknownCommand)
            }
        } else if fields[1] == "SELL".spec_bytes() {
            if fields.len() <= 2 {
                Err(ParseError::MissingField)
            } else if fields[2] == "ALL".spec_bytes() {
                match SellAllCommand::parsed(fields) {
                    Ok(c) => Ok(Command::SellAll(c)),
                    Err(e) => Err(e),
                }
            } else {
                match SellCommand::parsed(fields) {
                    Ok(c) => Ok(Command::Sell(c)),
                    Err(e) => Err(e),
                }
            }
        } else {
            Err(ParseError::UnknownCommand)
        }
    }

    /// Reads a command from a line of text.
    pub fn new(input_line: &str) -> (r: Result<Command, ParseError>)
        ensures
            r == Command::parsed(fields(input_line.spec_bytes())),
    {
        Command::from_line(input_line.as_bytes())
    }
}

impl FromLine for Command {
    open spec fn of_line(line: Seq<u8>) -> Result<Command, ParseError> {
        Command::parsed(fields(line))
    }

    fn from_line(line: &[u8]) -> (r: Result<Command, ParseError>) {
        let fields: Vec<&[u8]> = split_fields(line);
        assert(forall|k: int|
            0 <= k < fields@.len() ==> fields@[k]@ == #[trigger] views(fields@)[k]);
        if fields.len() <= 1 {
            Err(ParseError::MissingField)
        } else if is_keyword(fields[1], "BUY") {
            if fields.len() <= 2 {
                Err(ParseError::MissingField)
            } else if is_keyword(fields[2], "SG") {
                match BuyCommand::new(fields) {
                    Ok(c) => Ok(Command::BuySG(c)),
                    Err(e) => Err(e),
                }
            } else if is_keyword(fields[2], "CC") {
                if fields.len() <= 3 {
                    Err(ParseError::MissingField)
                } else if is_keyword(fields[3], "ALL") {
                    match BuyAllCommand::new(fields) {
                        Ok(c) => Ok(Command::BuyAllCC(c)),
                        Err(e) => Err(e),
                    }
                } else {
                    match BuyCommand::new(fields) {
                        Ok(c) => Ok(Command::BuyCC(c)),
                        Err(e) => Err(e),
                    }
                }
            } else if is_keyword(fields[2], "NCC") {
                if fields.len() <= 3 {
                    Err(ParseError::MissingField)
                } else if is_keyword(fields[3], "ALL") {
                    match BuyAllCommand::new(fields) {
                        Ok(c) => Ok(Command::BuyAllNCC(c)),
                        Err(e) => Err(e),
                    }
                } else {
                    match BuyCommand::new(fields) {
                        Ok(c) => Ok(Command::BuyNCC(c)),
                        Err(e) => Err(e),
                    }
                }
            } else {
                Err(ParseError::UnknownCommand)
            }
        } else if is_keyword(fields[1], "SELL") {
            if fields.len() <= 2 {
                Err(ParseError::MissingField)
            } else if is_keyword(fields[2], "ALL") {
                match SellAllCommand::new(fields) {
                    Ok(c) => Ok(Command::SellAll(c)),
                    Err(e) => Err(e),
                }
            } else {
                match SellCommand::new(fields) {
                    Ok(c) => Ok(Command::Sell(c)),
                    Err(e) => Err(e),
                }
            }
        } else {
            Err(ParseError::UnknownCommand)
        }
    }
}

impl Timed for Command {
    open spec fn week(&self) -> usize {
        match self {
            Command::BuySG(c) => c.time,
            Command::BuyCC(c) => c.time,
            Command::BuyAllCC(c) => c.time,
            Command::BuyNCC(c) => c.time,
            Command::BuyAllNCC(c) => c.time,
            Command::Sell(c) => c.time,
            Command::SellAll(c) => c.time,
        }
    }

    fn time(&self) -> (t: usize) {
        match self {
            Command::BuySG(c) => c.time,
            Command::BuyCC(c) => c.time,
            Command::BuyAllCC(c) => c.time,
            Command::BuyNCC(c) => c.time,
            Command::BuyAllNCC(c) => c.time,
            Command::Sell(c) => c.time,
            Command::SellAll(c) => c.time,
        }
    }
}

/// Reads a file of commands, one to a line, into a schedule: each command under
/// its week, in the order of the file. The first line that is rejected, if
/// any, is reported with its position.
pub fn parse_input(text: &str) -> (r: Result<HashMap<usize, Vec<Command>>, LineError>)
    ensures
        reads_as::<Command>(text.spec_bytes(), r),
{
    parse_schedule(text.as_bytes())
}

/// The account's rate of return, as an annual percentage.
#[derive(Clone, Copy, Debug, PartialEq, Eq, Structural)]
pub struct Params {
    pub annual_ror: i32,
}

impl Params {
    /// The parameters that hold the given annual percentage rate.
    pub fn new(annual_ror: i32) -> (params: Params)
        ensures
            params.annual_ror == annual_ror,
    {
        Params { annual_ror }
    }
}

/// A contribution: the gross amount and the tax withheld from it on entry.
#[derive(Clone, Copy, Debug, PartialEq, Eq, Structural)]
pub struct BuyReceipt {
    pub time: usize,
    pub amount: u64,
    pub tax: u64,
}

impl BuyReceipt {
    /// The receipt for a contribution of `amount` in week `time`, from which
    /// `tax` was withheld.
    pub fn new(time: usize, amount: u64, tax: u64) -> (receipt: BuyReceipt)
        ensures
            receipt == (BuyReceipt { time, amount, tax }),
    {
        BuyReceipt { time, amount, tax }
    }
}

/// One portion of a withdrawal, split into its taxed and untaxed components.
#[derive(Clone, Copy, Debug, PartialEq, Eq, Structural)]
pub struct SellReceipt {
    pub time: usize,
    pub taxed_amount: u64,
    pub untaxed_amount: i64,
}

impl SellReceipt {
    /// The receipt for a portion withdrawn in week `time`.
    pub fn new(time: usize, taxed_amount: u64, untaxed_amount: i64) -> (receipt: SellReceipt)
        ensures
            receipt == (SellReceipt { time, taxed_amount, untaxed_amount }),
    {
        SellReceipt { time, taxed_amount, untaxed_amount }
    }
}

/// One effect of a simulated week on the retirement account.
#[derive(Clone, Copy, Debug, PartialEq, Eq, Structural)]
pub enum Transaction {
    BuySG(BuyReceipt),
    BuyCC(BuyReceipt),
    BuyNCC(BuyReceipt),
    Sell(SellReceipt),
}

/// The three pools of the account, each oldest lot first.
pub struct Holdings {
    pub sg: Seq<Lot>,
    pub cc: Seq<Lot>,
    pub ncc: Seq<Lot>,
}

impl Holdings {
    /// Every lot of every pool is well formed.
    pub open spec fn wf(self) -> bool {
        all_wf(self.sg) && all_wf(self.cc) && all_wf(self.ncc)
    }

    /// The combined value of the three pools.
    pub open spec fn total(self) -> int {
        total(self.sg) + total(self.cc) + total(self.ncc)
    }

    /// The value that withdrawals can draw on.
    pub open spec fn withdrawable(self) -> int {
        total(self.cc) + total(self.ncc)
    }

    /// The three pools one week later.
    pub open spec fn grown(self, factor: int) -> Holdings {
        Holdings {
            sg: grown_all(self.sg, factor),
            cc: grown_all(self.cc, factor),
            ncc: grown_all(self.ncc, factor),
        }
    }
}

/// The tax withheld from a guarantee or concessional contribution: fifteen
/// percent, rounded down.
pub open spec fn contribution_tax(amount: u64) -> u64 {
    (amount * 15 / 100) as u64
}

/// The lot that a contribution of `amount` opens once `tax` has been withheld.
pub open spec fn opened(amount: u64, tax: u64) -> Lot {
    Lot { principal: (amount - tax) as u64, gain: 0, weeks_held: 0 }
}

/// One sell receipt for each portion taken, in the order taken.
pub open spec fn sale_receipts(time: usize, portions: Seq<Lot>) -> Seq<Transaction> {
    Seq::new(
        portions.len(),
        |i: int|
            Transaction::Sell(
                SellReceipt {
                    time,
                    taxed_amount: portions[i].principal,
                    untaxed_amount: portions[i].gain,
                },
            ),
    )
}

/// What a withdrawal of `amount` takes from the concessional pool.
pub open spec fn sold_cc(h: Holdings, amount: u64) -> Seq<Lot> {
    sold(h.cc, amount as int)
}

/// What a withdrawal of `amount` takes from the non-concessional pool: what
/// the concessional pool could not supply.
pub open spec fn sold_ncc(h: Holdings, amount: u64) -> Seq<Lot> {
    sold(h.ncc, amount - total(sold_cc(h, amount)))
}

/// The holdings and the receipts that one command leaves, given the cash
/// ledger's value `cash` for the week.
pub open spec fn apply_command(h: Holdings, time: usize, cash: i64, command: Command) -> (
    Holdings,
    Seq<Transaction>,
) {
    let all = available(cash) as u64;
    match command {
        Command::BuySG(c) => {
            let tax = contribution_tax(c.amount);
            (
                Holdings { sg: h.sg.push(opened(c.amount, tax)), ..h },
                seq![Transaction::BuySG(BuyReceipt { time, amount: c.amount, tax })],
            )
        },
        Command::BuyCC(c) => {
            let tax = contribution_tax(c.amount);
            (
                Holdings { cc: h.cc.push(opened(c.amount, tax)), ..h },
                seq![Transaction::BuyCC(BuyReceipt { time, amount: c.amount, tax })],
            )
        },
        Command::BuyAllCC(_) => {
            let tax = contribution_tax(all);
            (
                Holdings { cc: h.cc.push(opened(all, tax)), ..h },
                seq![Transaction::BuyCC(BuyReceipt { time, amount: all, tax })],
            )
        },
        Command::BuyNCC(c) => (
            Holdings { ncc: h.ncc.push(opened(c.amount, 0)), ..h },
            seq![Transaction::BuyNCC(BuyReceipt { time, amount: c.amount, tax: 0 })],
        ),
        Command::BuyAllNCC(_) => (
            Holdings { ncc: h.ncc.push(opened(all, 0)), ..h },
            seq![Transaction::BuyNCC(BuyReceipt { time, amount: all, tax: 0 })],
        ),
        Command::Sell(c) => (
            Holdings {
                sg: h.sg,
                cc: kept(h.cc, c.amount as int),
                ncc: kept(h.ncc, c.amount - total(sold_cc(h, c.amount))),
            },
            sale_receipts(time, sold_cc(h, c.amount) + sold_ncc(h, c.amount)),
        ),
        Command::SellAll(_) => (
            Holdings { sg: h.sg, cc: Seq::empty(), ncc: Seq::empty() },
            sale_receipts(time, h.cc + h.ncc),
        ),
    }
}

/// The holdings and the receipts that a week's commands leave, applied in
/// schedule order.
pub open spec fn after_commands(h: Holdings, time: usize, cash: i64, commands: Seq<Command>) -> (
    Holdings,
    Seq<Transaction>,
)
    decreases commands.len(),
{
    if commands.len() == 0 {
        (h, Seq::empty())
    } else {
        let before = after_commands(h, time, cash, commands.drop_last());
        let last = apply_command(before.0, time, cash, commands.last());
        (last.0, before.1 + last.1)
    }
}

/// The combined amount, taxed and untaxed, of the sell receipts in a list.
pub open spec fn withdrawn(receipts: Seq<Transaction>) -> int
    decreases receipts.len(),
{
    if receipts.len() == 0 {
        0
    } else {
        withdrawn(receipts.drop_last()) + match receipts.last() {
            Transaction::Sell(r) => r.taxed_amount + r.untaxed_amount,
            _ => 0,
        }
    }
}

/// The sell receipts of a list of portions add up to the portions' value.
pub proof fn lemma_sale_receipts_total(time: usize, portions: Seq<Lot>)
    ensures
        withdrawn(sale_receipts(time, portions)) == total(portions),
    decreases portions.len(),
{
    if portions.len() > 0 {
        lemma_sale_receipts_total(time, portions.drop_last());
        assert(sale_receipts(time, portions).drop_last() =~= sale_receipts(
            time,
            portions.drop_last(),
        ));
    }
}

/// The total of two lists of lots, one after the other.
pub proof fn lemma_total_concat(a: Seq<Lot>, b: Seq<Lot>)
    ensures
        total(a + b) == total(a) + total(b),
    decreases b.len(),
{
    if b.len() == 0 {
        assert(a + b =~= a);
    } else {
        lemma_total_concat(a, b.drop_last());
        assert((a + b).drop_last() =~= a + b.drop_last());
    }
}

/// A withdrawal of `amount` yields receipts that add up to exactly `amount`
/// where the two pools that it draws on hold that much; where they hold less,
/// the receipts add up to all they hold and both pools are left empty. Either
/// way the pools lose exactly what the receipts report.
pub proof fn lemma_withdrawal(h: Holdings, time: usize, cash: i64, amount: u64)
    requires
        h.wf(),
    ensures
        ({
            let after = apply_command(h, time, cash, Command::Sell(SellCommand { time, amount }));
            &&& amount <= h.withdrawable() ==> withdrawn(after.1) == amount
            &&& amount > h.withdrawable() ==> {
                &&& withdrawn(after.1) == h.withdrawable()
                &&& after.0.cc.len() == 0
                &&& after.0.ncc.len() == 0
            }
            &&& after.0.withdrawable() == h.withdrawable() - withdrawn(after.1)
            &&& after.0.sg == h.sg
        }),
{
    let from_cc = sold_cc(h, amount);
    let from_ncc = sold_ncc(h, amount);
    crate::lots::lemma_total_nonnegative(h.cc);
    lemma_sale_totals(h.cc, amount as int);
    lemma_sale_totals(h.ncc, amount - total(from_cc));
    lemma_total_concat(from_cc, from_ncc);
    lemma_sale_receipts_total(time, from_cc + from_ncc);
    crate::lots::lemma_total_nonnegative(h.cc);
    crate::lots::lemma_total_nonnegative(h.ncc);
}

/// Whatever the commands of a week, pools of well-formed lots stay such.
pub proof fn lemma_after_commands_wf(
    h: Holdings,
    time: usize,
    cash: i64,
    commands: Seq<Command>,
)
    requires
        h.wf(),
    ensures
        after_commands(h, time, cash, commands).0.wf(),
    decreases commands.len(),
{
    if commands.len() > 0 {
        lemma_after_commands_wf(h, time, cash, commands.drop_last());
        let before = after_commands(h, time, cash, commands.drop_last()).0;
        match commands.last() {
            Command::Sell(c) => {
                crate::lots::lemma_sale_wf(before.cc, c.amount as int);
                crate::lots::lemma_sale_wf(
                    before.ncc,
                    c.amount - total(sold_cc(before, c.amount)),
                );
            },
            _ => {},
        }
    }
}

/// Simulating a week leaves an account of well-formed lots one, with a
/// series as long as before.
pub proof fn lemma_step_wf(
    account: Account,
    time: usize,
    params: Params,
    commands: Map<usize, Vec<Command>>,
    cash: i64,
)
    requires
        account.holdings.wf(),
        time < account.values.len(),
    ensures
        step(account, time, params, commands, cash).0.holdings.wf(),
        step(account, time, params, commands, cash).0.values.len() == account.values.len(),
{
    let factor = weekly_factor(params.annual_ror);
    crate::fixed::lemma_weekly_factor_bounds(params.annual_ror);
    crate::lots::lemma_grown_wf(account.holdings.sg, factor);
    crate::lots::lemma_grown_wf(account.holdings.cc, factor);
    crate::lots::lemma_grown_wf(account.holdings.ncc, factor);
    lemma_after_commands_wf(
        account.holdings.grown(factor),
        time,
        cash,
        commands_at(commands, time),
    );
}

/// What the retirement account holds: its value at each week simulated so
/// far, zero elsewhere, and its three pools.
pub struct Account {
    pub values: Seq<u64>,
    pub holdings: Holdings,
}

/// The account and the receipts that simulating week `time` leaves: every lot
/// earns one week's return, the combined value of the pools is recorded for
/// the week, and the week's commands are applied in schedule order, given the
/// cash ledger's value `cash` for the week.
pub open spec fn step(
    account: Account,
    time: usize,
    params: Params,
    commands: Map<usize, Vec<Command>>,
    cash: i64,
) -> (Account, Seq<Transaction>) {
    let grown = account.holdings.grown(weekly_factor(params.annual_ror));
    let after = after_commands(grown, time, cash, commands_at(commands, time));
    (
        Account {
            values: account.values.update(time as int, cap_u64(grown.total()) as u64),
            holdings: after.0,
        },
        after.1,
    )
}

/// The retirement account: its value week by week and its three pools.
pub struct Asset {
    value: Vec<u64>,
    sg_shares: Pool,
    cc_shares: Pool,
    ncc_shares: Pool,
}

impl View for Asset {
    type V = Account;

    closed spec fn view(&self) -> Account {
        Account {
            values: self.value@,
            holdings: Holdings { sg: self.sg_shares@, cc: self.cc_shares@, ncc: self.ncc_shares@ },
        }
    }
}

/// Appends one sell receipt for each portion to `receipts`.
fn push_sales(receipts: &mut Vec<Transaction>, time: usize, portions: &Vec<Lot>)
    ensures
        final(receipts)@ == old(receipts)@ + sale_receipts(time, portions@),
{
    let ghost before = receipts@;
    let mut i: usize = 0;
    while i < portions.len()
        invariant
            i <= portions@.len(),
            receipts@ == before + sale_receipts(time, portions@.take(i as int)),
        decreases portions@.len() - i,
    {
        let lot: Lot = portions[i];
        receipts.push(Transaction::Sell(SellReceipt::new(time, lot.principal, lot.gain)));
        assert(receipts@ =~= before + sale_receipts(time, portions@.take(i + 1)));
        i += 1;
    }
    assert(portions@.take(portions@.len() as int) =~= portions@);
}

impl Asset {
    /// The account's value at each week simulated so far; zero elsewhere.
    pub open spec fn values(&self) -> Seq<u64> {
        self@.values
    }

    /// The three pools.
    pub open spec fn holdings(&self) -> Holdings {
        self@.holdings
    }

    /// Every lot held is well formed.
    pub open spec fn wf(&self) -> bool {
        self.holdings().wf()
    }

    /// An empty account over a horizon of `num_timesteps` weeks.
    pub fn new(num_timesteps: usize) -> (asset: Asset)
        ensures
            asset.wf(),
            asset.values() == Seq::new(num_timesteps as nat, |i: int| 0u64),
            asset.holdings() == (Holdings {
                sg: Seq::empty(),
                cc: Seq::empty(),
                ncc: Seq::empty(),
            }),
    {
        let value: Vec<u64> = vec![0u64; num_timesteps];
        assert(value@ =~= Seq::new(num_timesteps as nat, |i: int| 0u64));
        Asset {
            value,
            sg_shares: Pool::new(),
            cc_shares: Pool::new(),
            ncc_shares: Pool::new(),
        }
    }

    /// The account's value at week `time`.
    pub fn value_at(&self, time: usize) -> (v: u64)
        requires
            time < self.values().len(),
        ensures
            v == self.values()[time as int],
    {
        self.value[time]
    }

    /// Writes the series to `file`, which holds the text of the output file:
    /// one line for each week of the horizon.
    pub fn write_to_file(&self, file: &mut Vec<u8>)
        ensures
            final(file)@ == old(file)@ + crate::report::series_text(self.values()),
    {
        crate::report::write_series(file, &self.value);
    }

    /// The number of weeks in the horizon.
    pub fn num_timesteps(&self) -> (n: usize)
        ensures
            n == self.values().len(),
    {
        self.value.len()
    }

    /// Applies one command to the pools and appends its receipts.
    fn apply(&mut self, time: usize, cash: i64, command: &Command, receipts: &mut Vec<Transaction>)
        requires
            old(self).wf(),
        ensures
            final(self).wf(),
            final(self).values() == old(self).values(),
            final(self).holdings() == apply_command(old(self).holdings(), time, cash, *command).0,
            final(receipts)@ == old(receipts)@ + apply_command(
                old(self).holdings(),
                time,
                cash,
                *command,
            ).1,
    {
        let ghost h = self.holdings();
        match command {
            Command::BuySG(c) => {
                let tax: u64 = mul_div(c.amount, 15, 100);
                self.sg_shares.push(Lot::new(c.amount - tax));
                receipts.push(Transaction::BuySG(BuyReceipt::new(time, c.amount, tax)));
                assert(receipts@ =~= old(receipts)@ + apply_command(h, time, cash, *command).1);
            },
            Command::BuyCC(c) => {
                let tax: u64 = mul_div(c.amount, 15, 100);
                self.cc_shares.push(Lot::new(c.amount - tax));
                receipts.push(Transaction::BuyCC(BuyReceipt::new(time, c.amount, tax)));
                assert(receipts@ =~= old(receipts)@ + apply_command(h, time, cash, *command).1);
            },
            Command::BuyAllCC(_) => {
                let amount: u64 = available_cash(cash);
                let tax: u64 = mul_div(amount, 15, 100);
                self.cc_shares.push(Lot::new(amount - tax));
                receipts.push(Transaction::BuyCC(BuyReceipt::new(time, amount, tax)));
                assert(receipts@ =~= old(receipts)@ + apply_command(h, time, cash, *command).1);
            },
            Command::BuyNCC(c) => {
                self.ncc_shares.push(Lot::new(c.amount));
                receipts.push(Transaction::BuyNCC(BuyReceipt::new(time, c.amount, 0)));
                assert(receipts@ =~= old(receipts)@ + apply_command(h, time, cash, *command).1);
            },
            Command::BuyAllNCC(_) => {
                let amount: u64 = available_cash(cash);
                self.ncc_shares.push(Lot::new(amount));
                receipts.push(Transaction::BuyNCC(BuyReceipt::new(time, amount, 0)));
                assert(receipts@ =~= old(receipts)@ + apply_command(h, time, cash, *command).1);
            },
            Command::Sell(c) => {
                let from_cc: Vec<Lot> = self.cc_shares.sell(c.amount);
                proof {
                    lemma_sale_totals(h.cc, c.amount as int);
                    crate::lots::lemma_total_nonnegative(h.cc);
                }
                let taken: u64 = value_of(&from_cc);
                let from_ncc: Vec<Lot> = self.ncc_shares.sell(c.amount - taken);
                push_sales(receipts, time, &from_cc);
                push_sales(receipts, time, &from_ncc);
                assert(receipts@ =~= old(receipts)@ + sale_receipts(time, from_cc@ + from_ncc@));
            },
            Command::SellAll(_) => {
                let from_cc: Vec<Lot> = self.cc_shares.drain();
                let from_ncc: Vec<Lot> = self.ncc_shares.drain();
                push_sales(receipts, time, &from_cc);
                push_sales(receipts, time, &from_ncc);
                assert(receipts@ =~= old(receipts)@ + sale_receipts(time, from_cc@ + from_ncc@));
            },
        }
    }

    /// Simulates week `time`: every lot earns one week's return, the account's
    /// value for the week is recorded, and the week's commands are applied in
    /// schedule order. Returns the receipts of the commands, in order.
    pub fn simulate_timestep(
        &mut self,
        time: usize,
        params: Params,
        commands: &HashMap<usize, Vec<Command>>,
        cash: &Vec<i64>,
    ) -> (receipts: Option<Vec<Transaction>>)
        requires
            old(self).wf(),
            time < old(self).values().len(),
            time < cash@.len(),
        ensures
            final(self).wf(),
            final(self)@ == step(old(self)@, time, params, commands@, cash@[time as int]).0,
            reported(receipts, step(old(self)@, time, params, commands@, cash@[time as int]).1),
    {
        let factor: u64 = weekly_growth_factor(params.annual_ror);
        self.sg_shares.grow(factor);
        self.cc_shares.grow(factor);
        self.ncc_shares.grow(factor);
        let ghost grown = self.holdings();
        proof {
            crate::lots::lemma_total_nonnegative(grown.sg);
            crate::lots::lemma_total_nonnegative(grown.cc);
            crate::lots::lemma_total_nonnegative(grown.ncc);
        }
        let value: u64 = sat_add(
            sat_add(self.sg_shares.value(), self.cc_shares.value()),
            self.ncc_shares.value(),
        );
        self.value[time] = value;
        let mut receipts: Vec<Transaction> = Vec::new();
        let week_cash: i64 = cash[time];
        if let Some(list) = lookup(commands, time) {
            let mut i: usize = 0;
            while i < list.len()
                invariant
                    i <= list@.len(),
                    self.wf(),
                    self.values() == old(self).values().update(time as int, value),
                    self.holdings() == after_commands(
                        grown,
                        time,
                        week_cash,
                        list@.take(i as int),
                    ).0,
                    receipts@ == after_commands(grown, time, week_cash, list@.take(i as int)).1,
                decreases list@.len() - i,
            {
                assert(list@.take(i + 1).drop_last() =~= list@.take(i as int));
                self.apply(time, week_cash, &list[i], &mut receipts);
                i += 1;
            }
            assert(list@.take(list@.len() as int) =~= list@);
        }
        wrap(receipts)
    }
}

} // verus!
