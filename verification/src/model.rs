//! The simulation: the weekly loop that drives the six instruments in a fixed
//! order and folds their receipts into the shared ledgers.
//!
//! Two ledgers are shared: cash, a running balance, and taxable income, which
//! accrues week by week. Each week the cash balance is carried forward, at the
//! start of each year after the first the taxes on the year just ended are
//! deducted, and then the home, the home loan, the car loan, the study debt,
//! the share portfolio and the retirement account are simulated in that
//! order. An instrument whose commands ask for all available cash sees the
//! cash ledger as the instruments before it have left it.

use crate::fixed::{cap_i64, cap_u64, credit, debit, narrow, sat_add};
use crate::params::Rates;
use crate::schedule::{lemma_listed, listed};
use crate::tax::{
    net_income, reconcile_tax, reconciliation, release_tax, tax_income, tax_super_fhss,
};
use crate::{car_loan, hecs, home, home_loan, shares, superannuation};
use std::collections::HashMap;
use vstd::prelude::*;
use vstd::slice::slice_subrange;

verus! {

/// The command schedule of each instrument.
pub struct Schedules {
    pub home: HashMap<usize, Vec<home::Command>>,
    pub home_loan: HashMap<usize, Vec<home_loan::Command>>,
    pub car_loan: HashMap<usize, Vec<car_loan::Command>>,
    pub hecs: HashMap<usize, Vec<hecs::Command>>,
    pub shares: HashMap<usize, Vec<shares::Command>>,
    pub superannuation: HashMap<usize, Vec<superannuation::Command>>,
}

/// What a simulation is given and never changes: the rates, the schedules,
/// the weekly income and the weekly tax thresholds.
pub struct Setting {
    pub rates: Rates,
    pub home: Map<usize, Vec<home::Command>>,
    pub home_loan: Map<usize, Vec<home_loan::Command>>,
    pub car_loan: Map<usize, Vec<car_loan::Command>>,
    pub hecs: Map<usize, Vec<hecs::Command>>,
    pub shares: Map<usize, Vec<shares::Command>>,
    pub superannuation: Map<usize, Vec<superannuation::Command>>,
    pub income: Seq<u64>,
    pub tax_brackets: Seq<[u64; 4]>,
}

/// What a simulation changes: the ledgers and the instruments.
pub struct State {
    pub cash: Seq<i64>,
    pub taxable_income: Seq<i64>,
    pub released_taxed: Seq<u64>,
    pub released_untaxed: Seq<i64>,
    pub home: Seq<u64>,
    pub home_loan: home_loan::Loan,
    pub car_loan: car_loan::Account,
    pub hecs: hecs::StudyDebt,
    pub shares: shares::Portfolio,
    pub superannuation: superannuation::Account,
}

/// The ledger entries of one week: cash, taxable income, and the taxed and
/// untaxed retirement savings released.
#[derive(Clone, Copy, Debug, PartialEq, Eq, Structural)]
pub struct Entries {
    pub cash: i64,
    pub taxable_income: i64,
    pub released_taxed: u64,
    pub released_untaxed: i64,
}

/// A series of amounts as ledger entries.
pub open spec fn ledger(amounts: Seq<u64>) -> Seq<i64> {
    Seq::new(amounts.len(), |i: int| cap_i64(amounts[i] as int) as i64)
}

/// The entries once a receipt of the home has been booked: a purchase is paid
/// from cash, the proceeds of a sale are added to it.
pub open spec fn home_effect(e: Entries, receipt: home::Transaction) -> Entries {
    match receipt {
        home::Transaction::Buy(r) => Entries { cash: cap_i64(e.cash - r.amount) as i64, ..e },
        home::Transaction::Sell(r) => Entries { cash: cap_i64(e.cash + r.amount) as i64, ..e },
    }
}

/// The entries once the receipts of the home have been booked, in order.
pub open spec fn home_book(e: Entries, receipts: Seq<home::Transaction>) -> Entries
    decreases receipts.len(),
{
    if receipts.len() == 0 {
        e
    } else {
        home_effect(home_book(e, receipts.drop_last()), receipts.last())
    }
}

/// The entries once a receipt of the home loan has been booked: the funds of a
/// new loan are added to cash, a payment is made from it.
pub open spec fn home_loan_effect(e: Entries, receipt: home_loan::Transaction) -> Entries {
    match receipt {
        home_loan::Transaction::Start(r) => Entries {
            cash: cap_i64(e.cash + r.amount) as i64,
            ..e
        },
        home_loan::Transaction::Pay(r) => Entries { cash: cap_i64(e.cash - r.amount) as i64, ..e },
    }
}

/// The entries once the receipts of the home loan have been booked, in order.
pub open spec fn home_loan_book(e: Entries, receipts: Seq<home_loan::Transaction>) -> Entries
    decreases receipts.len(),
{
    if receipts.len() == 0 {
        e
    } else {
        home_loan_effect(home_loan_book(e, receipts.drop_last()), receipts.last())
    }
}

/// The entries once a receipt of the car loan has been booked: a payment is
/// made from cash.
pub open spec fn car_loan_effect(e: Entries, receipt: car_loan::Transaction) -> Entries {
    match receipt {
        car_loan::Transaction::Pay(r) => Entries { cash: cap_i64(e.cash - r.amount) as i64, ..e },
    }
}

/// The entries once the receipts of the car loan have been booked, in order.
pub open spec fn car_loan_book(e: Entries, receipts: Seq<car_loan::Transaction>) -> Entries
    decreases receipts.len(),
{
    if receipts.len() == 0 {
        e
    } else {
        car_loan_effect(car_loan_book(e, receipts.drop_last()), receipts.last())
    }
}

/// The entries once a receipt of the study debt has been booked: a payment is
/// made from cash.
pub open spec fn hecs_effect(e: Entries, receipt: hecs::Transaction) -> Entries {
    match receipt {
        hecs::Transaction::Pay(r) => Entries { cash: cap_i64(e.cash - r.amount) as i64, ..e },
    }
}

/// The entries once the receipts of the study debt have been booked, in
/// order.
pub open spec fn hecs_book(e: Entries, receipts: Seq<hecs::Transaction>) -> Entries
    decreases receipts.len(),
{
    if receipts.len() == 0 {
        e
    } else {
        hecs_effect(hecs_book(e, receipts.drop_last()), receipts.last())
    }
}

/// The entries once a receipt of the share portfolio has been booked: a
/// purchase is paid from cash; the proceeds of a sale are added to cash and
/// its taxable amount to taxable income.
pub open spec fn shares_effect(e: Entries, receipt: shares::Transaction) -> Entries {
    match receipt {
        shares::Transaction::Buy(r) => Entries { cash: cap_i64(e.cash - r.amount) as i64, ..e },
        shares::Transaction::Sell(r) => Entries {
            cash: cap_i64(e.cash + r.amount) as i64,
            taxable_income: cap_i64(e.taxable_income + r.taxable_amount) as i64,
            ..e
        },
    }
}

/// The entries once the receipts of the share portfolio have been booked, in
/// order.
pub open spec fn shares_book(e: Entries, receipts: Seq<shares::Transaction>) -> Entries
    decreases receipts.len(),
{
    if receipts.len() == 0 {
        e
    } else {
        shares_effect(shares_book(e, receipts.drop_last()), receipts.last())
    }
}

/// The entries once a receipt of the retirement account has been booked. A
/// guarantee contribution touches no ledger. A concessional contribution is
/// paid from cash and its gross amount taken off taxable income. A
/// non-concessional contribution is paid from cash. What a withdrawal
/// releases is added to cash, its taxed and untaxed components to the
/// released savings.
pub open spec fn superannuation_effect(e: Entries, receipt: superannuation::Transaction)
    -> Entries {
    match receipt {
        superannuation::Transaction::BuySG(_) => e,
        superannuation::Transaction::BuyCC(r) => Entries {
            cash: cap_i64(e.cash - r.amount) as i64,
            taxable_income: cap_i64(e.taxable_income - r.amount) as i64,
            ..e
        },
        superannuation::Transaction::BuyNCC(r) => Entries {
            cash: cap_i64(e.cash - r.amount) as i64,
            ..e
        },
        superannuation::Transaction::Sell(r) => Entries {
            cash: cap_i64(e.cash + r.taxed_amount + r.untaxed_amount) as i64,
            taxable_income: e.taxable_income,
            released_taxed: cap_u64(e.released_taxed + r.taxed_amount) as u64,
            released_untaxed: cap_i64(e.released_untaxed + r.untaxed_amount) as i64,
        },
    }
}

/// The entries once the receipts of the retirement account have been booked,
/// in order.
pub open spec fn superannuation_book(
    e: Entries,
    receipts: Seq<superannuation::Transaction>,
) -> Entries
    decreases receipts.len(),
{
    if receipts.len() == 0 {
        e
    } else {
        superannuation_effect(superannuation_book(e, receipts.drop_last()), receipts.last())
    }
}

/// Week `t` starts a year other than the first.
pub open spec fn starts_year(t: usize) -> bool {
    t > 0 && t % 52 == 0
}

/// The taxes that fall due at the start of week `t` on the fifty-two weeks
/// before it: the reconciliation of the year's tax and the tax on released
/// retirement savings, each under the thresholds of week `t`.
pub open spec fn year_taxes(setting: Setting, s: State, t: usize) -> (int, int) {
    let taxable = s.taxable_income.subrange(t - 52, t as int);
    let thresholds = setting.tax_brackets[t as int]@;
    (
        reconciliation(taxable, ledger(setting.income).subrange(t - 52, t as int), thresholds),
        release_tax(
            taxable,
            s.released_taxed.subrange(t - 52, t as int),
            s.released_untaxed.subrange(t - 52, t as int),
            thresholds,
        ),
    )
}

/// The cash with which week `t` opens: the week's own entry carried forward
/// on the previous week's balance, less, at the start of a year, the taxes on
/// the year just ended.
pub open spec fn opening_cash(setting: Setting, s: State, t: usize) -> i64 {
    let carried = if t > 0 {
        cap_i64(s.cash[t as int] + s.cash[t - 1])
    } else {
        s.cash[t as int] as int
    };
    if starts_year(t) {
        let taxes = year_taxes(setting, s, t);
        cap_i64(cap_i64(carried - taxes.0) - taxes.1) as i64
    } else {
        carried as i64
    }
}

/// The state after week `t`, given the state before it.
pub open spec fn week(setting: Setting, s: State, t: usize) -> State {
    let rates = setting.rates;
    let e0 = Entries {
        cash: opening_cash(setting, s, t),
        taxable_income: s.taxable_income[t as int],
        released_taxed: s.released_taxed[t as int],
        released_untaxed: s.released_untaxed[t as int],
    };
    let home = home::step(
        s.home,
        t,
        home::Params { annual_ror: rates.home_appreciation_rate },
        setting.home,
    );
    let e1 = home_book(e0, home.1);
    let home_loan = home_loan::step(
        s.home_loan,
        t,
        home_loan::Params { annual_interest_rate: rates.home_loan_interest_rate },
        setting.home_loan,
        e1.cash,
    );
    let e2 = home_loan_book(e1, home_loan.1);
    let car_loan = car_loan::step(
        s.car_loan,
        t,
        car_loan::Params { annual_interest_rate: rates.car_loan_interest_rate },
        setting.car_loan,
    );
    let e3 = car_loan_book(e2, car_loan.1);
    let hecs = hecs::step(
        s.hecs,
        t,
        hecs::Params { annual_indexation_rate: rates.hecs_indexation_rate },
        setting.hecs,
        setting.income,
    );
    let e4 = hecs_book(e3, hecs.1);
    let shares = shares::step(
        s.shares,
        t,
        shares::Params { annual_ror: rates.shares_ror },
        setting.shares,
    );
    let e5 = shares_book(e4, shares.1);
    let superannuation = superannuation::step(
        s.superannuation,
        t,
        superannuation::Params { annual_ror: rates.super_ror },
        setting.superannuation,
        e5.cash,
    );
    let e6 = superannuation_book(e5, superannuation.1);
    State {
        cash: s.cash.update(t as int, e6.cash),
        taxable_income: s.taxable_income.update(t as int, e6.taxable_income),
        released_taxed: s.released_taxed.update(t as int, e6.released_taxed),
        released_untaxed: s.released_untaxed.update(t as int, e6.released_untaxed),
        home: home.0,
        home_loan: home_loan.0,
        car_loan: car_loan.0,
        hecs: hecs.0,
        shares: shares.0,
        superannuation: superannuation.0,
    }
}

/// The state after the first `n` weeks, given the state before week 0.
pub open spec fn after_weeks(setting: Setting, s: State, n: nat) -> State
    decreases n,
{
    if n == 0 {
        s
    } else {
        week(setting, after_weeks(setting, s, (n - 1) as nat), (n - 1) as usize)
    }
}

/// The state before week 0: each week's cash entry is the week's income net
/// of the tax withheld from it, less the week's expenses; taxable income is
/// the income; no instrument holds anything.
pub open spec fn initial(setting: Setting, expenses: Seq<u64>) -> State {
    let n = setting.income.len();
    let nothing = Seq::new(n, |i: int| 0u64);
    State {
        cash: Seq::new(
            n,
            |t: int|
                cap_i64(
                    net_income(
                        ledger(setting.income),
                        setting.tax_brackets,
                        setting.rates.inflation_rate,
                        t,
                    ) - expenses[t],
                ) as i64,
        ),
        taxable_income: ledger(setting.income),
        released_taxed: nothing,
        released_untaxed: Seq::new(n, |i: int| 0i64),
        home: nothing,
        home_loan: home_loan::Loan { values: nothing, repayment: None },
        car_loan: car_loan::Account {
            values: nothing,
            balloons: nothing,
            due: None,
            repayment: None,
        },
        hecs: hecs::StudyDebt { values: nothing, repayment: None },
        shares: shares::Portfolio { values: nothing, lots: Seq::empty() },
        superannuation: superannuation::Account {
            values: nothing,
            holdings: superannuation::Holdings {
                sg: Seq::empty(),
                cc: Seq::empty(),
                ncc: Seq::empty(),
            },
        },
    }
}

/// Every series of the state covers `n` weeks, and every lot held is well
/// formed.
pub open spec fn covers(s: State, n: nat) -> bool {
    &&& s.cash.len() == n
    &&& s.taxable_income.len() == n
    &&& s.released_taxed.len() == n
    &&& s.released_untaxed.len() == n
    &&& s.home.len() == n
    &&& s.home_loan.values.len() == n
    &&& s.car_loan.values.len() == n
    &&& s.car_loan.balloons.len() == n
    &&& s.hecs.values.len() == n
    &&& s.shares.values.len() == n
    &&& crate::lots::all_wf(s.shares.lots)
    &&& s.superannuation.values.len() == n
    &&& s.superannuation.holdings.wf()
}

/// No instrument's value is negative at any week.
pub open spec fn nonnegative(s: State) -> bool {
    &&& forall|t: int| 0 <= t < s.home.len() ==> s.home[t] >= 0
    &&& forall|t: int| 0 <= t < s.home_loan.values.len() ==> s.home_loan.values[t] >= 0
    &&& forall|t: int| 0 <= t < s.car_loan.values.len() ==> s.car_loan.values[t] >= 0
    &&& forall|t: int| 0 <= t < s.car_loan.balloons.len() ==> s.car_loan.balloons[t] >= 0
    &&& forall|t: int| 0 <= t < s.hecs.values.len() ==> s.hecs.values[t] >= 0
    &&& forall|t: int| 0 <= t < s.shares.values.len() ==> s.shares.values[t] >= 0
    &&& forall|t: int|
        0 <= t < s.superannuation.values.len() ==> s.superannuation.values[t] >= 0
}

/// Simulating a week within the horizon keeps a state covering the horizon,
/// and leaves no instrument's value negative at any week.
pub proof fn lemma_week_covers(setting: Setting, s: State, t: usize, n: nat)
    requires
        covers(s, n),
        t < n,
    ensures
        covers(week(setting, s, t), n),
        nonnegative(week(setting, s, t)),
{
    let rates = setting.rates;
    shares::lemma_step_wf(
        s.shares,
        t,
        shares::Params { annual_ror: rates.shares_ror },
        setting.shares,
    );
    let params = superannuation::Params { annual_ror: rates.super_ror };
    assert forall|cash: i64|
        {
            let account = (#[trigger] superannuation::step(
                s.superannuation,
                t,
                params,
                setting.superannuation,
                cash,
            )).0;
            account.holdings.wf() && account.values.len() == n
        } by {
        superannuation::lemma_step_wf(s.superannuation, t, params, setting.superannuation, cash);
    }
}

/// The state before week 0 covers the weeks that the income covers.
pub proof fn lemma_initial_covers(setting: Setting, expenses: Seq<u64>)
    ensures
        covers(initial(setting, expenses), setting.income.len()),
        nonnegative(initial(setting, expenses)),
{
}

/// Every state that a run reaches covers the horizon, with no instrument's
/// value negative at any week.
pub proof fn lemma_after_weeks_covers(setting: Setting, s: State, weeks: nat, n: nat)
    requires
        covers(s, n),
        weeks <= n,
        n <= usize::MAX,
    ensures
        covers(after_weeks(setting, s, weeks), n),
        nonnegative(after_weeks(setting, s, weeks)),
    decreases weeks,
{
    if weeks > 0 {
        lemma_after_weeks_covers(setting, s, (weeks - 1) as nat, n);
        lemma_week_covers(
            setting,
            after_weeks(setting, s, (weeks - 1) as nat),
            (weeks - 1) as usize,
            n,
        );
    }
}

/// Books the receipts of the home into the entries of the week.
fn book_home(entries: Entries, receipts: &Option<Vec<home::Transaction>>) -> (r: Entries)
    ensures
        r == home_book(entries, listed(*receipts)),
{
    let mut e: Entries = entries;
    if let Some(list) = receipts {
        let mut i: usize = 0;
        while i < list.len()
            invariant
                i <= list@.len(),
                e == home_book(entries, list@.take(i as int)),
            decreases list@.len() - i,
        {
            assert(list@.take(i + 1).drop_last() =~= list@.take(i as int));
            match &list[i] {
                home::Transaction::Buy(r) => {
                    e.cash = debit(e.cash, r.amount);
                },
                home::Transaction::Sell(r) => {
                    e.cash = credit(e.cash, r.amount);
                },
            }
            i += 1;
        }
        assert(list@.take(list@.len() as int) =~= list@);
    }
    e
}

/// Books the receipts of the home loan into the entries of the week.
fn book_home_loan(entries: Entries, receipts: &Option<Vec<home_loan::Transaction>>) -> (r: Entries)
    ensures
        r == home_loan_book(entries, listed(*receipts)),
{
    let mut e: Entries = entries;
    if let Some(list) = receipts {
        let mut i: usize = 0;
        while i < list.len()
            invariant
                i <= list@.len(),
                e == home_loan_book(entries, list@.take(i as int)),
            decreases list@.len() - i,
        {
            assert(list@.take(i + 1).drop_last() =~= list@.take(i as int));
            match &list[i] {
                home_loan::Transaction::Start(r) => {
                    e.cash = credit(e.cash, r.amount);
                },
                home_loan::Transaction::Pay(r) => {
                    e.cash = debit(e.cash, r.amount);
                },
            }
            i += 1;
        }
        assert(list@.take(list@.len() as int) =~= list@);
    }
    e
}

/// Books the receipts of the car loan into the entries of the week.
fn book_car_loan(entries: Entries, receipts: &Option<Vec<car_loan::Transaction>>) -> (r: Entries)
    ensures
        r == car_loan_book(entries, listed(*receipts)),
{
    let mut e: Entries = entries;
    if let Some(list) = receipts {
        let mut i: usize = 0;
        while i < list.len()
            invariant
                i <= list@.len(),
                e == car_loan_book(entries, list@.take(i as int)),
            decreases list@.len() - i,
        {
            assert(list@.take(i + 1).drop_last() =~= list@.take(i as int));
            match &list[i] {
                car_loan::Transaction::Pay(r) => {
                    e.cash = debit(e.cash, r.amount);
                },
            }
            i += 1;
        }
        assert(list@.take(list@.len() as int) =~= list@);
    }
    e
}

/// Books the receipts of the study debt into the entries of the week.
fn book_hecs(entries: Entries, receipts: &Option<Vec<hecs::Transaction>>) -> (r: Entries)
    ensures
        r == hecs_book(entries, listed(*receipts)),
{
    let mut e: Entries = entries;
    if let Some(list) = receipts {
        let mut i: usize = 0;
        while i < list.len()
            invariant
                i <= list@.len(),
                e == hecs_book(entries, list@.take(i as int)),
            decreases list@.len() - i,
        {
            assert(list@.take(i + 1).drop_last() =~= list@.take(i as int));
            match &list[i] {
                hecs::Transaction::Pay(r) => {
                    e.cash = debit(e.cash, r.amount);
                },
            }
            i += 1;
        }
        assert(list@.take(list@.len() as int) =~= list@);
    }
    e
}

/// Books the receipts of the share portfolio into the entries of the week.
fn book_shares(entries: Entries, receipts: &Option<Vec<shares::Transaction>>) -> (r: Entries)
    ensures
        r == shares_book(entries, listed(*receipts)),
{
    let mut e: Entries = entries;
    if let Some(list) = receipts {
        let mut i: usize = 0;
        while i < list.len()
            invariant
                i <= list@.len(),
                e == shares_book(entries, list@.take(i as int)),
            decreases list@.len() - i,
        {
            assert(list@.take(i + 1).drop_last() =~= list@.take(i as int));
            match &list[i] {
                shares::Transaction::Buy(r) => {
                    e.cash = debit(e.cash, r.amount);
                },
                shares::Transaction::Sell(r) => {
                    e.cash = credit(e.cash, r.amount);
                    e.taxable_income = narrow(e.taxable_income as i128 + r.taxable_amount as i128);
                },
            }
            i += 1;
        }
        assert(list@.take(list@.len() as int) =~= list@);
    }
    e
}

/// Books the receipts of the retirement account into the entries of the
/// week.
fn book_superannuation(
    entries: Entries,
    receipts: &Option<Vec<superannuation::Transaction>>,
) -> (r: Entries)
    ensures
        r == superannuation_book(entries, listed(*receipts)),
{
    let mut e: Entries = entries;
    if let Some(list) = receipts {
        let mut i: usize = 0;
        while i < list.len()
            invariant
                i <= list@.len(),
                e == superannuation_book(entries, list@.take(i as int)),
            decreases list@.len() - i,
        {
            assert(list@.take(i + 1).drop_last() =~= list@.take(i as int));
            match &list[i] {
                superannuation::Transaction::BuySG(_) => {},
                superannuation::Transaction::BuyCC(r) => {
                    e.cash = debit(e.cash, r.amount);
                    e.taxable_income = debit(e.taxable_income, r.amount);
                },
                superannuation::Transaction::BuyNCC(r) => {
                    e.cash = debit(e.cash, r.amount);
                },
                superannuation::Transaction::Sell(r) => {
                    e.cash = narrow(
                        e.cash as i128 + r.taxed_amount as i128 + r.untaxed_amount as i128,
                    );
                    e.released_taxed = sat_add(e.released_taxed, r.taxed_amount);
                    e.released_untaxed = narrow(
                        e.released_untaxed as i128 + r.untaxed_amount as i128,
                    );
                },
            }
            i += 1;
        }
        assert(list@.take(list@.len() as int) =~= list@);
    }
    e
}

/// A series of amounts as ledger entries.
fn to_ledger(amounts: &Vec<u64>) -> (entries: Vec<i64>)
    ensures
        entries@ == ledger(amounts@),
{
    let mut entries: Vec<i64> = Vec::new();
    let mut i: usize = 0;
    while i < amounts.len()
        invariant
            i <= amounts@.len(),
            entries@.len() == i,
            forall|k: int| 0 <= k < i ==> entries@[k] == cap_i64(amounts@[k] as int),
        decreases amounts@.len() - i,
    {
        entries.push(narrow(amounts[i] as i128));
        i += 1;
    }
    assert(entries@ =~= ledger(amounts@));
    entries
}

/// A simulation: what it was given, its ledgers and its instruments.
pub struct Model {
    rates: Rates,
    schedules: Schedules,
    income: Vec<u64>,
    original_income: Vec<i64>,
    tax_brackets: Vec<[u64; 4]>,
    cash: Vec<i64>,
    taxable_income: Vec<i64>,
    fhss_taxed: Vec<u64>,
    fhss_untaxed: Vec<i64>,
    home: home::Asset,
    home_loan: home_loan::Asset,
    car_loan: car_loan::Asset,
    hecs: hecs::Asset,
    shares: shares::Asset,
    superannuation: superannuation::Asset,
}

impl View for Model {
    type V = State;

    closed spec fn view(&self) -> State {
        State {
            cash: self.cash@,
            taxable_income: self.taxable_income@,
            released_taxed: self.fhss_taxed@,
            released_untaxed: self.fhss_untaxed@,
            home: self.home@,
            home_loan: self.home_loan@,
            car_loan: self.car_loan@,
            hecs: self.hecs@,
            shares: self.shares@,
            superannuation: self.superannuation@,
        }
    }
}

impl Model {
    /// What the simulation was given.
    pub closed spec fn setting(&self) -> Setting {
        Setting {
            rates: self.rates,
            home: self.schedules.home@,
            home_loan: self.schedules.home_loan@,
            car_loan: self.schedules.car_loan@,
            hecs: self.schedules.hecs@,
            shares: self.schedules.shares@,
            superannuation: self.schedules.superannuation@,
            income: self.income@,
            tax_brackets: self.tax_brackets@,
        }
    }

    /// The simulation's parts fit together.
    pub closed spec fn wf(&self) -> bool {
        &&& self.original_income@ == ledger(self.income@)
        &&& self.tax_brackets@.len() == self.income@.len()
        &&& covers(self@, self.income@.len())
    }

    /// The number of weeks in the horizon.
    pub open spec fn horizon(&self) -> nat {
        self.setting().income.len()
    }

    /// A simulation over the weeks that `income` covers, before week 0.
    pub fn new(
        rates: Rates,
        schedules: Schedules,
        income: Vec<u64>,
        expenses: Vec<u64>,
        tax_brackets: Vec<[u64; 4]>,
    ) -> (model: Model)
        requires
            expenses@.len() == income@.len(),
            tax_brackets@.len() == income@.len(),
        ensures
            model.wf(),
            model.setting() == (Setting {
                rates,
                home: schedules.home@,
                home_loan: schedules.home_loan@,
                car_loan: schedules.car_loan@,
                hecs: schedules.hecs@,
                shares: schedules.shares@,
                superannuation: schedules.superannuation@,
                income: income@,
                tax_brackets: tax_brackets@,
            }),
            model@ == initial(model.setting(), expenses@),
    {
        let n: usize = income.len();
        let original_income: Vec<i64> = to_ledger(&income);
        let mut cash: Vec<i64> = tax_income(&original_income, &tax_brackets, rates.inflation_rate);
        let ghost net = cash@;
        let mut t: usize = 0;
        while t < n
            invariant
                t <= n,
                n == expenses@.len(),
                cash@.len() == n,
                net.len() == n,
                forall|k: int| 0 <= k < t ==> cash@[k] == cap_i64(net[k] - expenses@[k]),
                forall|k: int| t <= k < n ==> cash@[k] == net[k],
            decreases n - t,
        {
            let entry: i64 = debit(cash[t], expenses[t]);
            cash[t] = entry;
            t += 1;
        }
        let taxable_income: Vec<i64> = original_income.clone();
        let fhss_taxed: Vec<u64> = vec![0u64; n];
        let fhss_untaxed: Vec<i64> = vec![0i64; n];
        let model = Model {
            rates,
            schedules,
            income,
            original_income,
            tax_brackets,
            cash,
            taxable_income,
            fhss_taxed,
            fhss_untaxed,
            home: home::Asset::new(n),
            home_loan: home_loan::Asset::new(n),
            car_loan: car_loan::Asset::new(n),
            hecs: hecs::Asset::new(n),
            shares: shares::Asset::new(n),
            superannuation: superannuation::Asset::new(n),
        };
        proof {
            let start = initial(model.setting(), expenses@);
            assert(model@.cash =~= start.cash);
            assert(model@.taxable_income =~= start.taxable_income);
            assert(model@.released_taxed =~= start.released_taxed);
            assert(model@.released_untaxed =~= start.released_untaxed);
            assert(model@.home =~= start.home);
            assert(model@.home_loan.values =~= start.home_loan.values);
            assert(model@.car_loan.values =~= start.car_loan.values);
            assert(model@.car_loan.balloons =~= start.car_loan.balloons);
            assert(model@.hecs.values =~= start.hecs.values);
            assert(model@.shares.values =~= start.shares.values);
            assert(model@.superannuation.values =~= start.superannuation.values);
        }
        model
    }

    /// The number of weeks in the horizon.
    pub fn num_timesteps(&self) -> (n: usize)
        requires
            self.wf(),
        ensures
            n == self.horizon(),
    {
        self.income.len()
    }

    /// The cash balance at the close of week `time`, once the week has been
    /// simulated.
    pub fn cash_at(&self, time: usize) -> (cash: i64)
        requires
            self.wf(),
            time < self.horizon(),
        ensures
            cash == self@.cash[time as int],
    {
        self.cash[time]
    }

    /// The taxable income of week `time`.
    pub fn taxable_income_at(&self, time: usize) -> (income: i64)
        requires
            self.wf(),
            time < self.horizon(),
        ensures
            income == self@.taxable_income[time as int],
    {
        self.taxable_income[time]
    }

    /// Writes the cash ledger to `file`, which holds the text of the output
    /// file: one line for each week of the horizon.
    pub fn write_cash_to_file(&self, file: &mut Vec<u8>)
        ensures
            final(file)@ == old(file)@ + crate::report::ledger_text(self@.cash),
    {
        crate::report::write_ledger(file, &self.cash);
    }

    /// The home.
    pub fn home(&self) -> (asset: &home::Asset)
        ensures
            asset@ == self@.home,
    {
        &self.home
    }

    /// The home loan.
    pub fn home_loan(&self) -> (asset: &home_loan::Asset)
        ensures
            asset@ == self@.home_loan,
    {
        &self.home_loan
    }

    /// The car loan.
    pub fn car_loan(&self) -> (asset: &car_loan::Asset)
        ensures
            asset@ == self@.car_loan,
    {
        &self.car_loan
    }

    /// The study debt.
    pub fn hecs(&self) -> (asset: &hecs::Asset)
        ensures
            asset@ == self@.hecs,
    {
        &self.hecs
    }

    /// The share portfolio.
    pub fn shares(&self) -> (asset: &shares::Asset)
        ensures
            asset@ == self@.shares,
    {
        &self.shares
    }

    /// The retirement account.
    pub fn superannuation(&self) -> (asset: &superannuation::Asset)
        ensures
            asset@ == self@.superannuation,
    {
        &self.superannuation
    }

    /// The cash with which week `sim_time` opens.
    fn open_cash(&self, sim_time: usize) -> (cash: i64)
        requires
            self.wf(),
            sim_time < self.horizon(),
        ensures
            cash == opening_cash(self.setting(), self@, sim_time),
    {
        let carried: i64 = if sim_time > 0 {
            narrow(self.cash[sim_time] as i128 + self.cash[sim_time - 1] as i128)
        } else {
            self.cash[sim_time]
        };
        if sim_time > 0 && sim_time % 52 == 0 {
            let year_taxable_income: &[i64] = slice_subrange(
                self.taxable_income.as_slice(),
                sim_time - 52,
                sim_time,
            );
            let original_income: &[i64] = slice_subrange(
                self.original_income.as_slice(),
                sim_time - 52,
                sim_time,
            );
            let year_fhss_taxed: &[u64] = slice_subrange(
                self.fhss_taxed.as_slice(),
                sim_time - 52,
                sim_time,
            );
            let year_fhss_untaxed: &[i64] = slice_subrange(
                self.fhss_untaxed.as_slice(),
                sim_time - 52,
                sim_time,
            );
            let owed: i64 = reconcile_tax(
                year_taxable_income,
                original_income,
                self.tax_brackets[sim_time],
            );
            let release: i64 = tax_super_fhss(
                year_taxable_income,
                year_fhss_taxed,
                year_fhss_untaxed,
                self.tax_brackets[sim_time],
            );
            narrow(narrow(carried as i128 - owed as i128) as i128 - release as i128)
        } else {
            carried
        }
    }

    /// Simulates week `sim_time`.
    pub fn simulate_timestep(&mut self, sim_time: usize)
        requires
            old(self).wf(),
            sim_time < old(self).horizon(),
        ensures
            final(self).wf(),
            final(self).setting() == old(self).setting(),
            final(self)@ == week(old(self).setting(), old(self)@, sim_time),
    {
        let ghost setting = self.setting();
        let ghost before = self@;
        let e0 = Entries {
            cash: self.open_cash(sim_time),
            taxable_income: self.taxable_income[sim_time],
            released_taxed: self.fhss_taxed[sim_time],
            released_untaxed: self.fhss_untaxed[sim_time],
        };
        self.cash[sim_time] = e0.cash;

        let home_params = home::Params::new(self.rates.home_appreciation_rate);
        let receipts = self.home.simulate_timestep(sim_time, home_params, &self.schedules.home);
        proof {
            lemma_listed(receipts, home::step(before.home, sim_time, home_params, setting.home).1);
        }
        let e1: Entries = book_home(e0, &receipts);
        self.cash[sim_time] = e1.cash;

        let home_loan_params = home_loan::Params::new(self.rates.home_loan_interest_rate);
        let receipts = self.home_loan.simulate_timestep(
            sim_time,
            home_loan_params,
            &self.schedules.home_loan,
            &self.cash,
        );
        proof {
            lemma_listed(
                receipts,
                home_loan::step(
                    before.home_loan,
                    sim_time,
                    home_loan_params,
                    setting.home_loan,
                    e1.cash,
                ).1,
            );
        }
        let e2: Entries = book_home_loan(e1, &receipts);
        self.cash[sim_time] = e2.cash;

        let car_loan_params = car_loan::Params::new(self.rates.car_loan_interest_rate);
        let receipts = self.car_loan.simulate_timestep(
            sim_time,
            car_loan_params,
            &self.schedules.car_loan,
        );
        proof {
            lemma_listed(
                receipts,
                car_loan::step(before.car_loan, sim_time, car_loan_params, setting.car_loan).1,
            );
        }
        let e3: Entries = book_car_loan(e2, &receipts);
        self.cash[sim_time] = e3.cash;

        let hecs_params = hecs::Params::new(self.rates.hecs_indexation_rate);
        let receipts = self.hecs.simulate_timestep(
            sim_time,
            hecs_params,
            &self.schedules.hecs,
            &self.income,
        );
        proof {
            lemma_listed(
                receipts,
                hecs::step(before.hecs, sim_time, hecs_params, setting.hecs, setting.income).1,
            );
        }
        let e4: Entries = book_hecs(e3, &receipts);
        self.cash[sim_time] = e4.cash;

        let shares_params = shares::Params::new(self.rates.shares_ror);
        let receipts = self.shares.simulate_timestep(
            sim_time,
            shares_params,
            &self.schedules.shares,
        );
        proof {
            lemma_listed(
                receipts,
                shares::step(before.shares, sim_time, shares_params, setting.shares).1,
            );
        }
        let e5: Entries = book_shares(e4, &receipts);
        self.cash[sim_time] = e5.cash;

        let super_params = superannuation::Params::new(self.rates.super_ror);
        let receipts = self.superannuation.simulate_timestep(
            sim_time,
            super_params,
            &self.schedules.superannuation,
            &self.cash,
        );
        proof {
            lemma_listed(
                receipts,
                superannuation::step(
                    before.superannuation,
                    sim_time,
                    super_params,
                    setting.superannuation,
                    e5.cash,
                ).1,
            );
        }
        let e6: Entries = book_superannuation(e5, &receipts);
        self.cash[sim_time] = e6.cash;
        self.taxable_income[sim_time] = e6.taxable_income;
        self.fhss_taxed[sim_time] = e6.released_taxed;
        self.fhss_untaxed[sim_time] = e6.released_untaxed;
        proof {
            let after = week(setting, before, sim_time);
            assert(self@.cash =~= after.cash);
            assert(self@.taxable_income =~= after.taxable_income);
            assert(self@.released_taxed =~= after.released_taxed);
            assert(self@.released_untaxed =~= after.released_untaxed);
        }
    }

    /// Simulates every week of the horizon, from week 0 on.
    pub fn run(&mut self)
        requires
            old(self).wf(),
        ensures
            final(self).wf(),
            final(self).setting() == old(self).setting(),
            final(self)@ == after_weeks(old(self).setting(), old(self)@, old(self).horizon()),
    {
        let n: usize = self.income.len();
        let mut sim_time: usize = 0;
        while sim_time < n
            invariant
                sim_time <= n,
                n == self.horizon(),
                self.wf(),
                self.setting() == old(self).setting(),
                self@ == after_weeks(old(self).setting(), old(self)@, sim_time as nat),
            decreases n - sim_time,
        {
            self.simulate_timestep(sim_time);
            sim_time += 1;
        }
    }
}

} // verus!
