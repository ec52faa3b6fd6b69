//! The rates that drive the model, and the file that names them.
//!
//! Each line of the file gives a name and an annual percentage. A name that
//! the model does not know is passed over; where a name is given more than
//! once, the last line counts.

use crate::parse::{
    collect_lines, collected, fields, get_rate, is_keyword, lines, rate_field, split_fields, views,
    Collector, LineError, ParseError,
};
use vstd::prelude::*;
use vstd::string::StringSliceAdditionalSpecFns;

verus! {

/// Every rate of the model, as an annual percentage.
#[derive(Clone, Copy, Debug, PartialEq, Eq, Structural)]
pub struct Rates {
    pub home_appreciation_rate: i32,
    pub home_loan_interest_rate: i32,
    pub car_loan_interest_rate: i32,
    pub hecs_indexation_rate: i32,
    pub shares_ror: i32,
    pub super_ror: i32,
    pub inflation_rate: i32,
}

/// The rates that a file has named so far.
#[derive(Clone, Copy, Debug, PartialEq, Eq, Structural)]
pub struct RateTable {
    pub home_appreciation_rate: Option<i32>,
    pub home_loan_interest_rate: Option<i32>,
    pub car_loan_interest_rate: Option<i32>,
    pub hecs_indexation_rate: Option<i32>,
    pub shares_ror: Option<i32>,
    pub super_ror: Option<i32>,
    pub inflation_rate: Option<i32>,
}

impl RateTable {
    /// No rate named.
    pub open spec fn empty() -> RateTable {
        RateTable {
            home_appreciation_rate: None,
            home_loan_interest_rate: None,
            car_loan_interest_rate: None,
            hecs_indexation_rate: None,
            shares_ror: None,
            super_ror: None,
            inflation_rate: None,
        }
    }

    /// The table once `name` has been given the rate `rate`.
    pub open spec fn with(self, name: Seq<u8>, rate: i32) -> RateTable {
        if name == "HOME_APPRECIATION_RATE".spec_bytes() {
            RateTable { home_appreciation_rate: Some(rate), ..self }
        } else if name == "HOME_LOAN_INTEREST_RATE".spec_bytes() {
            RateTable { home_loan_interest_rate: Some(rate), ..self }
        } else if name == "CAR_LOAN_INTEREST_RATE".spec_bytes() {
            RateTable { car_loan_interest_rate: Some(rate), ..self }
        } else if name == "HECS_INDEXATION_RATE".spec_bytes() {
            RateTable { hecs_indexation_rate: Some(rate), ..self }
        } else if name == "SHARES_ROR".spec_bytes() {
            RateTable { shares_ror: Some(rate), ..self }
        } else if name == "SUPER_ROR".spec_bytes() {
            RateTable { super_ror: Some(rate), ..self }
        } else if name == "INFLATION_RATE".spec_bytes() {
            RateTable { inflation_rate: Some(rate), ..self }
        } else {
            self
        }
    }

    /// Every rate of the model, where the table names them all.
    pub open spec fn complete(self) -> Option<Rates> {
        if self.home_appreciation_rate is Some && self.home_loan_interest_rate is Some
            && self.car_loan_interest_rate is Some && self.hecs_indexation_rate is Some
            && self.shares_ror is Some && self.super_ror is Some && self.inflation_rate is Some {
            Some(
                Rates {
                    home_appreciation_rate: self.home_appreciation_rate->0,
                    home_loan_interest_rate: self.home_loan_interest_rate->0,
                    car_loan_interest_rate: self.car_loan_interest_rate->0,
                    hecs_indexation_rate: self.hecs_indexation_rate->0,
                    shares_ror: self.shares_ror->0,
                    super_ror: self.super_ror->0,
                    inflation_rate: self.inflation_rate->0,
                },
            )
        } else {
            None
        }
    }

    /// Every rate of the model, where the table names them all.
    pub fn rates(&self) -> (r: Option<Rates>)
        ensures
            r == self.complete(),
    {
        match (
            self.home_appreciation_rate,
            self.home_loan_interest_rate,
            self.car_loan_interest_rate,
            self.hecs_indexation_rate,
            self.shares_ror,
            self.super_ror,
            self.inflation_rate,
        ) {
            (Some(a), Some(b), Some(c), Some(d), Some(e), Some(f), Some(g)) => Some(
                Rates {
                    home_appreciation_rate: a,
                    home_loan_interest_rate: b,
                    car_loan_interest_rate: c,
                    hecs_indexation_rate: d,
                    shares_ror: e,
                    super_ror: f,
                    inflation_rate: g,
                },
            ),
            _ => None,
        }
    }
}

impl Collector for RateTable {
    type State = RateTable;

    open spec fn state(&self) -> RateTable {
        *self
    }

    open spec fn wf(&self) -> bool {
        true
    }

    /// The table once a line has been entered: the name first, the rate
    /// second.
    open spec fn absorbed(state: RateTable, line: Seq<u8>) -> Result<RateTable, ParseError> {
        let f = fields(line);
        if f.len() == 0 {
            Err(ParseError::MissingField)
        } else {
            match rate_field(f, 1) {
                Err(e) => Err(e),
                Ok(rate) => Ok(state.with(f[0], rate)),
            }
        }
    }

    fn absorb(&mut self, line: &[u8]) -> (r: Result<(), ParseError>) {
        let fields: Vec<&[u8]> = split_fields(line);
        if fields.len() == 0 {
            return Err(ParseError::MissingField);
        }
        let rate: i32 = match get_rate(&fields, 1) {
            Ok(v) => v,
            Err(e) => {
                return Err(e);
            },
        };
        let name: &[u8] = fields[0];
        assert(name@ == views(fields@)[0]);
        if is_keyword(name, "HOME_APPRECIATION_RATE") {
            self.home_appreciation_rate = Some(rate);
        } else if is_keyword(name, "HOME_LOAN_INTEREST_RATE") {
            self.home_loan_interest_rate = Some(rate);
        } else if is_keyword(name, "CAR_LOAN_INTEREST_RATE") {
            self.car_loan_interest_rate = Some(rate);
        } else if is_keyword(name, "HECS_INDEXATION_RATE") {
            self.hecs_indexation_rate = Some(rate);
        } else if is_keyword(name, "SHARES_ROR") {
            self.shares_ror = Some(rate);
        } else if is_keyword(name, "SUPER_ROR") {
            self.super_ror = Some(rate);
        } else if is_keyword(name, "INFLATION_RATE") {
            self.inflation_rate = Some(rate);
        }
        Ok(())
    }
}

/// Reads a file of rates. The first line that is rejected, if any, is
/// reported with its position.
pub fn parse_params_file(text: &str) -> (r: Result<RateTable, LineError>)
    ensures
        match collected::<RateTable>(RateTable::empty(), lines(text.spec_bytes())) {
            Ok(table) => r == Ok::<RateTable, LineError>(table),
            Err(e) => r == Err::<RateTable, LineError>(e),
        },
{
    let mut table = RateTable {
        home_appreciation_rate: None,
        home_loan_interest_rate: None,
        car_loan_interest_rate: None,
        hecs_indexation_rate: None,
        shares_ror: None,
        super_ror: None,
        inflation_rate: None,
    };
    match collect_lines(&mut table, text.as_bytes()) {
        Ok(_) => Ok(table),
        Err(e) => Err(e),
    }
}

} // verus!
