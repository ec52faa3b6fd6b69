//! Weekly totals read from text: the files of income and of expenses.
//!
//! Each line names a week and an amount; the amounts of a week add up.

use crate::fixed::{cap_u64, sat_add};
use crate::parse::{
    amount_field, collect_lines, collected, fields, get_amount, get_whole, lines, split_fields,
    whole_field, Collector, LineError, ParseError,
};
use vstd::prelude::*;
use vstd::string::StringSliceAdditionalSpecFns;

verus! {

/// The total entered for each week of the horizon.
pub struct Totals {
    pub weeks: Vec<u64>,
}

impl Collector for Totals {
    type State = Seq<u64>;

    open spec fn state(&self) -> Seq<u64> {
        self.weeks@
    }

    open spec fn wf(&self) -> bool {
        true
    }

    /// The totals once a line has been entered: the week first, the amount
    /// second; the amount is added to the week's total, which is capped at the
    /// largest amount. A week beyond the horizon is rejected.
    open spec fn absorbed(state: Seq<u64>, line: Seq<u8>) -> Result<Seq<u64>, ParseError> {
        let f = fields(line);
        match whole_field(f, 0) {
            Err(e) => Err(e),
            Ok(time) => match amount_field(f, 1) {
                Err(e) => Err(e),
                Ok(amount) => if time >= state.len() {
                    Err(ParseError::WeekOutOfRange)
                } else {
                    Ok(state.update(time as int, cap_u64(state[time as int] + amount) as u64))
                },
            },
        }
    }

    fn absorb(&mut self, line: &[u8]) -> (r: Result<(), ParseError>) {
        let fields: Vec<&[u8]> = split_fields(line);
        let time: usize = match get_whole(&fields, 0) {
            Ok(v) => v,
            Err(e) => {
                return Err(e);
            },
        };
        let amount: u64 = match get_amount(&fields, 1) {
            Ok(v) => v,
            Err(e) => {
                return Err(e);
            },
        };
        if time >= self.weeks.len() {
            return Err(ParseError::WeekOutOfRange);
        }
        let total: u64 = sat_add(self.weeks[time], amount);
        self.weeks[time] = total;
        Ok(())
    }
}

/// No entry in any of `weeks` weeks.
pub open spec fn nothing(weeks: usize) -> Seq<u64> {
    Seq::new(weeks as nat, |i: int| 0u64)
}

/// Reads a file of weekly entries into the total for each of the
/// `num_timesteps` weeks of the horizon. The first line that is rejected, if
/// any, is reported with its position.
pub fn parse_input(text: &str, num_timesteps: usize) -> (r: Result<Vec<u64>, LineError>)
    ensures
        match collected::<Totals>(nothing(num_timesteps), lines(text.spec_bytes())) {
            Ok(totals) => r matches Ok(found) && found@ == totals,
            Err(e) => r matches Err(found) && found == e,
        },
{
    let weeks: Vec<u64> = vec![0u64; num_timesteps];
    assert(weeks@ =~= nothing(num_timesteps));
    let mut totals = Totals { weeks };
    match collect_lines(&mut totals, text.as_bytes()) {
        Ok(_) => Ok(totals.weeks),
        Err(e) => Err(e),
    }
}

} // verus!
