//! Command schedules: for each week, the commands to apply in that week, in
//! the order in which they were scheduled.

use crate::parse::{lines, parse_lines, parsed_lines, FromLine, LineError};
use std::collections::HashMap;
use vstd::prelude::*;

verus! {

/// The commands scheduled for week `time`, in schedule order; none where the
/// schedule has no entry for that week.
pub open spec fn commands_at<C>(schedule: Map<usize, Vec<C>>, time: usize) -> Seq<C> {
    if schedule.contains_key(time) {
        schedule[time]@
    } else {
        Seq::empty()
    }
}

/// `receipts` reports exactly `expected`, `None` standing for no receipt at all.
pub open spec fn reported<T>(receipts: Option<Vec<T>>, expected: Seq<T>) -> bool {
    match receipts {
        Some(list) => list@ == expected && expected.len() > 0,
        None => expected.len() == 0,
    }
}

/// The receipts that an instrument handed out, `None` standing for none.
pub open spec fn listed<T>(receipts: Option<Vec<T>>) -> Seq<T> {
    match receipts {
        Some(list) => list@,
        None => Seq::empty(),
    }
}

/// Receipts that report a sequence list exactly that sequence.
pub proof fn lemma_listed<T>(receipts: Option<Vec<T>>, expected: Seq<T>)
    requires
        reported(receipts, expected),
    ensures
        listed(receipts) == expected,
{
    if receipts is None {
        assert(expected =~= Seq::<T>::empty());
    }
}

/// The commands scheduled for week `time`, if the schedule has an entry for it.
pub fn lookup<C>(schedule: &HashMap<usize, Vec<C>>, time: usize) -> (found: Option<&Vec<C>>)
    ensures
        match found {
            Some(list) => schedule@.contains_key(time) && list@ == commands_at(schedule@, time),
            None => !schedule@.contains_key(time),
        },
{
    broadcast use vstd::std_specs::hash::group_hash_axioms;

    schedule.get(&time)
}

/// The receipts of one week as the instruments hand them out: `None` where
/// there are none.
pub fn wrap<T>(receipts: Vec<T>) -> (wrapped: Option<Vec<T>>)
    ensures
        reported(wrapped, receipts@),
{
    if receipts.len() > 0 {
        Some(receipts)
    } else {
        None
    }
}

/// A command that names the week in which it is to be applied.
pub trait Timed {
    /// The week in which the command is to be applied.
    spec fn week(&self) -> usize;

    /// The week in which the command is to be applied.
    fn time(&self) -> (t: usize)
        ensures
            t == self.week(),
    ;
}

/// The commands of a list that are to be applied in week `t`, in the order of
/// the list.
pub open spec fn at_week<C: Timed>(commands: Seq<C>, t: usize) -> Seq<C>
    decreases commands.len(),
{
    if commands.len() == 0 {
        Seq::empty()
    } else if commands.last().week() == t {
        at_week(commands.drop_last(), t).push(commands.last())
    } else {
        at_week(commands.drop_last(), t)
    }
}

/// `schedule` holds exactly the commands of the list, each under its week and
/// in the order of the list, and has no entry for a week without commands.
pub open spec fn is_schedule_of<C: Timed>(schedule: Map<usize, Vec<C>>, commands: Seq<C>) -> bool {
    forall|t: usize|
        {
            &&& #[trigger] commands_at(schedule, t) == at_week(commands, t)
            &&& schedule.contains_key(t) <==> at_week(commands, t).len() > 0
        }
}

/// Groups a list of commands by week, keeping their order within each week.
pub fn build_schedule<C: Timed + Copy>(commands: &Vec<C>) -> (schedule: HashMap<usize, Vec<C>>)
    ensures
        is_schedule_of(schedule@, commands@),
{
    broadcast use vstd::std_specs::hash::group_hash_axioms;

    let mut schedule: HashMap<usize, Vec<C>> = HashMap::new();
    let mut i: usize = 0;
    assert(commands@.take(0).len() == 0);
    while i < commands.len()
        invariant
            i <= commands@.len(),
            is_schedule_of(schedule@, commands@.take(i as int)),
        decreases commands@.len() - i,
    {
        let command: C = commands[i];
        let time: usize = command.time();
        let ghost before = schedule@;
        let ghost so_far = commands@.take(i as int);
        proof {
            assert(commands@.take(i + 1).drop_last() =~= so_far);
            assert(commands_at(before, time) == at_week(so_far, time));
        }
        let mut list: Vec<C> = match schedule.remove(&time) {
            Some(list) => list,
            None => Vec::new(),
        };
        list.push(command);
        schedule.insert(time, list);
        proof {
            assert forall|t: usize|
                {
                    &&& #[trigger] commands_at(schedule@, t) == at_week(commands@.take(i + 1), t)
                    &&& schedule@.contains_key(t) <==> at_week(commands@.take(i + 1), t).len() > 0
                } by {
                assert(commands_at(before, t) == at_week(so_far, t));
                if t != time {
                    assert(schedule@.contains_key(t) == before.contains_key(t));
                }
            }
        }
        i += 1;
    }
    assert(commands@.take(commands@.len() as int) =~= commands@);
    schedule
}

/// What a file of commands reads as: the schedule of its commands, or the
/// first line that is rejected.
pub open spec fn reads_as<C: FromLine + Timed>(
    text: Seq<u8>,
    result: Result<HashMap<usize, Vec<C>>, LineError>,
) -> bool {
    match parsed_lines::<C>(lines(text)) {
        Ok(commands) => result matches Ok(schedule) && is_schedule_of(schedule@, commands),
        Err(e) => result matches Err(found) && found == e,
    }
}

/// Reads a file of commands, one to a line, into a schedule.
pub fn parse_schedule<C: FromLine + Timed + Copy>(text: &[u8]) -> (r: Result<
    HashMap<usize, Vec<C>>,
    LineError,
>)
    ensures
        reads_as(text@, r),
{
    match parse_lines::<C>(text) {
        Ok(commands) => Ok(build_schedule(&commands)),
        Err(e) => Err(e),
    }
}

} // verus!
