//! The window of recent trades to ask for.
use vstd::prelude::*;

verus! {

#[derive(Clone, Copy, Debug, PartialEq, Eq, Structural)]
pub enum Weekday {
    Mon,
    Tue,
    Wed,
    Thu,
    Fri,
    Sat,
    Sun,
}

pub open spec fn lookback_of(day: Weekday) -> int {
    match day {
        Weekday::Sun => 5,
        Weekday::Sat => 4,
        _ => 3,
    }
}

/// Days of history to ask for on `day`, so that the window reaches back over
/// a weekend to three trading days.
pub fn lookback_days(day: Weekday) -> (r: i64)
    ensures
        r == lookback_of(day),
{
    match day {
        Weekday::Sun => 5,
        Weekday::Sat => 4,
        _ => 3,
    }
}

} // verus!
