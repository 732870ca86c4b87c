//! Calendar primitives: Monday-based weekday indices and day-number dates.
//!
//! A `Date` is a count of days since an epoch Monday, so the weekday index is
//! the day count modulo 7 and the start of a week is reached by subtracting
//! that index. These two derived values are the universal partition keys for
//! schedules and historical data.

use vstd::prelude::*;

verus! {

/// Day of week; `get_num` maps it to the canonical Monday-based index.
#[derive(Clone, Copy, PartialEq, Eq, Debug)]
pub enum Weekday {
    Monday,
    Tuesday,
    Wednesday,
    Thursday,
    Friday,
    Saturday,
    Sunday,
}

/// A calendar date as a number of days since an epoch that falls on a Monday.
#[derive(Clone, Copy, PartialEq, Eq, Structural, Debug)]
pub struct Date {
    /// Days since an epoch Monday.
    pub days: u64,
}

/// Day number of the Monday that starts the week containing day `days`.
pub open spec fn spec_week_start_of(days: int) -> int {
    days - days % 7
}

/// Monday-based index of a weekday: Monday is 0 ... Sunday is 6.
pub open spec fn spec_weekday_num(w: Weekday) -> int {
    match w {
        Weekday::Monday => 0,
        Weekday::Tuesday => 1,
        Weekday::Wednesday => 2,
        Weekday::Thursday => 3,
        Weekday::Friday => 4,
        Weekday::Saturday => 5,
        Weekday::Sunday => 6,
    }
}

/// Maps a weekday to its Monday-based index.
pub fn get_num(weekday: Weekday) -> (r: usize)
    ensures
        r == spec_weekday_num(weekday),
{
    match weekday {
        Weekday::Monday => 0,
        Weekday::Tuesday => 1,
        Weekday::Wednesday => 2,
        Weekday::Thursday => 3,
        Weekday::Friday => 4,
        Weekday::Saturday => 5,
        Weekday::Sunday => 6,
    }
}

/// Maps a Monday-based index back to a weekday; indices above 6 fall back to
/// Monday.
pub fn get_weekday(number: usize) -> (r: Weekday)
    ensures
        number < 7 ==> spec_weekday_num(r) == number,
        number >= 7 ==> r == Weekday::Monday,
{
    match number {
        0 => Weekday::Monday,
        1 => Weekday::Tuesday,
        2 => Weekday::Wednesday,
        3 => Weekday::Thursday,
        4 => Weekday::Friday,
        5 => Weekday::Saturday,
        6 => Weekday::Sunday,
        _ => Weekday::Monday,
    }
}

impl Date {
    /// The raw day number of this date.
    pub open spec fn spec_days(self) -> int {
        self.days as int
    }

    /// Day number of the Monday that starts this date's week.
    pub open spec fn spec_week_start_days(self) -> int {
        spec_week_start_of(self.spec_days())
    }

    /// Monday-based weekday index of this date.
    pub open spec fn spec_weekday_num(self) -> int {
        self.spec_days() % 7
    }

    /// Builds a date from its day number.
    pub fn from_days(days: u64) -> (r: Date)
        ensures
            r.spec_days() == days,
    {
        Date { days }
    }

    /// The raw day number.
    pub fn days(self) -> (r: u64)
        ensures
            r == self.spec_days(),
    {
        self.days
    }

    /// Monday-based weekday index of this date.
    pub fn weekday_num(self) -> (r: usize)
        ensures
            r == self.spec_weekday_num(),
            r < 7,
    {
        (self.days % 7) as usize
    }

    /// The weekday this date falls on.
    pub fn weekday(self) -> (r: Weekday)
        ensures
            spec_weekday_num(r) == self.spec_weekday_num(),
    {
        get_weekday(self.weekday_num())
    }

    /// The date a whole number of days earlier.
    pub fn minus_days(self, n: u64) -> (r: Date)
        requires
            n <= self.spec_days(),
        ensures
            r.spec_days() == self.spec_days() - n,
    {
        Date { days: self.days - n }
    }
}

/// The Monday that starts the week containing `date`: the canonical partition
/// key for stored samples, schedules and predictions.
pub fn start_of_week(date: Date) -> (r: Date)
    ensures
        r.spec_days() == date.spec_week_start_days(),
        r.spec_weekday_num() == 0,
{
    let w: u64 = date.days % 7;
    Date { days: date.days - w }
}

/// Week-start dates of the `k` weeks preceding the week of `date`, most
/// recent first: the keys under which the remote store files raw samples.
pub fn week_keys(date: Date, k: usize) -> (r: Vec<Date>)
    requires
        7 * (k as int) <= date.spec_days(),
    ensures
        r@.len() == k,
        forall|i: int|
            0 <= i < k ==> (#[trigger] r@[i]).spec_days() == spec_week_start_of(
                date.spec_days() - 7 * (i + 1),
            ),
{
    let mut out: Vec<Date> = Vec::new();
    let mut done: usize = 0;
    while done < k
        invariant
            done <= k,
            7 * (k as int) <= date.spec_days(),
            out@.len() == done,
            forall|i: int|
                0 <= i < done ==> (#[trigger] out@[i]).spec_days() == spec_week_start_of(
                    date.spec_days() - 7 * (i + 1),
                ),
        decreases k - done,
    {
        let earlier = date.minus_days(7 * (done as u64 + 1));
        out.push(start_of_week(earlier));
        done = done + 1;
    }
    out
}

} // verus!
