//! The weekly schedule: an immutable record of one timing per weekday,
//! keyed by the Monday that starts the week it describes.

use vstd::prelude::*;

use crate::calendar::{get_num, spec_weekday_num, Date, Weekday};
use crate::timing::Timing;

verus! {

/// A week's opening hours: exactly one `Timing` for each of the seven
/// weekdays, indexed by the Monday-based weekday index.
#[derive(Debug)]
pub struct Schedule {
    week_start: Date,
    timings: Vec<Timing>,
}

impl Schedule {
    #[verifier::type_invariant]
    spec fn inv(self) -> bool {
        self.timings@.len() == 7
    }

    /// The Monday identifying the week this schedule describes.
    pub closed spec fn spec_week_start(self) -> Date {
        self.week_start
    }

    /// The seven per-weekday timings.
    pub closed spec fn spec_timings(self) -> Seq<Timing> {
        self.timings@
    }

    /// Builds a schedule from a week-start date and per-weekday timings.
    /// Anything but exactly seven timings is rejected: a week always has
    /// seven days.
    pub fn new(week_start: Date, timings: Vec<Timing>) -> (r: Option<Schedule>)
        ensures
            r is Some <==> timings@.len() == 7,
            (r matches Some(s) ==> s.spec_week_start() == week_start),
            (r matches Some(s) ==> s.spec_timings() == timings@),
    {
        if timings.len() == 7 {
            Some(Schedule { week_start, timings })
        } else {
            None
        }
    }

    /// The week-start date.
    pub fn get_week_start(&self) -> (r: Date)
        ensures
            r == self.spec_week_start(),
    {
        self.week_start
    }

    /// A schedule always holds seven timings.
    pub fn len(&self) -> (r: usize)
        ensures
            r == self.spec_timings().len(),
            r == 7,
    {
        proof {
            use_type_invariant(self);
        }
        self.timings.len()
    }

    /// The timing for the given weekday.
    pub fn get_timings_from_weekday(&self, weekday: Weekday) -> (r: &Timing)
        ensures
            *r == self.spec_timings()[spec_weekday_num(weekday)],
    {
        proof {
            use_type_invariant(self);
        }
        let index = get_num(weekday);
        &self.timings[index]
    }

    /// The timing for the day after the given weekday, wrapping Sunday back
    /// to Monday.
    pub fn get_timings_from_weekday_tomorrow(&self, weekday: Weekday) -> (r: &Timing)
        ensures
            *r == self.spec_timings()[(spec_weekday_num(weekday) + 1) % 7],
    {
        proof {
            use_type_invariant(self);
        }
        let index = (get_num(weekday) + 1) % 7;
        &self.timings[index]
    }
}

impl PartialEq for Schedule {
    /// Structural equality: the same week-start date and the same seven
    /// timings.
    fn eq(&self, other: &Schedule) -> (r: bool) {
        proof {
            use_type_invariant(self);
            use_type_invariant(other);
        }
        if !(self.week_start == other.week_start) {
            return false;
        }
        let mut i: usize = 0;
        while i < 7
            invariant
                i <= 7,
                self.timings@.len() == 7,
                other.timings@.len() == 7,
                forall|j: int| 0 <= j < i ==> self.timings@[j].spec_same_as(other.timings@[j]),
            decreases 7 - i,
        {
            if !(self.timings[i] == other.timings[i]) {
                proof {
                    assert(!self.timings@[i as int].spec_same_as(other.timings@[i as int]));
                    assert(self.timings@ != other.timings@) by {
                        if self.timings@ == other.timings@ {
                            assert(self.timings@[i as int] == other.timings@[i as int]);
                        }
                    }
                }
                return false;
            }
            i = i + 1;
        }
        proof {
            assert forall|j: int| 0 <= j < 7 implies self.timings@[j] == other.timings@[j] by {
                self.timings@[j].lemma_same_as_eq(other.timings@[j]);
            }
            assert(self.timings@ =~= other.timings@);
        }
        true
    }
}

impl vstd::std_specs::cmp::PartialEqSpecImpl for Schedule {
    open spec fn obeys_eq_spec() -> bool {
        true
    }

    open spec fn eq_spec(&self, other: &Schedule) -> bool {
        self.spec_week_start() == other.spec_week_start() && self.spec_timings()
            == other.spec_timings()
    }
}

} // verus!
