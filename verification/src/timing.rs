//! One day's opening hours: a time-of-day value type and the open/closed
//! record for a single weekday.
//!
//! A `Timing` is either closed, with both times absent, or open, with both an
//! opening and a closing time present. The opening time may be numerically
//! greater than the closing time: that signals a window reaching past
//! midnight, which the scheduler treats as its own case.

use vstd::prelude::*;

verus! {

/// Seconds in a day.
pub open spec fn spec_day_secs() -> int {
    86400
}

/// A time of day, stored as seconds since midnight, always below 86400.
#[derive(Clone, Copy, PartialEq, Eq, Structural, Debug)]
pub struct TimeOfDay {
    secs: u32,
}

impl TimeOfDay {
    #[verifier::type_invariant]
    spec fn inv(self) -> bool {
        self.secs < 86400
    }

    /// Seconds since midnight.
    pub closed spec fn spec_secs(self) -> int {
        self.secs as int
    }

    /// Builds a time of day from hours, minutes and seconds.
    pub fn from_hms(hour: u32, minute: u32, second: u32) -> (r: TimeOfDay)
        requires
            hour < 24,
            minute < 60,
            second < 60,
        ensures
            r.spec_secs() == hour * 3600 + minute * 60 + second,
    {
        TimeOfDay { secs: hour * 3600 + minute * 60 + second }
    }

    /// Seconds since midnight.
    pub fn secs(self) -> (r: u32)
        ensures
            r == self.spec_secs(),
            r < 86400,
    {
        proof {
            use_type_invariant(self);
        }
        self.secs
    }

    /// The hour component.
    pub fn hour(self) -> (r: u32)
        ensures
            r == self.spec_secs() / 3600,
    {
        self.secs / 3600
    }

    /// The minute component.
    pub fn minute(self) -> (r: u32)
        ensures
            r == (self.spec_secs() % 3600) / 60,
    {
        (self.secs % 3600) / 60
    }

    /// The second component.
    pub fn second(self) -> (r: u32)
        ensures
            r == self.spec_secs() % 60,
    {
        self.secs % 60
    }

    /// The HHMM integer encoding of this time, the key format used for
    /// samples and forecasts.
    pub fn hhmm(self) -> (r: u16)
        ensures
            r == spec_hhmm(self),
            r <= 2359,
    {
        proof {
            use_type_invariant(self);
        }
        let h: u32 = self.secs / 3600;
        let m: u32 = (self.secs % 3600) / 60;
        (h * 100 + m) as u16
    }

    /// Minutes since midnight, the resolution used when a delay reaches into
    /// the next day.
    pub fn minutes_of_day(self) -> (r: u32)
        ensures
            r == spec_minutes_of_day(self),
            r < 1440,
    {
        proof {
            use_type_invariant(self);
        }
        self.secs / 3600 * 60 + (self.secs % 3600) / 60
    }
}

/// Whole minutes since midnight of a time of day, seconds dropped.
pub open spec fn spec_minutes_of_day(t: TimeOfDay) -> int {
    t.spec_secs() / 3600 * 60 + (t.spec_secs() % 3600) / 60
}

/// The HHMM integer encoding of a time of day: hour times one hundred
/// plus minute.
pub open spec fn spec_hhmm(t: TimeOfDay) -> int {
    t.spec_secs() / 3600 * 100 + (t.spec_secs() % 3600) / 60
}

/// One weekday's opening hours, or a closed marker.
#[derive(Clone, Copy, Debug)]
pub struct Timing {
    opening: Option<TimeOfDay>,
    closing: Option<TimeOfDay>,
    open: bool,
}

impl Timing {
    #[verifier::type_invariant]
    spec fn inv(self) -> bool {
        &&& self.open <==> self.opening is Some
        &&& self.open <==> self.closing is Some
    }

    /// Whether this day is open.
    pub closed spec fn spec_open(self) -> bool {
        self.open
    }

    /// The opening time, present exactly when the day is open.
    pub closed spec fn spec_opening(self) -> Option<TimeOfDay> {
        self.opening
    }

    /// The closing time, present exactly when the day is open.
    pub closed spec fn spec_closing(self) -> Option<TimeOfDay> {
        self.closing
    }

    /// A closed day: no times at all.
    pub fn closed() -> (r: Timing)
        ensures
            !r.spec_open(),
            r.spec_opening() is None,
            r.spec_closing() is None,
    {
        Timing { opening: None, closing: None, open: false }
    }

    /// An open day with the given opening and closing times.
    pub fn open(opening: TimeOfDay, closing: TimeOfDay) -> (r: Timing)
        ensures
            r.spec_open(),
            r.spec_opening() == Some(opening),
            r.spec_closing() == Some(closing),
    {
        Timing { opening: Some(opening), closing: Some(closing), open: true }
    }

    /// The opening time, if the day is open.
    pub fn get_opening(&self) -> (r: Option<TimeOfDay>)
        ensures
            r == self.spec_opening(),
            r is Some <==> self.spec_open(),
    {
        proof {
            use_type_invariant(self);
        }
        self.opening
    }

    /// The closing time, if the day is open.
    pub fn get_closing(&self) -> (r: Option<TimeOfDay>)
        ensures
            r == self.spec_closing(),
            r is Some <==> self.spec_open(),
    {
        proof {
            use_type_invariant(self);
        }
        self.closing
    }

    /// Whether this timing equals another, structurally: same openness and
    /// the same times.
    pub open spec fn spec_same_as(self, other: Timing) -> bool {
        &&& self.spec_open() == other.spec_open()
        &&& self.spec_opening() == other.spec_opening()
        &&& self.spec_closing() == other.spec_closing()
    }

    /// Structurally equal timings are the same value.
    pub proof fn lemma_same_as_eq(self, other: Timing)
        requires
            self.spec_same_as(other),
        ensures
            self == other,
    {
    }

    /// Whether the day is open. Open days carry both times, closed days
    /// neither.
    pub fn is_open(&self) -> (r: bool)
        ensures
            r == self.spec_open(),
            r <==> self.spec_opening() is Some,
            r <==> self.spec_closing() is Some,
    {
        proof {
            use_type_invariant(self);
        }
        self.open
    }
}

impl PartialEq for Timing {
    /// Structural equality: same openness and the same times.
    fn eq(&self, other: &Timing) -> (r: bool) {
        let same_opening = match (self.opening, other.opening) {
            (Option::None, Option::None) => true,
            (Some(a), Some(b)) => a == b,
            _ => false,
        };
        let same_closing = match (self.closing, other.closing) {
            (Option::None, Option::None) => true,
            (Some(a), Some(b)) => a == b,
            _ => false,
        };
        self.open == other.open && same_opening && same_closing
    }
}

impl vstd::std_specs::cmp::PartialEqSpecImpl for Timing {
    open spec fn obeys_eq_spec() -> bool {
        true
    }

    open spec fn eq_spec(&self, other: &Timing) -> bool {
        self.spec_same_as(*other)
    }
}

} // verus!
