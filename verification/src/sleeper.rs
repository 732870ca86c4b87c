//! The adaptive scheduler: given the current weekday and time of day and the
//! week's schedule, it computes how many seconds to suspend before the next
//! sample/forecast cycle.
//!
//! Policy: while open, polls stay aligned to a shared grid anchored at the
//! start of the hour; before opening, sleep exactly until the opening time;
//! when closed today, or past closing with tomorrow closed, sleep to a fixed
//! default fallback opening on the next day; past closing otherwise, sleep
//! until tomorrow's opening.

use vstd::pervasive::unreached;
use vstd::prelude::*;

use crate::calendar::{spec_weekday_num, Weekday};
use crate::schedule::Schedule;
use crate::timing::{spec_minutes_of_day, TimeOfDay, Timing};

verus! {

/// Reported when a delay is requested while no schedule is known; the caller
/// falls back to its error interval.
#[derive(Clone, Copy, PartialEq, Eq, Structural, Debug)]
pub struct NoScheduleError;

/// The last second of a day, the anchor for delays that reach into the next
/// calendar day.
pub open spec fn spec_day_end_secs() -> int {
    86399
}

/// Seconds since midnight of the default fallback opening time (06:30),
/// used for days with no known hours.
pub open spec fn spec_default_open_secs() -> int {
    23400
}

/// The opening time of a timing in seconds since midnight; 0 when closed.
pub open spec fn spec_opening_secs(t: Timing) -> int {
    match t.spec_opening() {
        Some(x) => x.spec_secs(),
        None => 0,
    }
}

/// The closing time of a timing in seconds since midnight; 0 when closed.
pub open spec fn spec_closing_secs(t: Timing) -> int {
    match t.spec_closing() {
        Some(x) => x.spec_secs(),
        None => 0,
    }
}

/// Whether `now` falls within the standard polling interval of timing `t`:
/// at or past opening and strictly before closing.
pub open spec fn spec_is_standard(t: Timing, now: int) -> bool {
    &&& t.spec_open()
    &&& spec_opening_secs(t) <= now
    &&& now < spec_closing_secs(t)
}

/// Delay from `now` to the default fallback opening on the next day:
/// the remainder of today plus the minutes until the default opening.
pub open spec fn spec_default_fallback_delay(now: int) -> int {
    spec_day_end_secs() - now + spec_default_open_secs()
}

/// Delay from `now` to tomorrow's opening, at minute resolution; falls back
/// to the default opening when tomorrow is closed.
pub open spec fn spec_tomorrow_delay(now: int, tomorrow: Timing) -> int {
    match tomorrow.spec_opening() {
        Some(o) => spec_day_end_secs() - now + 60 * spec_minutes_of_day(o),
        None => spec_default_fallback_delay(now),
    }
}

/// The number of seconds to suspend before the next cycle, by case:
/// closed today; within hours (next multiple of `freq` on the grid anchored
/// at the start of the hour); before opening; past closing (tomorrow's
/// opening, or the default fallback when tomorrow is closed).
pub open spec fn spec_next_delay(today: Timing, tomorrow: Timing, now: int, freq: int) -> int
    recommends
        freq >= 1,
{
    if !today.spec_open() {
        spec_default_fallback_delay(now)
    } else if spec_opening_secs(today) <= now && now < spec_closing_secs(today) {
        freq - (now % 3600) % freq
    } else if now < spec_opening_secs(today) {
        spec_opening_secs(today) - now
    } else {
        spec_tomorrow_delay(now, tomorrow)
    }
}

/// The delay is never negative, and in the within-hours case it never
/// exceeds the polling interval; it is strictly below the interval whenever
/// `now` does not already sit on the polling grid.
pub proof fn lemma_next_delay_bounds(today: Timing, tomorrow: Timing, now: int, freq: int)
    requires
        freq >= 1,
        0 <= now < 86400,
        (match tomorrow.spec_opening() {
            Some(o) => 0 <= spec_minutes_of_day(o) < 1440,
            None => true,
        }),
    ensures
        spec_next_delay(today, tomorrow, now, freq) >= 0,
        spec_is_standard(today, now) ==> spec_next_delay(today, tomorrow, now, freq) <= freq,
        spec_is_standard(today, now) && (now % 3600) % freq != 0 ==> spec_next_delay(
            today,
            tomorrow,
            now,
            freq,
        ) < freq,
{
}

/// Within hours the delay really lands the next poll on the shared grid:
/// the seconds-since-hour-start of `now` plus the computed delay is a
/// whole number of polling intervals, so successive polls cannot drift.
pub proof fn lemma_next_poll_on_grid(today: Timing, tomorrow: Timing, now: int, freq: int)
    requires
        freq >= 1,
        0 <= now < 86400,
        spec_is_standard(today, now),
    ensures
        (now % 3600 + spec_next_delay(today, tomorrow, now, freq)) % freq == 0,
{
    let s = now % 3600;
    let d = freq - s % freq;
    vstd::arithmetic::div_mod::lemma_fundamental_div_mod(s, freq);
    assert(freq * (s / freq) == (s / freq) * freq) by (nonlinear_arith);
    assert(s + d == (s / freq) * freq + freq);
    assert((s / freq) * freq + freq == (s / freq + 1) * freq) by (nonlinear_arith);
    vstd::arithmetic::div_mod::lemma_mod_multiples_basic(s / freq + 1, freq);
}

/// Decides when the next sample/forecast cycle runs. Stateless between
/// calls: all the state is the externally supplied, continuously replaced
/// schedule.
pub struct Sleeper {
    frequency: u64,
    error_time: u64,
    schedule: Option<Schedule>,
    default: Timing,
}

impl Sleeper {
    #[verifier::type_invariant]
    spec fn inv(self) -> bool {
        &&& self.frequency >= 1
        &&& self.default.spec_open()
        &&& (match self.default.spec_opening() {
            Some(o) => o.spec_secs() == spec_default_open_secs(),
            None => false,
        })
    }

    /// The polling interval in seconds.
    pub closed spec fn spec_frequency(self) -> int {
        self.frequency as int
    }

    /// The error-path interval in seconds.
    pub closed spec fn spec_error_time(self) -> int {
        self.error_time as int
    }

    /// The current schedule, if one has been supplied.
    pub closed spec fn spec_schedule(self) -> Option<Schedule> {
        self.schedule
    }

    /// Builds a scheduler with a polling interval, an error interval, and an
    /// optional initial schedule. The default fallback timing is 06:30 to
    /// 10:30.
    pub fn new(frequency: u64, error_time: u64, schedule: Option<Schedule>) -> (r: Sleeper)
        requires
            frequency >= 1,
        ensures
            r.spec_frequency() == frequency,
            r.spec_error_time() == error_time,
            r.spec_schedule() == schedule,
    {
        let default = Timing::open(TimeOfDay::from_hms(6, 30, 0), TimeOfDay::from_hms(10, 30, 0));
        Sleeper { frequency, error_time, schedule, default }
    }

    /// Replaces the schedule with a freshly scraped one.
    pub fn set_schedule(&mut self, schedule: Schedule)
        ensures
            final(self).spec_schedule() == Some(schedule),
            final(self).spec_frequency() == old(self).spec_frequency(),
            final(self).spec_error_time() == old(self).spec_error_time(),
    {
        proof {
            use_type_invariant(&*self);
        }
        self.schedule = Some(schedule);
    }

    /// The polling interval in seconds.
    pub fn get_frequency(&self) -> (r: u64)
        ensures
            r == self.spec_frequency(),
            r >= 1,
    {
        proof {
            use_type_invariant(self);
        }
        self.frequency
    }

    /// The current schedule; a schedule must have been supplied.
    pub fn get_schedule(&self) -> (r: &Schedule)
        requires
            self.spec_schedule() is Some,
        ensures
            Some(*r) == self.spec_schedule(),
    {
        match &self.schedule {
            Some(s) => s,
            None => unreached(),
        }
    }

    /// Seconds to suspend before the next cycle, given the current weekday
    /// and time of day; an error when no schedule is known.
    pub fn next_delay(&self, weekday: Weekday, now: TimeOfDay) -> (r: Result<u64, NoScheduleError>)
        ensures
            r is Ok <==> self.spec_schedule() is Some,
            (match self.spec_schedule() {
                Some(sched) => (r matches Ok(d) && d == spec_next_delay(
                    sched.spec_timings()[spec_weekday_num(weekday)],
                    sched.spec_timings()[(spec_weekday_num(weekday) + 1) % 7],
                    now.spec_secs(),
                    self.spec_frequency(),
                )),
                None => r is Err,
            }),
    {
        proof {
            use_type_invariant(self);
        }
        let sched = match &self.schedule {
            Some(s) => s,
            None => {
                return Err(NoScheduleError);
            },
        };
        let now_s: u32 = now.secs();
        let today = sched.get_timings_from_weekday(weekday);
        if !today.is_open() {
            return Ok((86399 - now_s as u64) + 23400);
        }
        let opening = match today.get_opening() {
            Some(o) => o,
            None => unreached(),
        };
        let closing = match today.get_closing() {
            Some(c) => c,
            None => unreached(),
        };
        let opening_s: u32 = opening.secs();
        let closing_s: u32 = closing.secs();
        if opening_s <= now_s && now_s < closing_s {
            // Align to the next multiple of the interval since the start of
            // the hour, so polls land on a shared global grid.
            let since_hour: u64 = (now_s % 3600) as u64;
            Ok(self.frequency - since_hour % self.frequency)
        } else if now_s < opening_s {
            Ok((opening_s - now_s) as u64)
        } else {
            let tomorrow = sched.get_timings_from_weekday_tomorrow(weekday);
            match tomorrow.get_opening() {
                Some(o) => {
                    let minutes: u32 = o.minutes_of_day();
                    Ok((86399 - now_s as u64) + 60 * minutes as u64)
                },
                None => Ok((86399 - now_s as u64) + 23400),
            }
        }
    }

    /// Whether `now` falls within today's standard polling interval: at or
    /// past opening and strictly before closing. Closed days are never
    /// standard; an error only when no schedule is known.
    pub fn is_standard_interval(&self, weekday: Weekday, now: TimeOfDay) -> (r: Result<
        bool,
        NoScheduleError,
    >)
        ensures
            r is Ok <==> self.spec_schedule() is Some,
            (match self.spec_schedule() {
                Some(sched) => (r matches Ok(b) && b == spec_is_standard(
                    sched.spec_timings()[spec_weekday_num(weekday)],
                    now.spec_secs(),
                )),
                None => r is Err,
            }),
    {
        let sched = match &self.schedule {
            Some(s) => s,
            None => {
                return Err(NoScheduleError);
            },
        };
        let today = sched.get_timings_from_weekday(weekday);
        if !today.is_open() {
            return Ok(false);
        }
        let opening = match today.get_opening() {
            Some(o) => o,
            None => unreached(),
        };
        let closing = match today.get_closing() {
            Some(c) => c,
            None => unreached(),
        };
        let now_s: u32 = now.secs();
        Ok(opening.secs() <= now_s && now_s < closing.secs())
    }
}

} // verus!
