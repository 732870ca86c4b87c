use occupancy_forecast::calendar::Weekday;
use occupancy_forecast::schedule::Schedule;
use occupancy_forecast::sleeper::Sleeper;
use occupancy_forecast::timing::{TimeOfDay, Timing};

fn week_of(mon: Timing, tue: Timing) -> Schedule {
    let mut timings = vec![mon, tue];
    for _ in 2..7 {
        timings.push(Timing::closed());
    }
    Schedule::new(
        occupancy_forecast::calendar::Date::from_days(0),
        timings,
    )
    .expect("seven timings")
}

fn standard_week() -> Schedule {
    week_of(
        Timing::open(TimeOfDay::from_hms(6, 30, 0), TimeOfDay::from_hms(22, 0, 0)),
        Timing::closed(),
    )
}

#[test]
fn no_schedule_is_an_error() {
    let sleeper = Sleeper::new(300, 300, None);
    assert!(sleeper.next_delay(Weekday::Monday, TimeOfDay::from_hms(10, 0, 0)).is_err());
    assert!(sleeper.is_standard_interval(Weekday::Monday, TimeOfDay::from_hms(10, 0, 0)).is_err());
}

#[test]
fn within_hours_aligns_to_the_grid() {
    let sleeper = Sleeper::new(300, 300, Some(standard_week()));
    // 10:00:30 is 30 seconds into the hour: sleep to the next multiple of
    // 300 seconds on the grid.
    let d = sleeper.next_delay(Weekday::Monday, TimeOfDay::from_hms(10, 0, 30)).unwrap();
    assert_eq!(d, 270);
    // 10:04:00 is 240 seconds into the hour.
    let d = sleeper.next_delay(Weekday::Monday, TimeOfDay::from_hms(10, 4, 0)).unwrap();
    assert_eq!(d, 60);
}

#[test]
fn exactly_on_the_grid_sleeps_a_full_interval() {
    let sleeper = Sleeper::new(300, 300, Some(standard_week()));
    let d = sleeper.next_delay(Weekday::Monday, TimeOfDay::from_hms(10, 0, 0)).unwrap();
    assert_eq!(d, 300);
}

#[test]
fn before_opening_sleeps_until_opening() {
    let sleeper = Sleeper::new(300, 300, Some(standard_week()));
    let d = sleeper.next_delay(Weekday::Monday, TimeOfDay::from_hms(6, 0, 0)).unwrap();
    assert_eq!(d, 30 * 60);
}

#[test]
fn closed_day_sleeps_to_the_default_opening_tomorrow() {
    let sleeper = Sleeper::new(300, 300, Some(standard_week()));
    // Tuesday is closed: remainder of the day plus 06:30 of the next one.
    let now = TimeOfDay::from_hms(12, 0, 0);
    let d = sleeper.next_delay(Weekday::Tuesday, now).unwrap();
    assert_eq!(d, (86399 - 12 * 3600) + 23400);
}

#[test]
fn past_closing_with_tomorrow_closed_uses_the_default() {
    // Monday 06:30 to 22:00, now Monday 23:50, Tuesday closed: time to
    // midnight plus the default opening's minutes.
    let sleeper = Sleeper::new(300, 300, Some(standard_week()));
    let now = TimeOfDay::from_hms(23, 50, 0);
    let d = sleeper.next_delay(Weekday::Monday, now).unwrap();
    assert_eq!(d, (86399 - (23 * 3600 + 50 * 60)) + 23400);
    assert_eq!(d, 599 + 23400);
}

#[test]
fn past_closing_sleeps_until_tomorrows_opening() {
    let schedule = week_of(
        Timing::open(TimeOfDay::from_hms(6, 30, 0), TimeOfDay::from_hms(22, 0, 0)),
        Timing::open(TimeOfDay::from_hms(7, 0, 0), TimeOfDay::from_hms(21, 0, 0)),
    );
    let sleeper = Sleeper::new(300, 300, Some(schedule));
    let now = TimeOfDay::from_hms(23, 50, 0);
    let d = sleeper.next_delay(Weekday::Monday, now).unwrap();
    assert_eq!(d, 599 + 60 * (7 * 60));
}

#[test]
fn standard_interval_is_opening_inclusive_closing_exclusive() {
    let sleeper = Sleeper::new(300, 300, Some(standard_week()));
    let at = |h: u32, m: u32, s: u32| {
        sleeper.is_standard_interval(Weekday::Monday, TimeOfDay::from_hms(h, m, s)).unwrap()
    };
    assert!(!at(6, 29, 59));
    assert!(at(6, 30, 0));
    assert!(at(12, 0, 0));
    assert!(at(21, 59, 59));
    assert!(!at(22, 0, 0));
}

#[test]
fn closed_days_are_never_standard() {
    let sleeper = Sleeper::new(300, 300, Some(standard_week()));
    assert!(!sleeper.is_standard_interval(Weekday::Tuesday, TimeOfDay::from_hms(12, 0, 0)).unwrap());
}

#[test]
fn set_schedule_replaces_the_schedule() {
    let mut sleeper = Sleeper::new(300, 60, None);
    assert!(sleeper.next_delay(Weekday::Monday, TimeOfDay::from_hms(10, 0, 0)).is_err());
    sleeper.set_schedule(standard_week());
    assert!(sleeper.next_delay(Weekday::Monday, TimeOfDay::from_hms(10, 0, 0)).is_ok());
    assert_eq!(sleeper.get_frequency(), 300);
    assert_eq!(sleeper.get_schedule().get_week_start().days(), 0);
}

#[test]
fn overnight_window_before_opening_waits_for_opening() {
    // Monday 22:00 to 02:00 reaches past midnight; at 21:00 the scheduler
    // still waits for the opening.
    let schedule = week_of(
        Timing::open(TimeOfDay::from_hms(22, 0, 0), TimeOfDay::from_hms(2, 0, 0)),
        Timing::open(TimeOfDay::from_hms(22, 0, 0), TimeOfDay::from_hms(2, 0, 0)),
    );
    let sleeper = Sleeper::new(300, 300, Some(schedule));
    let d = sleeper.next_delay(Weekday::Monday, TimeOfDay::from_hms(21, 0, 0)).unwrap();
    assert_eq!(d, 3600);
}

#[test]
fn overnight_window_past_opening_defers_to_tomorrow() {
    // Past the overnight opening the day's own window cannot place the
    // next poll; the delay reaches for tomorrow's opening instead.
    let schedule = week_of(
        Timing::open(TimeOfDay::from_hms(22, 0, 0), TimeOfDay::from_hms(2, 0, 0)),
        Timing::open(TimeOfDay::from_hms(7, 30, 0), TimeOfDay::from_hms(21, 0, 0)),
    );
    let sleeper = Sleeper::new(300, 300, Some(schedule));
    let d = sleeper.next_delay(Weekday::Monday, TimeOfDay::from_hms(23, 0, 0)).unwrap();
    assert_eq!(d, (86399 - 23 * 3600) + 60 * (7 * 60 + 30));
}

#[test]
fn timing_times_match_openness() {
    let closed = Timing::closed();
    assert!(!closed.is_open());
    assert!(closed.get_opening().is_none());
    assert!(closed.get_closing().is_none());
    let open = Timing::open(TimeOfDay::from_hms(9, 0, 0), TimeOfDay::from_hms(17, 0, 0));
    assert!(open.is_open());
    assert_eq!(open.get_opening().unwrap().hhmm(), 900);
    assert_eq!(open.get_closing().unwrap().hhmm(), 1700);
}

#[test]
fn schedule_requires_exactly_seven_timings() {
    let date = occupancy_forecast::calendar::Date::from_days(7);
    assert!(Schedule::new(date, vec![Timing::closed(); 6]).is_none());
    assert!(Schedule::new(date, vec![Timing::closed(); 8]).is_none());
    let sched = Schedule::new(date, vec![Timing::closed(); 7]).unwrap();
    assert!(!sched.get_timings_from_weekday(Weekday::Friday).is_open());
}

#[test]
fn tomorrow_wraps_sunday_to_monday() {
    let mut timings = vec![Timing::open(
        TimeOfDay::from_hms(8, 0, 0),
        TimeOfDay::from_hms(20, 0, 0),
    )];
    for _ in 1..7 {
        timings.push(Timing::closed());
    }
    let sched = Schedule::new(occupancy_forecast::calendar::Date::from_days(0), timings).unwrap();
    let t = sched.get_timings_from_weekday_tomorrow(Weekday::Sunday);
    assert!(t.is_open());
    assert_eq!(t.get_opening().unwrap().hhmm(), 800);
}
