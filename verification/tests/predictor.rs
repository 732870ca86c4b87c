use occupancy_forecast::calendar::Date;
use occupancy_forecast::regressor::Regressor;
use occupancy_forecast::schedule::Schedule;
use occupancy_forecast::timing::{TimeOfDay, Timing};
use occupancy_forecast::window::{Data, DataPoint};

/// A window whose Monday series holds the given week groups and whose
/// other weekdays are empty.
fn monday_window(groups: Vec<Vec<DataPoint>>) -> Data {
    let mut data: Vec<Vec<Vec<DataPoint>>> = vec![groups];
    for _ in 1..7 {
        data.push(Vec::new());
    }
    Data::from_parts(data, Date::from_days(0), None).expect("well-formed window")
}

#[test]
fn freshness_and_proximity_weigh_together() {
    // Same time, k = 3: the fresh sample weighs 1/1 + 1/1 = 2, the
    // two-weeks-old one 1/3 + 1/1 = 4/3; the exact weighted average is
    // (2*20 + (4/3)*80) / (10/3) = 44.
    let data = monday_window(vec![
        vec![DataPoint::new(900, 20)],
        vec![],
        vec![DataPoint::new(900, 80)],
    ]);
    let regressor = Regressor::new(data, 3);
    assert_eq!(regressor.predict_one(0, 900), 44);
}

#[test]
fn empty_series_predicts_zero() {
    let data = monday_window(vec![]);
    let regressor = Regressor::new(data, 9);
    assert_eq!(regressor.predict_one(0, 900), 0);
    assert_eq!(regressor.predict_one(3, 1200), 0);
}

#[test]
fn single_sample_is_returned_as_is() {
    let data = monday_window(vec![vec![DataPoint::new(900, 55)]]);
    let regressor = Regressor::new(data, 1);
    assert_eq!(regressor.predict_one(0, 900), 55);
}

#[test]
fn nearer_samples_dominate() {
    // Both from the fresh week: at the target the weight is 2, a hundred
    // HHMM units away it is 1/1 + 1/101; the faraway high reading barely
    // moves the average.
    let data = monday_window(vec![vec![
        DataPoint::new(900, 10),
        DataPoint::new(1000, 90),
    ]]);
    let regressor = Regressor::new(data, 2);
    // Exact: (2*10 + (102/101)*90) / (2 + 102/101) = 36.8... -> 36.
    assert_eq!(regressor.predict_one(0, 900), 36);
}

#[test]
fn first_seen_wins_weight_ties() {
    // Equal distances, same week: equal weights. With k = 1 only the
    // first-seen sample is retained.
    let data = monday_window(vec![vec![
        DataPoint::new(850, 10),
        DataPoint::new(950, 90),
    ]]);
    let regressor = Regressor::new(data, 1);
    assert_eq!(regressor.predict_one(0, 900), 10);
}

#[test]
fn k_zero_retains_nothing() {
    let data = monday_window(vec![vec![DataPoint::new(900, 70)]]);
    let regressor = Regressor::new(data, 0);
    assert_eq!(regressor.predict_one(0, 900), 0);
}

#[test]
fn fewer_samples_than_k_all_participate() {
    // k = 9 with two samples: both participate and normalization still
    // holds; average of equal-weight 40 and 60 at equal distance is 50.
    let data = monday_window(vec![vec![
        DataPoint::new(890, 40),
        DataPoint::new(910, 60),
    ]]);
    let regressor = Regressor::new(data, 9);
    assert_eq!(regressor.predict_one(0, 900), 50);
}

#[test]
fn prediction_stays_within_occupancy_range() {
    let data = monday_window(vec![
        vec![DataPoint::new(800, 0), DataPoint::new(900, 100)],
        vec![DataPoint::new(1000, 100), DataPoint::new(1100, 100)],
    ]);
    let regressor = Regressor::new(data, 3);
    for t in [800u16, 850, 900, 1000, 1159, 2359] {
        let p = regressor.predict_one(0, t);
        assert!(p <= 100);
    }
}

#[test]
fn range_skips_minute_overflow_times() {
    // Opening 0900, closing 0959, step 30: 0900 and 0930 are on the grid;
    // 0960 would be next but its minute component is 60.
    let data = monday_window(vec![vec![DataPoint::new(900, 50)]]);
    let regressor = Regressor::new(data, 1);
    let curve = regressor.predict_range(900, 959, 30, 0);
    let times: Vec<u16> = curve.iter().map(|p| p.get_time()).collect();
    assert_eq!(times, vec![900, 930]);
}

#[test]
fn range_times_stay_on_the_grid() {
    let data = monday_window(vec![vec![DataPoint::new(1000, 40)]]);
    let regressor = Regressor::new(data, 1);
    let curve = regressor.predict_range(930, 1100, 45, 0);
    let times: Vec<u16> = curve.iter().map(|p| p.get_time()).collect();
    // Grid: 930, 975 (skipped), 1020, 1065 (skipped); 1110 is past the end.
    assert_eq!(times, vec![930, 1020]);
    for p in &curve {
        assert!(p.get_time() % 100 < 60);
        assert_eq!(p.get_occupancy(), 40);
    }
}

#[test]
fn range_carries_per_time_predictions() {
    let data = monday_window(vec![vec![
        DataPoint::new(900, 20),
        DataPoint::new(930, 60),
    ]]);
    let regressor = Regressor::new(data, 1);
    let curve = regressor.predict_range(900, 930, 30, 0);
    assert_eq!(curve.len(), 2);
    assert_eq!(curve[0].get_time(), 900);
    assert_eq!(curve[0].get_occupancy(), regressor.predict_one(0, 900));
    assert_eq!(curve[1].get_time(), 930);
    assert_eq!(curve[1].get_occupancy(), regressor.predict_one(0, 930));
}

#[test]
fn week_forecast_covers_open_days_only() {
    let data = monday_window(vec![vec![DataPoint::new(900, 50)]]);
    let regressor = Regressor::new(data, 1);
    let mut timings = vec![Timing::open(
        TimeOfDay::from_hms(9, 0, 0),
        TimeOfDay::from_hms(9, 59, 0),
    )];
    for _ in 1..7 {
        timings.push(Timing::closed());
    }
    let schedule = Schedule::new(Date::from_days(0), timings).unwrap();
    let week = regressor.predict_week(&schedule, 30);
    assert_eq!(week.len(), 7);
    let monday = week[0].as_ref().expect("monday is open");
    let times: Vec<u16> = monday.iter().map(|p| p.get_time()).collect();
    assert_eq!(times, vec![900, 930]);
    for wd in 1..7 {
        assert!(week[wd].is_none());
    }
}
