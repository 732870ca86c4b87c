use occupancy_forecast::calendar::Date;
use occupancy_forecast::window::{needs_rebuild, Data, DataPoint, DecodeError};

fn sample_window() -> Data {
    let data = vec![
        vec![vec![DataPoint::new(900, 20), DataPoint::new(930, 35)], vec![]],
        vec![vec![DataPoint::new(1000, 55)]],
        vec![],
        vec![vec![], vec![DataPoint::new(1230, 80)]],
        vec![],
        vec![],
        vec![vec![DataPoint::new(2359, 1)]],
    ];
    Data::from_parts(data, Date::from_days(2863), Some(Date::from_days(2865)))
        .expect("well-formed window")
}

#[test]
fn codec_round_trips_exactly() {
    let window = sample_window();
    let bytes = window.serialize();
    let back = Data::deserialize(&bytes).expect("own encoding decodes");
    assert_eq!(back.get_for_date(), window.get_for_date());
    assert_eq!(back.get_last_predicted(), window.get_last_predicted());
    assert_eq!(back.get_data(), window.get_data());
    // And byte-for-byte stability of the re-encoding.
    assert_eq!(back.serialize(), bytes);
}

#[test]
fn codec_round_trips_without_marker() {
    let data = vec![vec![], vec![], vec![], vec![], vec![], vec![], vec![]];
    let window = Data::from_parts(data, Date::from_days(0), None).unwrap();
    let back = Data::deserialize(&window.serialize()).unwrap();
    assert_eq!(back.get_last_predicted(), None);
    assert_eq!(back.get_for_date().days(), 0);
    for wd in 0..7 {
        assert!(back.get_data()[wd].is_empty());
    }
}

#[test]
fn truncated_and_garbage_bytes_are_rejected() {
    let window = sample_window();
    let mut bytes = window.serialize();
    bytes.pop();
    assert!(Data::deserialize(&bytes).is_none());
    assert!(Data::deserialize(&Vec::new()).is_none());
    let garbage: Vec<u8> = vec![9, 9, 9, 9];
    assert!(Data::deserialize(&garbage).is_none());
    // Trailing bytes are not tolerated either.
    let mut padded = window.serialize();
    padded.push(0);
    assert!(Data::deserialize(&padded).is_none());
}

#[test]
fn from_parts_rejects_wrong_shapes() {
    assert!(Data::from_parts(vec![vec![], vec![]], Date::from_days(0), None).is_none());
    let eight = vec![vec![]; 8];
    assert!(Data::from_parts(eight, Date::from_days(0), None).is_none());
}

#[test]
fn refresh_is_idempotent_within_a_week() {
    // A window assembled for the current week is reused as is: the
    // persisted state cannot change while the week lasts.
    let monday = Date::from_days(2863 - 2863 % 7);
    let data = vec![vec![], vec![], vec![], vec![], vec![], vec![], vec![]];
    let window = Data::from_parts(data, monday, None).unwrap();
    let first = window.serialize();
    let today = Date::from_days(2863);
    assert!(!needs_rebuild(&Some(window), today));
    // The decision is stable: asking again with unchanged state changes
    // nothing, and the persisted bytes stay identical.
    let again = Data::deserialize(&first).unwrap();
    assert!(!needs_rebuild(&Some(again), today));
    let reloaded = Data::deserialize(&first).unwrap();
    assert_eq!(reloaded.serialize(), first);
}

#[test]
fn rebuild_is_needed_without_a_window_or_in_a_new_week() {
    let today = Date::from_days(2863);
    assert!(needs_rebuild(&None, today));
    let data = vec![vec![], vec![], vec![], vec![], vec![], vec![], vec![]];
    let last_week = Data::from_parts(data, Date::from_days(2856 - 7), None).unwrap();
    assert!(needs_rebuild(&Some(last_week), today));
}

#[test]
fn forecast_is_owed_once_per_day() {
    let today = Date::from_days(100);
    let mut window = Data::from_parts(
        vec![vec![], vec![], vec![], vec![], vec![], vec![], vec![]],
        Date::from_days(98),
        None,
    )
    .unwrap();
    assert!(window.should_predict(today));
    window.set_last_predicted(Date::from_days(99));
    assert!(window.should_predict(today));
    window.set_last_predicted(today);
    assert!(!window.should_predict(today));
    // The marker survives persistence.
    let back = Data::deserialize(&window.serialize()).unwrap();
    assert!(!back.should_predict(today));
}

#[test]
fn decode_array_shaped_week() {
    let week = r#"[{"0900":20,"0930":40},null,{},{"1200":77}]"#.to_string();
    let date = Date::from_days(100);
    let data = Data::new(date, &vec![week]).expect("decodes");
    assert_eq!(data.get_for_date().days(), 98);
    assert_eq!(data.get_last_predicted(), None);
    let groups = data.get_data();
    assert_eq!(groups.len(), 7);
    for wd in 0..7 {
        assert_eq!(groups[wd].len(), 1);
    }
    assert_eq!(groups[0][0].len(), 2);
    assert_eq!(groups[0][0][0].get_time(), 900);
    assert_eq!(groups[0][0][0].get_occupancy(), 20);
    assert_eq!(groups[0][0][1].get_time(), 930);
    assert_eq!(groups[0][0][1].get_occupancy(), 40);
    assert!(groups[1][0].is_empty());
    assert!(groups[2][0].is_empty());
    assert_eq!(groups[3][0][0].get_time(), 1200);
    assert_eq!(groups[3][0][0].get_occupancy(), 77);
    assert!(groups[4][0].is_empty());
}

#[test]
fn decode_object_shaped_week() {
    let week = r#"{"0":{"0900":20},"3":{"1000":50}}"#.to_string();
    let data = Data::new(Date::from_days(98), &vec![week]).expect("decodes");
    let groups = data.get_data();
    assert_eq!(groups[0][0][0].get_time(), 900);
    assert_eq!(groups[3][0][0].get_time(), 1000);
    assert_eq!(groups[3][0][0].get_occupancy(), 50);
    assert!(groups[1][0].is_empty());
    assert!(groups[6][0].is_empty());
}

#[test]
fn decode_orders_weeks_by_recency() {
    let fresh = r#"[{"0900":10}]"#.to_string();
    let old = r#"[{"0900":90}]"#.to_string();
    let data = Data::new(Date::from_days(98), &vec![fresh, old]).expect("decodes");
    let groups = data.get_data();
    assert_eq!(groups[0].len(), 2);
    assert_eq!(groups[0][0][0].get_occupancy(), 10);
    assert_eq!(groups[0][1][0].get_occupancy(), 90);
}

#[test]
fn decode_rejects_bad_input() {
    let date = Date::from_days(98);
    assert!(matches!(
        Data::new(date, &vec!["not json".to_string()]),
        Err(DecodeError::ParseFailed)
    ));
    assert!(matches!(
        Data::new(date, &vec!["5".to_string()]),
        Err(DecodeError::UnexpectedShape)
    ));
    assert!(matches!(
        Data::new(date, &vec![r#"[{"morning":20}]"#.to_string()]),
        Err(DecodeError::BadEntry)
    ));
    assert!(matches!(
        Data::new(date, &vec![r#"[{"0900":"high"}]"#.to_string()]),
        Err(DecodeError::BadEntry)
    ));
    assert!(matches!(
        Data::new(date, &vec![r#"[[1,2]]"#.to_string()]),
        Err(DecodeError::UnexpectedShape)
    ));
}

#[test]
fn decode_truncates_wide_occupancies() {
    // The wire format admits integers wider than 16 bits; they are
    // truncated exactly as a 16-bit cast would.
    let week = r#"[{"0900":65537}]"#.to_string();
    let data = Data::new(Date::from_days(98), &vec![week]).expect("decodes");
    assert_eq!(data.get_data()[0][0][0].get_occupancy(), 1);
}

#[test]
fn point_accessors_return_the_fields() {
    let mut p = DataPoint::new(1234, 56);
    assert_eq!(p.get_time(), 1234);
    assert_eq!(p.get_occupancy(), 56);
    assert_eq!(p.get_time_mut(), 1234);
    assert_eq!(p.get_occupancy_mut(), 56);
}
