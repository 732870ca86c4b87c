use occupancy_forecast::auth::{needs_refresh, Credential, ServiceKey};
use occupancy_forecast::calendar::{
    get_num, get_weekday, start_of_week, week_keys, Date, Weekday,
};
use occupancy_forecast::jsonio::parse_u16;
use occupancy_forecast::schedule::Schedule;
use occupancy_forecast::timing::Timing;
use occupancy_forecast::wire::{curve_json, dec_string, hhmm_key, occupancy_sample_json, schedule_json};
use occupancy_forecast::window::DataPoint;
use occupancy_forecast::timing::TimeOfDay;

#[test]
fn weekday_numbers_are_monday_based() {
    assert_eq!(get_num(Weekday::Monday), 0);
    assert_eq!(get_num(Weekday::Tuesday), 1);
    assert_eq!(get_num(Weekday::Wednesday), 2);
    assert_eq!(get_num(Weekday::Thursday), 3);
    assert_eq!(get_num(Weekday::Friday), 4);
    assert_eq!(get_num(Weekday::Saturday), 5);
    assert_eq!(get_num(Weekday::Sunday), 6);
    for i in 0..7 {
        assert_eq!(get_num(get_weekday(i)), i);
    }
    assert_eq!(get_weekday(9), Weekday::Monday);
}

#[test]
fn dates_know_their_weekday() {
    assert_eq!(Date::from_days(0).weekday(), Weekday::Monday);
    assert_eq!(Date::from_days(6).weekday(), Weekday::Sunday);
    assert_eq!(Date::from_days(700).weekday(), Weekday::Monday);
    assert_eq!(Date::from_days(703).weekday_num(), 3);
}

#[test]
fn week_starts_on_monday() {
    assert_eq!(start_of_week(Date::from_days(0)).days(), 0);
    assert_eq!(start_of_week(Date::from_days(6)).days(), 0);
    assert_eq!(start_of_week(Date::from_days(100)).days(), 98);
    assert_eq!(start_of_week(Date::from_days(98)).days(), 98);
}

#[test]
fn week_keys_walk_backwards_by_whole_weeks() {
    // A Thursday: the preceding weeks' Mondays, most recent first.
    let date = Date::from_days(101);
    let keys = week_keys(date, 3);
    let days: Vec<u64> = keys.iter().map(|d| d.days()).collect();
    assert_eq!(days, vec![91, 84, 77]);
    assert!(week_keys(date, 0).is_empty());
}

#[test]
fn time_of_day_components() {
    let t = TimeOfDay::from_hms(14, 35, 7);
    assert_eq!(t.hour(), 14);
    assert_eq!(t.minute(), 35);
    assert_eq!(t.second(), 7);
    assert_eq!(t.secs(), 14 * 3600 + 35 * 60 + 7);
    assert_eq!(t.hhmm(), 1435);
    assert_eq!(t.minutes_of_day(), 14 * 60 + 35);
    assert_eq!(TimeOfDay::from_hms(0, 0, 0).hhmm(), 0);
    assert_eq!(TimeOfDay::from_hms(23, 59, 59).hhmm(), 2359);
}

#[test]
fn decimal_parser_accepts_exact_u16_runs() {
    assert_eq!(parse_u16(b"0"), Some(0));
    assert_eq!(parse_u16(b"0930"), Some(930));
    assert_eq!(parse_u16(b"2359"), Some(2359));
    assert_eq!(parse_u16(b"65535"), Some(65535));
    assert_eq!(parse_u16(b"00123"), Some(123));
}

#[test]
fn decimal_parser_rejects_everything_else() {
    assert_eq!(parse_u16(b""), None);
    assert_eq!(parse_u16(b"65536"), None);
    assert_eq!(parse_u16(b"99999"), None);
    assert_eq!(parse_u16(b"12a"), None);
    assert_eq!(parse_u16(b"-5"), None);
    assert_eq!(parse_u16(b"+5"), None);
    assert_eq!(parse_u16(b" 12"), None);
}

#[test]
fn credentials_expire() {
    assert!(needs_refresh(&None, 1_000));
    let cred = Credential::new("token".to_string(), 2_000);
    assert_eq!(cred.expires_at(), 2_000);
    assert_eq!(cred.token(), "token");
    assert!(!needs_refresh(&Some(Credential::new("t".to_string(), 2_000)), 1_999));
    assert!(!needs_refresh(&Some(Credential::new("t".to_string(), 2_000)), 2_000));
    assert!(needs_refresh(&Some(Credential::new("t".to_string(), 2_000)), 2_001));
}

#[test]
fn service_key_reads_the_three_fields() {
    let json = r#"{
        "client_email": "svc@example.test",
        "private_key": "SECRET-REDACTED",
        "token_uri": "https://oauth.example.test/token"
    }"#;
    let value: serde_json::Value = serde_json::from_str(json).unwrap();
    let key = ServiceKey::new(&value).expect("all fields present");
    assert_eq!(key.email(), "svc@example.test");
    assert_eq!(key.private_key(), "SECRET-REDACTED");
    assert_eq!(key.token_url(), "https://oauth.example.test/token");
}

#[test]
fn service_key_requires_all_fields() {
    let value: serde_json::Value =
        serde_json::from_str(r#"{"client_email": "svc@example.test"}"#).unwrap();
    assert!(ServiceKey::new(&value).is_none());
    let value: serde_json::Value =
        serde_json::from_str(r#"{"client_email": 5, "private_key": "k", "token_uri": "u"}"#)
            .unwrap();
    assert!(ServiceKey::new(&value).is_none());
}

#[test]
fn service_key_from_parts_round_trips() {
    let key = ServiceKey::from_parts(
        "a@b".to_string(),
        "pem".to_string(),
        "https://t".to_string(),
    );
    assert_eq!(key.email(), "a@b");
    assert_eq!(key.private_key(), "pem");
    assert_eq!(key.token_url(), "https://t");
}

#[test]
fn decimal_and_key_formatting() {
    assert_eq!(dec_string(0), "0");
    assert_eq!(dec_string(7), "7");
    assert_eq!(dec_string(42), "42");
    assert_eq!(dec_string(65535), "65535");
    assert_eq!(hhmm_key(0), "0000");
    assert_eq!(hhmm_key(930), "0930");
    assert_eq!(hhmm_key(2359), "2359");
}

#[test]
fn sample_wire_format() {
    assert_eq!(occupancy_sample_json("0930", 45), "{ \"0930\":45 }");
    assert_eq!(occupancy_sample_json("2026-01-05-09-30", 0), "{ \"2026-01-05-09-30\":0 }");
}

#[test]
fn curve_wire_format() {
    assert_eq!(curve_json(&Vec::new()), "{}");
    let curve = vec![DataPoint::new(900, 20), DataPoint::new(930, 41)];
    assert_eq!(curve_json(&curve), "{\"0900\":20,\"0930\":41}");
}

#[test]
fn schedule_wire_format() {
    let mut timings = vec![Timing::open(
        TimeOfDay::from_hms(6, 30, 0),
        TimeOfDay::from_hms(22, 0, 0),
    )];
    for _ in 1..7 {
        timings.push(Timing::closed());
    }
    let sched = Schedule::new(Date::from_days(0), timings).unwrap();
    let json = schedule_json(&sched);
    assert!(json.starts_with(
        "{\"timings\":[{\"opening\":\"06:30:00\",\"closing\":\"22:00:00\",\"open\":true},"
    ));
    assert!(json.ends_with("{\"opening\":\"null\",\"closing\":\"null\",\"open\":false}]}"));
    assert_eq!(json.matches("\"open\":false").count(), 6);
}

#[test]
fn schedule_equality_is_structural() {
    let make = |closing_minute: u32| {
        let mut timings = vec![Timing::open(
            TimeOfDay::from_hms(6, 30, 0),
            TimeOfDay::from_hms(22, closing_minute, 0),
        )];
        for _ in 1..7 {
            timings.push(Timing::closed());
        }
        Schedule::new(Date::from_days(7), timings).unwrap()
    };
    assert!(make(0) == make(0));
    assert!(make(0) != make(15));
    assert!(Timing::closed() == Timing::closed());
    assert!(Timing::closed() != Timing::open(
        TimeOfDay::from_hms(9, 0, 0),
        TimeOfDay::from_hms(17, 0, 0)
    ));
    assert!(TimeOfDay::from_hms(9, 0, 0) == TimeOfDay::from_hms(9, 0, 0));
}
