//! The remote store's wire formats, built with exact character-level
//! contracts: the single-sample object, the forecast-curve object, and
//! the schedule snapshot.
//!
//! Forecast keys are the four-digit zero-padded HHMM form, so the keys of
//! one day's curve sort in time order.

use vstd::prelude::*;
use vstd::string::StringExecFns;

use crate::schedule::Schedule;
use crate::timing::{Timing, TimeOfDay};
use crate::window::DataPoint;

verus! {

/// The ASCII digit character for one decimal digit.
pub open spec fn spec_digit_char(d: int) -> char {
    if d == 0 {
        '0'
    } else if d == 1 {
        '1'
    } else if d == 2 {
        '2'
    } else if d == 3 {
        '3'
    } else if d == 4 {
        '4'
    } else if d == 5 {
        '5'
    } else if d == 6 {
        '6'
    } else if d == 7 {
        '7'
    } else if d == 8 {
        '8'
    } else {
        '9'
    }
}

/// The decimal digits of a number, most significant first, no padding.
pub open spec fn spec_dec_chars(n: int) -> Seq<char>
    decreases n,
{
    if n < 10 {
        seq![spec_digit_char(n)]
    } else {
        spec_dec_chars(n / 10).push(spec_digit_char(n % 10))
    }
}

/// The decimal digits of a number, zero-padded on the left to two places.
pub open spec fn spec_two_chars(n: int) -> Seq<char> {
    seq![spec_digit_char(n / 10 % 10), spec_digit_char(n % 10)]
}

/// The HHMM string key of a sample time: zero-padded to four places,
/// which keeps one day's keys sorted in time order.
pub open spec fn spec_hhmm_key_chars(t: int) -> Seq<char> {
    if t < 10000 {
        seq![
            spec_digit_char(t / 1000),
            spec_digit_char(t / 100 % 10),
            spec_digit_char(t / 10 % 10),
            spec_digit_char(t % 10),
        ]
    } else {
        spec_dec_chars(t)
    }
}

fn digit_str(d: u8) -> (r: &'static str)
    requires
        d < 10,
    ensures
        r@ == seq![spec_digit_char(d as int)],
{
    proof {
        reveal_strlit("0");
        reveal_strlit("1");
        reveal_strlit("2");
        reveal_strlit("3");
        reveal_strlit("4");
        reveal_strlit("5");
        reveal_strlit("6");
        reveal_strlit("7");
        reveal_strlit("8");
        reveal_strlit("9");
    }
    let r: &'static str = match d {
        0 => "0",
        1 => "1",
        2 => "2",
        3 => "3",
        4 => "4",
        5 => "5",
        6 => "6",
        7 => "7",
        8 => "8",
        _ => "9",
    };
    proof {
        assert(r@ =~= seq![spec_digit_char(d as int)]);
    }
    r
}

/// The unpadded decimal text of a number.
pub fn dec_string(n: u64) -> (r: String)
    ensures
        r@ == spec_dec_chars(n as int),
    decreases n,
{
    if n < 10 {
        String::from_str(digit_str(n as u8))
    } else {
        let mut s = dec_string(n / 10);
        s.append(digit_str((n % 10) as u8));
        proof {
            assert(s@ =~= spec_dec_chars(n as int));
        }
        s
    }
}

fn two_string(n: u32) -> (r: String)
    requires
        n < 100,
    ensures
        r@ == spec_two_chars(n as int),
{
    let mut s = String::from_str(digit_str((n / 10) as u8));
    s.append(digit_str((n % 10) as u8));
    proof {
        assert(s@ =~= spec_two_chars(n as int));
    }
    s
}

/// The HHMM string key of a sample time.
pub fn hhmm_key(t: u16) -> (r: String)
    ensures
        r@ == spec_hhmm_key_chars(t as int),
{
    if t < 10000 {
        let mut s = String::from_str(digit_str((t / 1000) as u8));
        s.append(digit_str((t / 100 % 10) as u8));
        s.append(digit_str((t / 10 % 10) as u8));
        s.append(digit_str((t % 10) as u8));
        proof {
            assert(s@ =~= spec_hhmm_key_chars(t as int));
        }
        s
    } else {
        dec_string(t as u64)
    }
}

/// The wire form of one raw sample: an object mapping one key to an
/// integer occupancy.
pub open spec fn spec_sample_json(key: Seq<char>, occupancy: int) -> Seq<char> {
    "{ \""@ + key + "\":"@ + spec_dec_chars(occupancy) + " }"@
}

/// Builds the wire form of one raw sample write.
pub fn occupancy_sample_json(key: &str, occupancy: u8) -> (r: String)
    ensures
        r@ == spec_sample_json(key@, occupancy as int),
{
    let mut s = String::from_str("{ \"");
    s.append(key);
    s.append("\":");
    let dec = dec_string(occupancy as u64);
    s.append(dec.as_str());
    s.append(" }");
    proof {
        assert(s@ =~= spec_sample_json(key@, occupancy as int));
    }
    s
}

/// The wire form of one forecast-curve member: the sample's zero-padded
/// HHMM key mapped to its predicted occupancy.
pub open spec fn spec_curve_entry(p: DataPoint) -> Seq<char> {
    "\""@ + spec_hhmm_key_chars(p.spec_time()) + "\":"@ + spec_dec_chars(p.spec_occupancy())
}

/// The comma-separated members of a forecast curve, in curve order.
pub open spec fn spec_curve_body(pts: Seq<DataPoint>) -> Seq<char>
    decreases pts.len(),
{
    if pts.len() == 0 {
        Seq::empty()
    } else if pts.len() == 1 {
        spec_curve_entry(pts[0])
    } else {
        spec_curve_body(pts.drop_last()) + ","@ + spec_curve_entry(pts.last())
    }
}

/// The wire form of a forecast curve: an object mapping every generated
/// HHMM key to its predicted occupancy.
pub open spec fn spec_curve_json(pts: Seq<DataPoint>) -> Seq<char> {
    "{"@ + spec_curve_body(pts) + "}"@
}

fn curve_entry(p: &DataPoint) -> (r: String)
    ensures
        r@ == spec_curve_entry(*p),
{
    let mut s = String::from_str("\"");
    let key = hhmm_key(p.get_time());
    s.append(key.as_str());
    s.append("\":");
    let dec = dec_string(p.get_occupancy() as u64);
    s.append(dec.as_str());
    proof {
        assert(s@ =~= spec_curve_entry(*p));
    }
    s
}

/// Builds the wire form of one forecast-curve write.
pub fn curve_json(curve: &Vec<DataPoint>) -> (r: String)
    ensures
        r@ == spec_curve_json(curve@),
{
    let mut body = String::new();
    let mut i: usize = 0;
    while i < curve.len()
        invariant
            i <= curve@.len(),
            body@ == spec_curve_body(curve@.take(i as int)),
        decreases curve@.len() - i,
    {
        if i > 0 {
            body.append(",");
        }
        let entry = curve_entry(&curve[i]);
        body.append(entry.as_str());
        proof {
            let t = curve@.take(i as int + 1);
            assert(t.drop_last() =~= curve@.take(i as int));
            assert(t.last() == curve@[i as int]);
            if i == 0 {
                assert(body@ =~= spec_curve_body(t));
            } else {
                assert(body@ =~= spec_curve_body(t));
            }
        }
        i = i + 1;
    }
    proof {
        assert(curve@.take(curve@.len() as int) =~= curve@);
    }
    let mut s = String::from_str("{");
    s.append(body.as_str());
    s.append("}");
    proof {
        assert(s@ =~= spec_curve_json(curve@));
    }
    s
}

/// The HH:MM:SS text of a time of day.
pub open spec fn spec_time_chars(t: TimeOfDay) -> Seq<char> {
    spec_two_chars(t.spec_secs() / 3600) + ":"@ + spec_two_chars(t.spec_secs() % 3600 / 60) + ":"@
        + spec_two_chars(t.spec_secs() % 60)
}

/// The wire form of one day's timing in the schedule snapshot: its
/// opening and closing as HH:MM:SS, or null markers for a closed day.
pub open spec fn spec_timing_json(t: Timing) -> Seq<char> {
    match (t.spec_opening(), t.spec_closing()) {
        (Some(o), Some(c)) => "{\"opening\":\""@ + spec_time_chars(o) + "\",\"closing\":\""@
            + spec_time_chars(c) + "\",\"open\":true}"@,
        _ => "{\"opening\":\"null\",\"closing\":\"null\",\"open\":false}"@,
    }
}

/// The comma-separated timings of a week, Monday first.
pub open spec fn spec_timings_body(timings: Seq<Timing>, n: int) -> Seq<char>
    decreases n,
{
    if n <= 0 {
        Seq::empty()
    } else if n == 1 {
        spec_timing_json(timings[0])
    } else {
        spec_timings_body(timings, n - 1) + ","@ + spec_timing_json(timings[n - 1])
    }
}

/// The wire form of the schedule snapshot: the seven timings in weekday
/// order.
pub open spec fn spec_schedule_json(s: Schedule) -> Seq<char> {
    "{\"timings\":["@ + spec_timings_body(s.spec_timings(), 7) + "]}"@
}

fn time_string(t: TimeOfDay) -> (r: String)
    ensures
        r@ == spec_time_chars(t),
{
    let secs = t.secs();
    let mut s = two_string(secs / 3600);
    s.append(":");
    let m = two_string(secs % 3600 / 60);
    s.append(m.as_str());
    s.append(":");
    let sec = two_string(secs % 60);
    s.append(sec.as_str());
    proof {
        assert(s@ =~= spec_time_chars(t));
    }
    s
}

fn timing_json(t: &Timing) -> (r: String)
    ensures
        r@ == spec_timing_json(*t),
{
    match (t.get_opening(), t.get_closing()) {
        (Some(o), Some(c)) => {
            let mut s = String::from_str("{\"opening\":\"");
            let ot = time_string(o);
            s.append(ot.as_str());
            s.append("\",\"closing\":\"");
            let ct = time_string(c);
            s.append(ct.as_str());
            s.append("\",\"open\":true}");
            proof {
                assert(s@ =~= spec_timing_json(*t));
            }
            s
        },
        _ => String::from_str("{\"opening\":\"null\",\"closing\":\"null\",\"open\":false}"),
    }
}

/// Builds the wire form of the schedule snapshot write.
pub fn schedule_json(schedule: &Schedule) -> (r: String)
    ensures
        r@ == spec_schedule_json(*schedule),
{
    let mut body = String::new();
    let mut i: usize = 0;
    while i < 7
        invariant
            i <= 7,
            body@ == spec_timings_body(schedule.spec_timings(), i as int),
        decreases 7 - i,
    {
        if i > 0 {
            body.append(",");
        }
        let timing = schedule.get_timings_from_weekday(crate::calendar::get_weekday(i));
        let entry = timing_json(timing);
        body.append(entry.as_str());
        proof {
            assert(body@ =~= spec_timings_body(schedule.spec_timings(), i as int + 1));
        }
        i = i + 1;
    }
    let mut s = String::from_str("{\"timings\":[");
    s.append(body.as_str());
    s.append("]}");
    proof {
        assert(s@ =~= spec_schedule_json(*schedule));
    }
    s
}

} // verus!
