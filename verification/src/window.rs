//! The rolling historical window: per-weekday, multi-week samples feeding
//! the predictor, plus the binary persistence codec and the weekly-refresh
//! and daily-forecast decisions.
//!
//! Samples are grouped per source week; a group's position is its
//! weeks-away provenance (0 = most recent week), the freshness signal the
//! predictor weighs. The window always holds exactly seven per-weekday
//! series, and per-weekday group counts and per-group sample counts stay
//! within 16 bits so the weight arithmetic and the codec stay exact.

use vstd::prelude::*;

use crate::calendar::{spec_week_start_of, start_of_week, Date};

verus! {

/// One observed sample: a time of day in HHMM integer encoding and an
/// occupancy percentage.
#[derive(Clone, Copy, Debug, PartialEq, Eq, Structural)]
pub struct DataPoint {
    time: u16,
    occupancy: u16,
}

impl DataPoint {
    /// The HHMM-encoded time of day.
    pub closed spec fn spec_time(self) -> int {
        self.time as int
    }

    /// The occupancy percentage.
    pub closed spec fn spec_occupancy(self) -> int {
        self.occupancy as int
    }

    /// Builds a sample from an HHMM time and an occupancy.
    pub fn new(time: u16, occupancy: u16) -> (r: DataPoint)
        ensures
            r.spec_time() == time,
            r.spec_occupancy() == occupancy,
            r == spec_point(time as int, occupancy as int),
    {
        DataPoint { time, occupancy }
    }

    /// The HHMM-encoded time of day.
    pub fn get_time(&self) -> (r: u16)
        ensures
            r == self.spec_time(),
    {
        self.time
    }

    /// The HHMM-encoded time of day, reachable through a mutable borrow.
    pub fn get_time_mut(&mut self) -> (r: u16)
        ensures
            *final(self) == *old(self),
            r == old(self).spec_time(),
    {
        self.time
    }

    /// The occupancy percentage.
    pub fn get_occupancy(&self) -> (r: u16)
        ensures
            r == self.spec_occupancy(),
    {
        self.occupancy
    }

    /// The occupancy percentage, reachable through a mutable borrow.
    pub fn get_occupancy_mut(&mut self) -> (r: u16)
        ensures
            *final(self) == *old(self),
            r == old(self).spec_occupancy(),
    {
        self.occupancy
    }
}

/// Both components of a sample are 16-bit values.
pub proof fn lemma_point_ranges(p: DataPoint)
    ensures
        0 <= p.spec_time() < 0x10000,
        0 <= p.spec_occupancy() < 0x10000,
{
}

/// The sample with the given time and occupancy, as a specification value;
/// out-of-range components are truncated to 16 bits.
pub closed spec fn spec_point(time: int, occupancy: int) -> DataPoint {
    DataPoint { time: time as u16, occupancy: occupancy as u16 }
}

/// A specification sample built from in-range components reads back exactly
/// those components.
pub proof fn lemma_spec_point(time: int, occupancy: int)
    requires
        0 <= time < 0x10000,
        0 <= occupancy < 0x10000,
    ensures
        spec_point(time, occupancy).spec_time() == time,
        spec_point(time, occupancy).spec_occupancy() == occupancy,
{
}

/// The time of a specification sample is exactly the in-range time it was
/// built from, whatever the occupancy.
pub proof fn lemma_spec_point_time(time: int, occupancy: int)
    requires
        0 <= time < 0x10000,
    ensures
        spec_point(time, occupancy).spec_time() == time,
{
}

/// The per-weekday, per-week sample groups of a window, as mathematical
/// sequences: seven weekday entries, each a sequence of week groups, each a
/// sequence of samples.
pub open spec fn spec_groups_of(s: Seq<Vec<Vec<DataPoint>>>) -> Seq<Seq<Seq<DataPoint>>> {
    s.map_values(|v: Vec<Vec<DataPoint>>| v@.map_values(|w: Vec<DataPoint>| w@))
}

/// Shape every window keeps: one entry per weekday, and group and sample
/// counts that fit in 16 bits.
pub open spec fn spec_wf_groups(gs: Seq<Seq<Seq<DataPoint>>>) -> bool {
    &&& gs.len() == 7
    &&& (forall|wd: int| 0 <= wd < 7 ==> (#[trigger] gs[wd]).len() <= 0xFFFF)
    &&& (forall|wd: int, g: int|
        0 <= wd < 7 && 0 <= g < gs[wd].len() ==> (#[trigger] gs[wd][g]).len() <= 0xFFFF)
}

/// The day numbers of an optional marker date.
pub open spec fn spec_marker_days(m: Option<Date>) -> Option<int> {
    match m {
        Some(d) => Some(d.spec_days()),
        None => None,
    }
}

/// The rolling historical window: one series of week groups per weekday,
/// the week it was assembled for, and the day the forecast was last
/// computed.
#[derive(Debug)]
pub struct Data {
    data: Vec<Vec<Vec<DataPoint>>>,
    for_date: Date,
    last_predicted: Option<Date>,
}

impl Data {
    #[verifier::type_invariant]
    spec fn inv(self) -> bool {
        spec_wf_groups(spec_groups_of(self.data@))
    }

    /// The per-weekday week groups of samples.
    pub closed spec fn spec_groups(self) -> Seq<Seq<Seq<DataPoint>>> {
        spec_groups_of(self.data@)
    }

    /// The week this window was assembled for (a week-start date).
    pub closed spec fn spec_for_date(self) -> Date {
        self.for_date
    }

    /// The day the forecast was last computed, if ever.
    pub closed spec fn spec_last_predicted(self) -> Option<Date> {
        self.last_predicted
    }

    /// Builds a window from raw parts, rejecting any shape that is not
    /// exactly seven weekday entries with 16-bit group and sample counts.
    pub fn from_parts(data: Vec<Vec<Vec<DataPoint>>>, for_date: Date, last_predicted: Option<
        Date,
    >) -> (r: Option<Data>)
        ensures
            r is Some <==> spec_wf_groups(spec_groups_of(data@)),
            (r matches Some(d) ==> d.spec_groups() == spec_groups_of(data@)),
            (r matches Some(d) ==> d.spec_for_date() == for_date),
            (r matches Some(d) ==> d.spec_last_predicted() == last_predicted),
    {
        if data.len() != 7 {
            proof {
                assert(!spec_wf_groups(spec_groups_of(data@)));
            }
            return None;
        }
        let mut wd: usize = 0;
        while wd < 7
            invariant
                data@.len() == 7,
                wd <= 7,
                forall|i: int|
                    0 <= i < wd ==> (#[trigger] spec_groups_of(data@)[i]).len() <= 0xFFFF,
                forall|i: int, g: int|
                    0 <= i < wd && 0 <= g < spec_groups_of(data@)[i].len() ==> (
                    #[trigger] spec_groups_of(data@)[i][g]).len() <= 0xFFFF,
            decreases 7 - wd,
        {
            let groups = &data[wd];
            if groups.len() > 0xFFFF {
                proof {
                    assert(spec_groups_of(data@)[wd as int].len() == groups@.len());
                    assert(!spec_wf_groups(spec_groups_of(data@)));
                }
                return None;
            }
            let mut g: usize = 0;
            while g < groups.len()
                invariant
                    data@.len() == 7,
                    wd < 7,
                    groups == &data[wd as int],
                    g <= groups@.len(),
                    forall|j: int| 0 <= j < g ==> (#[trigger] groups@[j])@.len() <= 0xFFFF,
                decreases groups@.len() - g,
            {
                if groups[g].len() > 0xFFFF {
                    proof {
                        let gg = g as int;
                        assert(spec_groups_of(data@)[wd as int][gg].len() == groups@[gg]@.len());
                        assert(!spec_wf_groups(spec_groups_of(data@)));
                    }
                    return None;
                }
                g = g + 1;
            }
            assert(forall|j: int|
                0 <= j < groups@.len() ==> (#[trigger] spec_groups_of(data@)[wd as int][j]).len()
                    <= 0xFFFF);
            wd = wd + 1;
        }
        Some(Data { data, for_date, last_predicted })
    }

    /// The per-weekday week groups; always seven entries with 16-bit group
    /// and sample counts.
    pub fn get_data(&self) -> (r: &Vec<Vec<Vec<DataPoint>>>)
        ensures
            spec_groups_of(r@) == self.spec_groups(),
            spec_wf_groups(spec_groups_of(r@)),
    {
        proof {
            use_type_invariant(self);
        }
        &self.data
    }

    /// A second name for `get_data`, for callers that reach the groups
    /// while holding the window mutably.
    pub fn get_data_mut(&self) -> (r: &Vec<Vec<Vec<DataPoint>>>)
        ensures
            spec_groups_of(r@) == self.spec_groups(),
            spec_wf_groups(spec_groups_of(r@)),
    {
        proof {
            use_type_invariant(self);
        }
        &self.data
    }

    /// The week this window was assembled for.
    pub fn get_for_date(&self) -> (r: Date)
        ensures
            r == self.spec_for_date(),
    {
        self.for_date
    }

    /// The day the forecast was last computed, if ever.
    pub fn get_last_predicted(&self) -> (r: Option<Date>)
        ensures
            r == self.spec_last_predicted(),
    {
        self.last_predicted
    }

    /// Records that the forecast was computed on `day`.
    pub fn set_last_predicted(&mut self, day: Date)
        ensures
            final(self).spec_groups() == old(self).spec_groups(),
            final(self).spec_for_date() == old(self).spec_for_date(),
            final(self).spec_last_predicted() == Some(day),
    {
        proof {
            use_type_invariant(&*self);
        }
        self.last_predicted = Some(day);
    }

    /// Whether the daily forecast is still owed: no forecast was recorded
    /// yet, or the last one is older than `today`.
    pub fn should_predict(&self, today: Date) -> (r: bool)
        ensures
            r == spec_should_predict(*self, today),
    {
        match &self.last_predicted {
            None => true,
            Some(d) => d.days() < today.days(),
        }
    }
}

/// The daily-forecast rule: predict when no marker exists or the marker is
/// older than today.
pub open spec fn spec_should_predict(d: Data, today: Date) -> bool {
    match d.spec_last_predicted() {
        None => true,
        Some(m) => m.spec_days() < today.spec_days(),
    }
}

/// The weekly-refresh rule: rebuild when no window is cached or the cached
/// window was assembled for a different week than today's.
pub open spec fn spec_needs_rebuild(existing: Option<Data>, today: Date) -> bool {
    match existing {
        None => true,
        Some(d) => d.spec_for_date().spec_days() != spec_week_start_of(today.spec_days()),
    }
}

/// Whether the cached window must be rebuilt for the week of `today`.
pub fn needs_rebuild(existing: &Option<Data>, today: Date) -> (r: bool)
    ensures
        r == spec_needs_rebuild(*existing, today),
{
    match existing {
        None => true,
        Some(d) => d.get_for_date().days() != start_of_week(today).days(),
    }
}

/// Within one week the refresh is a no-op: a window assembled for the week
/// of `today` is never rebuilt, so an unchanged remote store leaves the
/// persisted state byte-identical.
pub proof fn lemma_refresh_idempotent(d: Data, today: Date)
    requires
        d.spec_for_date().spec_days() == spec_week_start_of(today.spec_days()),
    ensures
        !spec_needs_rebuild(Some(d), today),
{
}

// ---------------------------------------------------------------------------
// Persistence codec. The window is durably stored between runs; the format
// is a private little-endian byte layout whose only obligation is to round
// trip the window exactly: for-date, marker, and every per-weekday group.
// ---------------------------------------------------------------------------
/// Little-endian two-byte encoding of a 16-bit value.
pub open spec fn spec_ser_u16(v: int) -> Seq<u8> {
    seq![(v % 256) as u8, ((v / 0x100) % 256) as u8]
}

/// Little-endian eight-byte encoding of a 64-bit value.
pub open spec fn spec_ser_u64(v: int) -> Seq<u8> {
    seq![
        (v % 256) as u8,
        ((v / 0x100) % 256) as u8,
        ((v / 0x10000) % 256) as u8,
        ((v / 0x1000000) % 256) as u8,
        ((v / 0x100000000) % 256) as u8,
        ((v / 0x10000000000) % 256) as u8,
        ((v / 0x1000000000000) % 256) as u8,
        ((v / 0x100000000000000) % 256) as u8,
    ]
}

/// Encoding of one sample: time then occupancy.
pub open spec fn spec_ser_point(p: DataPoint) -> Seq<u8> {
    spec_ser_u16(p.spec_time()) + spec_ser_u16(p.spec_occupancy())
}

/// Encoding of a run of samples, in order.
pub open spec fn spec_ser_points(s: Seq<DataPoint>) -> Seq<u8>
    decreases s.len(),
{
    if s.len() == 0 {
        Seq::empty()
    } else {
        spec_ser_point(s[0]) + spec_ser_points(s.drop_first())
    }
}

/// Encoding of one week group: its sample count, then its samples.
pub open spec fn spec_ser_group(g: Seq<DataPoint>) -> Seq<u8> {
    spec_ser_u64(g.len() as int) + spec_ser_points(g)
}

/// Encoding of a run of week groups, in order.
pub open spec fn spec_ser_groups(gs: Seq<Seq<DataPoint>>) -> Seq<u8>
    decreases gs.len(),
{
    if gs.len() == 0 {
        Seq::empty()
    } else {
        spec_ser_group(gs[0]) + spec_ser_groups(gs.drop_first())
    }
}

/// Encoding of one weekday: its group count, then its groups.
pub open spec fn spec_ser_weekday(gs: Seq<Seq<DataPoint>>) -> Seq<u8> {
    spec_ser_u64(gs.len() as int) + spec_ser_groups(gs)
}

/// Encoding of a run of weekdays, in order.
pub open spec fn spec_ser_weekdays(ws: Seq<Seq<Seq<DataPoint>>>) -> Seq<u8>
    decreases ws.len(),
{
    if ws.len() == 0 {
        Seq::empty()
    } else {
        spec_ser_weekday(ws[0]) + spec_ser_weekdays(ws.drop_first())
    }
}

/// Encoding of the optional last-predicted marker: an absence byte, or a
/// presence byte followed by the day number.
pub open spec fn spec_ser_marker(m: Option<int>) -> Seq<u8> {
    match m {
        None => seq![0u8],
        Some(d) => seq![1u8] + spec_ser_u64(d),
    }
}

/// The full encoding of a window: for-date, marker, then the seven
/// weekdays.
pub open spec fn spec_ser_window(fd: int, mk: Option<int>, gs: Seq<Seq<Seq<DataPoint>>>) -> Seq<
    u8,
> {
    spec_ser_u64(fd) + spec_ser_marker(mk) + spec_ser_weekdays(gs)
}

/// Decoding of a 16-bit value; the unread remainder comes back with it.
pub open spec fn spec_parse_u16(s: Seq<u8>) -> Option<(int, Seq<u8>)> {
    if s.len() >= 2 {
        Some((s[0] + 0x100 * (s[1] as int), s.skip(2)))
    } else {
        None
    }
}

/// Decoding of a 64-bit value; the unread remainder comes back with it.
pub open spec fn spec_parse_u64(s: Seq<u8>) -> Option<(int, Seq<u8>)> {
    if s.len() >= 8 {
        Some(
            (
                s[0] + 0x100 * (s[1] as int) + 0x10000 * (s[2] as int) + 0x1000000 * (s[3] as int)
                    + 0x100000000 * (s[4] as int) + 0x10000000000 * (s[5] as int)
                    + 0x1000000000000 * (s[6] as int) + 0x100000000000000 * (s[7] as int),
                s.skip(8),
            ),
        )
    } else {
        None
    }
}

/// Decoding of one sample.
pub closed spec fn spec_parse_point(s: Seq<u8>) -> Option<(DataPoint, Seq<u8>)> {
    match spec_parse_u16(s) {
        Some((t, r)) => match spec_parse_u16(r) {
            Some((o, r2)) => Some((DataPoint { time: t as u16, occupancy: o as u16 }, r2)),
            None => None,
        },
        None => None,
    }
}

/// Decoding of exactly `n` samples.
pub closed spec fn spec_parse_points(s: Seq<u8>, n: nat) -> Option<(Seq<DataPoint>, Seq<u8>)>
    decreases n,
{
    if n == 0 {
        Some((Seq::empty(), s))
    } else {
        match spec_parse_point(s) {
            Some((p, r)) => match spec_parse_points(r, (n - 1) as nat) {
                Some((ps, r2)) => Some((seq![p] + ps, r2)),
                None => None,
            },
            None => None,
        }
    }
}

/// Decoding of one week group: a 16-bit-bounded sample count, then that
/// many samples.
pub closed spec fn spec_parse_group(s: Seq<u8>) -> Option<(Seq<DataPoint>, Seq<u8>)> {
    match spec_parse_u64(s) {
        Some((n, r)) => if n <= 0xFFFF {
            spec_parse_points(r, n as nat)
        } else {
            None
        },
        None => None,
    }
}

/// Decoding of exactly `n` week groups.
pub closed spec fn spec_parse_groups(s: Seq<u8>, n: nat) -> Option<(Seq<Seq<DataPoint>>, Seq<u8>)>
    decreases n,
{
    if n == 0 {
        Some((Seq::empty(), s))
    } else {
        match spec_parse_group(s) {
            Some((g, r)) => match spec_parse_groups(r, (n - 1) as nat) {
                Some((gs, r2)) => Some((seq![g] + gs, r2)),
                None => None,
            },
            None => None,
        }
    }
}

/// Decoding of one weekday: a 16-bit-bounded group count, then that many
/// groups.
pub closed spec fn spec_parse_weekday(s: Seq<u8>) -> Option<(Seq<Seq<DataPoint>>, Seq<u8>)> {
    match spec_parse_u64(s) {
        Some((n, r)) => if n <= 0xFFFF {
            spec_parse_groups(r, n as nat)
        } else {
            None
        },
        None => None,
    }
}

/// Decoding of exactly `n` weekdays.
pub closed spec fn spec_parse_weekdays(s: Seq<u8>, n: nat) -> Option<
    (Seq<Seq<Seq<DataPoint>>>, Seq<u8>),
>
    decreases n,
{
    if n == 0 {
        Some((Seq::empty(), s))
    } else {
        match spec_parse_weekday(s) {
            Some((w, r)) => match spec_parse_weekdays(r, (n - 1) as nat) {
                Some((ws, r2)) => Some((seq![w] + ws, r2)),
                None => None,
            },
            None => None,
        }
    }
}

/// Decoding of the marker.
pub closed spec fn spec_parse_marker(s: Seq<u8>) -> Option<(Option<int>, Seq<u8>)> {
    if s.len() >= 1 {
        if s[0] == 0u8 {
            Some((None, s.skip(1)))
        } else if s[0] == 1u8 {
            match spec_parse_u64(s.skip(1)) {
                Some((d, r)) => Some((Some(d), r)),
                None => None,
            }
        } else {
            None
        }
    } else {
        None
    }
}

/// Decoding of a whole window; every byte must be consumed.
pub closed spec fn spec_parse_window(s: Seq<u8>) -> Option<
    (int, Option<int>, Seq<Seq<Seq<DataPoint>>>),
> {
    match spec_parse_u64(s) {
        Some((fd, r)) => match spec_parse_marker(r) {
            Some((mk, r2)) => match spec_parse_weekdays(r2, 7) {
                Some((ws, r3)) => if r3.len() == 0 {
                    Some((fd, mk, ws))
                } else {
                    None
                },
                None => None,
            },
            None => None,
        },
        None => None,
    }
}

proof fn lemma_parse_ser_u16(v: u16, rest: Seq<u8>)
    ensures
        spec_parse_u16(spec_ser_u16(v as int) + rest) == Some((v as int, rest)),
{
    let s = spec_ser_u16(v as int) + rest;
    assert(s.len() >= 2);
    assert(v % 256 + 0x100 * ((v / 0x100) % 256) == v) by (bit_vector);
    assert(s[0] == (v as int % 256) as u8);
    assert(s[1] == ((v as int / 0x100) % 256) as u8);
    assert(s[0] + 0x100 * (s[1] as int) == v as int);
    assert(s.skip(2) =~= rest);
}

proof fn lemma_parse_ser_u64(v: u64, rest: Seq<u8>)
    ensures
        spec_parse_u64(spec_ser_u64(v as int) + rest) == Some((v as int, rest)),
{
    let s = spec_ser_u64(v as int) + rest;
    assert(s.len() >= 8);
    assert(v % 256 + 0x100 * ((v / 0x100) % 256) + 0x10000 * ((v / 0x10000) % 256) + 0x1000000 * ((
    v / 0x1000000) % 256) + 0x100000000 * ((v / 0x100000000) % 256) + 0x10000000000 * ((v
        / 0x10000000000) % 256) + 0x1000000000000 * ((v / 0x1000000000000) % 256)
        + 0x100000000000000 * ((v / 0x100000000000000) % 256) == v) by (bit_vector);
    assert(s[0] == (v as int % 256) as u8);
    assert(s[1] == ((v as int / 0x100) % 256) as u8);
    assert(s[2] == ((v as int / 0x10000) % 256) as u8);
    assert(s[3] == ((v as int / 0x1000000) % 256) as u8);
    assert(s[4] == ((v as int / 0x100000000) % 256) as u8);
    assert(s[5] == ((v as int / 0x10000000000) % 256) as u8);
    assert(s[6] == ((v as int / 0x1000000000000) % 256) as u8);
    assert(s[7] == ((v as int / 0x100000000000000) % 256) as u8);
    assert(s[0] + 0x100 * (s[1] as int) + 0x10000 * (s[2] as int) + 0x1000000 * (s[3] as int)
        + 0x100000000 * (s[4] as int) + 0x10000000000 * (s[5] as int) + 0x1000000000000 * (s[
        6] as int) + 0x100000000000000 * (s[7] as int) == v as int);
    assert(s.skip(8) =~= rest);
}

proof fn lemma_parse_ser_point(p: DataPoint, rest: Seq<u8>)
    ensures
        spec_parse_point(spec_ser_point(p) + rest) == Some((p, rest)),
{
    let s = spec_ser_point(p) + rest;
    assert(s =~= spec_ser_u16(p.spec_time()) + (spec_ser_u16(p.spec_occupancy()) + rest));
    lemma_parse_ser_u16(p.time, spec_ser_u16(p.spec_occupancy()) + rest);
    lemma_parse_ser_u16(p.occupancy, rest);
    assert(spec_parse_point(s) == Some((DataPoint { time: p.time, occupancy: p.occupancy }, rest)));
}

proof fn lemma_parse_ser_points(ps: Seq<DataPoint>, rest: Seq<u8>)
    ensures
        spec_parse_points(spec_ser_points(ps) + rest, ps.len()) == Some((ps, rest)),
    decreases ps.len(),
{
    if ps.len() == 0 {
        assert(spec_ser_points(ps) + rest =~= rest);
        assert(spec_parse_points(rest, 0) == Some((ps, rest)));
    } else {
        let tail = ps.drop_first();
        lemma_parse_ser_points(tail, rest);
        let s = spec_ser_points(ps) + rest;
        assert(s =~= spec_ser_point(ps[0]) + (spec_ser_points(tail) + rest));
        lemma_parse_ser_point(ps[0], spec_ser_points(tail) + rest);
        assert(seq![ps[0]] + tail =~= ps);
    }
}

proof fn lemma_parse_ser_group(g: Seq<DataPoint>, rest: Seq<u8>)
    requires
        g.len() <= 0xFFFF,
    ensures
        spec_parse_group(spec_ser_group(g) + rest) == Some((g, rest)),
{
    let s = spec_ser_group(g) + rest;
    assert(s =~= spec_ser_u64(g.len() as int) + (spec_ser_points(g) + rest));
    lemma_parse_ser_u64(g.len() as u64, spec_ser_points(g) + rest);
    lemma_parse_ser_points(g, rest);
}

proof fn lemma_parse_ser_groups(gs: Seq<Seq<DataPoint>>, rest: Seq<u8>)
    requires
        forall|i: int| 0 <= i < gs.len() ==> (#[trigger] gs[i]).len() <= 0xFFFF,
    ensures
        spec_parse_groups(spec_ser_groups(gs) + rest, gs.len()) == Some((gs, rest)),
    decreases gs.len(),
{
    if gs.len() == 0 {
        assert(spec_ser_groups(gs) + rest =~= rest);
    } else {
        let tail = gs.drop_first();
        lemma_parse_ser_groups(tail, rest);
        let s = spec_ser_groups(gs) + rest;
        assert(s =~= spec_ser_group(gs[0]) + (spec_ser_groups(tail) + rest));
        lemma_parse_ser_group(gs[0], spec_ser_groups(tail) + rest);
        assert(seq![gs[0]] + tail =~= gs);
    }
}

proof fn lemma_parse_ser_weekday(gs: Seq<Seq<DataPoint>>, rest: Seq<u8>)
    requires
        gs.len() <= 0xFFFF,
        forall|i: int| 0 <= i < gs.len() ==> (#[trigger] gs[i]).len() <= 0xFFFF,
    ensures
        spec_parse_weekday(spec_ser_weekday(gs) + rest) == Some((gs, rest)),
{
    let s = spec_ser_weekday(gs) + rest;
    assert(s =~= spec_ser_u64(gs.len() as int) + (spec_ser_groups(gs) + rest));
    lemma_parse_ser_u64(gs.len() as u64, spec_ser_groups(gs) + rest);
    lemma_parse_ser_groups(gs, rest);
}

#[verifier::rlimit(50)]
proof fn lemma_parse_ser_weekdays(ws: Seq<Seq<Seq<DataPoint>>>, rest: Seq<u8>)
    requires
        forall|i: int| 0 <= i < ws.len() ==> (#[trigger] ws[i]).len() <= 0xFFFF,
        forall|i: int, g: int|
            0 <= i < ws.len() && 0 <= g < ws[i].len() ==> (#[trigger] ws[i][g]).len() <= 0xFFFF,
    ensures
        spec_parse_weekdays(spec_ser_weekdays(ws) + rest, ws.len()) == Some((ws, rest)),
    decreases ws.len(),
{
    if ws.len() == 0 {
        assert(spec_ser_weekdays(ws) + rest =~= rest);
    } else {
        let tail = ws.drop_first();
        assert(forall|i: int, g: int|
            0 <= i < tail.len() && 0 <= g < tail[i].len() ==> (#[trigger] tail[i][g]).len()
                <= 0xFFFF) by {
            assert(forall|i: int| 0 <= i < tail.len() ==> tail[i] == ws[i + 1]);
        }
        lemma_parse_ser_weekdays(tail, rest);
        let s = spec_ser_weekdays(ws) + rest;
        assert(s =~= spec_ser_weekday(ws[0]) + (spec_ser_weekdays(tail) + rest));
        lemma_parse_ser_weekday(ws[0], spec_ser_weekdays(tail) + rest);
        assert(seq![ws[0]] + tail =~= ws);
    }
}

proof fn lemma_parse_ser_marker(mk: Option<int>, rest: Seq<u8>)
    requires
        (mk matches Some(d) ==> 0 <= d < 0x10000000000000000),
    ensures
        spec_parse_marker(spec_ser_marker(mk) + rest) == Some((mk, rest)),
{
    match mk {
        None => {
            let s = spec_ser_marker(mk) + rest;
            assert(s[0] == 0u8);
            assert(s.skip(1) =~= rest);
        },
        Some(d) => {
            let s = spec_ser_marker(mk) + rest;
            assert(s[0] == 1u8);
            assert(s.skip(1) =~= spec_ser_u64(d) + rest);
            lemma_parse_ser_u64(d as u64, rest);
        },
    }
}

proof fn lemma_ser_points_snoc(s: Seq<DataPoint>)
    requires
        s.len() > 0,
    ensures
        spec_ser_points(s) == spec_ser_points(s.drop_last()) + spec_ser_point(s.last()),
    decreases s.len(),
{
    if s.len() == 1 {
        assert(s.drop_first() =~= Seq::<DataPoint>::empty());
        assert(s.drop_last() =~= Seq::<DataPoint>::empty());
        assert(spec_ser_points(s) =~= spec_ser_points(s.drop_last()) + spec_ser_point(s.last()));
    } else {
        let t = s.drop_first();
        lemma_ser_points_snoc(t);
        assert(s.drop_last().len() > 0);
        assert(s.drop_last()[0] == s[0]);
        assert(s.drop_last().drop_first() =~= t.drop_last());
        assert(spec_ser_points(s.drop_last()) == spec_ser_point(s[0]) + spec_ser_points(
            t.drop_last(),
        ));
        assert(t.last() == s.last());
        assert(spec_ser_points(s) == spec_ser_point(s[0]) + spec_ser_points(t));
        assert(spec_ser_points(s) =~= (spec_ser_point(s[0]) + spec_ser_points(t.drop_last()))
            + spec_ser_point(s.last()));
    }
}

proof fn lemma_ser_groups_snoc(s: Seq<Seq<DataPoint>>)
    requires
        s.len() > 0,
    ensures
        spec_ser_groups(s) == spec_ser_groups(s.drop_last()) + spec_ser_group(s.last()),
    decreases s.len(),
{
    if s.len() == 1 {
        assert(s.drop_first() =~= Seq::<Seq<DataPoint>>::empty());
        assert(s.drop_last() =~= Seq::<Seq<DataPoint>>::empty());
        assert(spec_ser_groups(s) =~= spec_ser_groups(s.drop_last()) + spec_ser_group(s.last()));
    } else {
        let t = s.drop_first();
        lemma_ser_groups_snoc(t);
        assert(s.drop_last().len() > 0);
        assert(s.drop_last()[0] == s[0]);
        assert(s.drop_last().drop_first() =~= t.drop_last());
        assert(spec_ser_groups(s.drop_last()) == spec_ser_group(s[0]) + spec_ser_groups(
            t.drop_last(),
        ));
        assert(t.last() == s.last());
        assert(spec_ser_groups(s) == spec_ser_group(s[0]) + spec_ser_groups(t));
        assert(spec_ser_groups(s) =~= (spec_ser_group(s[0]) + spec_ser_groups(t.drop_last()))
            + spec_ser_group(s.last()));
    }
}

proof fn lemma_ser_weekdays_snoc(s: Seq<Seq<Seq<DataPoint>>>)
    requires
        s.len() > 0,
    ensures
        spec_ser_weekdays(s) == spec_ser_weekdays(s.drop_last()) + spec_ser_weekday(s.last()),
    decreases s.len(),
{
    if s.len() == 1 {
        assert(s.drop_first() =~= Seq::<Seq<Seq<DataPoint>>>::empty());
        assert(s.drop_last() =~= Seq::<Seq<Seq<DataPoint>>>::empty());
        assert(spec_ser_weekdays(s) =~= spec_ser_weekdays(s.drop_last()) + spec_ser_weekday(
            s.last(),
        ));
    } else {
        let t = s.drop_first();
        lemma_ser_weekdays_snoc(t);
        assert(s.drop_last().len() > 0);
        assert(s.drop_last()[0] == s[0]);
        assert(s.drop_last().drop_first() =~= t.drop_last());
        assert(spec_ser_weekdays(s.drop_last()) == spec_ser_weekday(s[0]) + spec_ser_weekdays(
            t.drop_last(),
        ));
        assert(t.last() == s.last());
        assert(spec_ser_weekdays(s) == spec_ser_weekday(s[0]) + spec_ser_weekdays(t));
        assert(spec_ser_weekdays(s) =~= (spec_ser_weekday(s[0]) + spec_ser_weekdays(t.drop_last()))
            + spec_ser_weekday(s.last()));
    }
}

fn push_u16(out: &mut Vec<u8>, v: u16)
    ensures
        final(out)@ == old(out)@ + spec_ser_u16(v as int),
{
    out.push((v % 256) as u8);
    out.push(((v / 0x100) % 256) as u8);
    assert(final(out)@ =~= old(out)@ + spec_ser_u16(v as int));
}

fn push_u64(out: &mut Vec<u8>, v: u64)
    ensures
        final(out)@ == old(out)@ + spec_ser_u64(v as int),
{
    out.push((v % 256) as u8);
    out.push(((v / 0x100) % 256) as u8);
    out.push(((v / 0x10000) % 256) as u8);
    out.push(((v / 0x1000000) % 256) as u8);
    out.push(((v / 0x100000000) % 256) as u8);
    out.push(((v / 0x10000000000) % 256) as u8);
    out.push(((v / 0x1000000000000) % 256) as u8);
    out.push(((v / 0x100000000000000) % 256) as u8);
    assert(final(out)@ =~= old(out)@ + spec_ser_u64(v as int));
}

impl Data {
    /// Encodes the window for durable storage.
    pub fn serialize(&self) -> (out: Vec<u8>)
        ensures
            out@ == spec_ser_window(
                self.spec_for_date().spec_days(),
                spec_marker_days(self.spec_last_predicted()),
                self.spec_groups(),
            ),
    {
        proof {
            use_type_invariant(self);
        }
        let ghost fd = self.spec_for_date().spec_days();
        let ghost mk = spec_marker_days(self.spec_last_predicted());
        let ghost gs = self.spec_groups();
        let mut out: Vec<u8> = Vec::new();
        push_u64(&mut out, self.for_date.days());
        match &self.last_predicted {
            None => {
                out.push(0u8);
            },
            Some(d) => {
                out.push(1u8);
                push_u64(&mut out, d.days());
            },
        }
        assert(out@ =~= spec_ser_u64(fd) + spec_ser_marker(mk));
        let ghost header = spec_ser_u64(fd) + spec_ser_marker(mk);
        let mut wd: usize = 0;
        while wd < 7
            invariant
                wd <= 7,
                gs == self.spec_groups(),
                gs == spec_groups_of(self.data@),
                gs.len() == 7,
                header == spec_ser_u64(fd) + spec_ser_marker(mk),
                out@ == header + spec_ser_weekdays(gs.take(wd as int)),
            decreases 7 - wd,
        {
            let groups: &Vec<Vec<DataPoint>> = &self.data[wd];
            let ghost wgs = gs[wd as int];
            assert(wgs == groups@.map_values(|w: Vec<DataPoint>| w@));
            assert(wgs.len() == groups@.len());
            push_u64(&mut out, groups.len() as u64);
            let ghost inner_header = header + spec_ser_weekdays(gs.take(wd as int)) + spec_ser_u64(
                wgs.len() as int,
            );
            assert(out@ == inner_header);
            let mut g: usize = 0;
            while g < groups.len()
                invariant
                    g <= groups@.len(),
                    wgs == groups@.map_values(|w: Vec<DataPoint>| w@),
                    out@ == inner_header + spec_ser_groups(wgs.take(g as int)),
                decreases groups@.len() - g,
            {
                let points: &Vec<DataPoint> = &groups[g];
                let ghost pts = wgs[g as int];
                assert(pts == points@);
                push_u64(&mut out, points.len() as u64);
                let ghost point_header = inner_header + spec_ser_groups(wgs.take(g as int))
                    + spec_ser_u64(pts.len() as int);
                assert(out@ == point_header);
                let mut p: usize = 0;
                while p < points.len()
                    invariant
                        p <= points@.len(),
                        pts == points@,
                        out@ == point_header + spec_ser_points(pts.take(p as int)),
                    decreases points@.len() - p,
                {
                    let point = &points[p];
                    push_u16(&mut out, point.time);
                    push_u16(&mut out, point.occupancy);
                    proof {
                        lemma_ser_points_snoc(pts.take(p as int + 1));
                        assert(pts.take(p as int + 1).drop_last() =~= pts.take(p as int));
                        assert(pts.take(p as int + 1).last() == pts[p as int]);
                        assert(out@ =~= point_header + spec_ser_points(pts.take(p as int + 1)));
                    }
                    p = p + 1;
                }
                proof {
                    assert(pts.take(pts.len() as int) =~= pts);
                    lemma_ser_groups_snoc(wgs.take(g as int + 1));
                    assert(wgs.take(g as int + 1).drop_last() =~= wgs.take(g as int));
                    assert(wgs.take(g as int + 1).last() == wgs[g as int]);
                    assert(out@ =~= inner_header + spec_ser_groups(wgs.take(g as int + 1)));
                }
                g = g + 1;
            }
            proof {
                assert(wgs.take(wgs.len() as int) =~= wgs);
                lemma_ser_weekdays_snoc(gs.take(wd as int + 1));
                assert(gs.take(wd as int + 1).drop_last() =~= gs.take(wd as int));
                assert(gs.take(wd as int + 1).last() == gs[wd as int]);
                assert(out@ =~= header + spec_ser_weekdays(gs.take(wd as int + 1)));
            }
            wd = wd + 1;
        }
        proof {
            assert(gs.take(7) =~= gs);
            assert(out@ =~= spec_ser_window(fd, mk, gs));
        }
        out
    }
}

/// Why decoding the remote store's response failed; all of these are fatal
/// to the caller, since guessing at the structure would corrupt forecasts.
#[derive(Clone, Copy, Debug, PartialEq, Eq, Structural)]
pub enum DecodeError {
    /// The response was not JSON.
    ParseFailed,
    /// The response was neither the array-keyed nor the object-keyed week
    /// shape.
    UnexpectedShape,
    /// A sample entry had a non-numeric key or a non-integer value.
    BadEntry,
}

/// Whether a day table's entries all decode: every key a decimal run
/// denoting a 16-bit HHMM time, every value an unsigned integer, and no
/// more entries than a group may hold.
pub open spec fn spec_day_entries_ok(entries: Seq<(Seq<u8>, Option<u64>)>) -> bool {
    &&& entries.len() <= 0xFFFF
    &&& (forall|i: int|
        0 <= i < entries.len() ==> crate::jsonio::spec_valid_u16_str((#[trigger] entries[i]).0)
            && entries[i].1 is Some)
}

/// The samples a day table decodes to, in entry order: one point per
/// entry, its time the key's decimal reading and its occupancy the value
/// truncated to 16 bits.
pub open spec fn spec_day_points_of(entries: Seq<(Seq<u8>, Option<u64>)>) -> Seq<DataPoint> {
    Seq::new(
        entries.len(),
        |i: int|
            spec_point(
                crate::jsonio::spec_digits_val(entries[i].0),
                match entries[i].1 {
                    Some(v) => v as int % 0x10000,
                    None => 0,
                },
            ),
    )
}

/// Whether one weekday member of a week document decodes: absent days
/// stand for no data, present ones must read as a day table whose entries
/// all decode.
pub open spec fn spec_day_ok(day: Option<Seq<char>>) -> bool {
    match day {
        None => true,
        Some(t) => match crate::jsonio::spec_day_table(t) {
            Some(e) => spec_day_entries_ok(e),
            None => false,
        },
    }
}

/// The series one weekday member of a week document decodes to.
pub open spec fn spec_day_series(day: Option<Seq<char>>) -> Seq<DataPoint> {
    match day {
        None => Seq::empty(),
        Some(t) => match crate::jsonio::spec_day_table(t) {
            Some(e) => spec_day_points_of(e),
            None => Seq::empty(),
        },
    }
}

/// Whether a whole week document decodes: it reads as an array- or
/// object-shaped week and every one of its seven weekday members decodes.
pub open spec fn spec_week_ok(s: Seq<char>) -> bool {
    match crate::jsonio::spec_week_days(s) {
        Some(Some(days)) => days.len() == 7 && (forall|wd: int|
            0 <= wd < 7 ==> spec_day_ok(#[trigger] days[wd])),
        _ => false,
    }
}

/// The series a week document decodes to at one weekday index.
pub open spec fn spec_week_series(s: Seq<char>, wd: int) -> Seq<DataPoint> {
    match crate::jsonio::spec_week_days(s) {
        Some(Some(days)) => if 0 <= wd < days.len() {
            spec_day_series(days[wd])
        } else {
            Seq::empty()
        },
        _ => Seq::empty(),
    }
}

/// Decodes one weekday's samples from its member text: an object mapping
/// HHMM string keys to integer occupancies, `null` or absent meaning no
/// data. Occupancies are truncated to 16 bits as the wire format allows
/// wider integers. Succeeds exactly when the member decodes, and then
/// returns exactly its series.
fn day_points(day: Option<&String>) -> (r: Result<Vec<DataPoint>, DecodeError>)
    ensures
        (match day {
            Some(t) => {
                &&& (r is Ok <==> spec_day_ok(Some(t@)))
                &&& (r matches Ok(pts) ==> pts@ == spec_day_series(Some(t@)))
            },
            None => (r matches Ok(pts) && pts@ == Seq::<DataPoint>::empty()),
        }),
        (r matches Ok(pts) ==> pts@.len() <= 0xFFFF),
        !(r matches Err(e) && e == DecodeError::ParseFailed),
{
    let t = match day {
        None => {
            return Ok(Vec::new());
        },
        Some(t) => t,
    };
    let entries = match crate::jsonio::day_table(t.as_str()) {
        Some(e) => e,
        None => {
            return Err(DecodeError::UnexpectedShape);
        },
    };
    let ghost em = crate::jsonio::spec_view_entries(entries@);
    proof {
        assert(crate::jsonio::spec_day_table(t@) == Some(em));
    }
    if entries.len() > 0xFFFF {
        proof {
            assert(!spec_day_entries_ok(em));
        }
        return Err(DecodeError::UnexpectedShape);
    }
    let mut pts: Vec<DataPoint> = Vec::new();
    let mut i: usize = 0;
    while i < entries.len()
        invariant
            i <= entries@.len(),
            entries@.len() <= 0xFFFF,
            em == crate::jsonio::spec_view_entries(entries@),
            day == Some(t),
            crate::jsonio::spec_day_table(t@) == Some(em),
            pts@.len() == i,
            forall|j: int|
                0 <= j < i ==> crate::jsonio::spec_valid_u16_str((#[trigger] em[j]).0)
                    && em[j].1 is Some,
            forall|j: int| 0 <= j < i ==> (#[trigger] pts@[j]) == spec_day_points_of(em)[j],
        decreases entries@.len() - i,
    {
        proof {
            assert(em[i as int] == (entries@[i as int].0@, entries@[i as int].1));
        }
        let key: &Vec<u8> = &entries[i].0;
        let time: u16 = match crate::jsonio::parse_u16(key.as_slice()) {
            Some(t2) => t2,
            None => {
                proof {
                    assert(!crate::jsonio::spec_valid_u16_str(em[i as int].0));
                    assert(!spec_day_entries_ok(em));
                    assert(!spec_day_ok(Some(t@)));
                }
                return Err(DecodeError::BadEntry);
            },
        };
        let occ64: u64 = match entries[i].1 {
            Some(o) => o,
            None => {
                proof {
                    assert(em[i as int].1 is None);
                    assert(!spec_day_entries_ok(em));
                    assert(!spec_day_ok(Some(t@)));
                }
                return Err(DecodeError::BadEntry);
            },
        };
        let occ: u16 = (occ64 % 0x10000) as u16;
        pts.push(DataPoint::new(time, occ));
        i = i + 1;
    }
    proof {
        assert(spec_day_entries_ok(em));
        assert(pts@ =~= spec_day_points_of(em));
    }
    Ok(pts)
}

impl Data {
    /// Assembles a fresh window for the week of `date` from the raw JSON
    /// responses for the preceding weeks, most recent first; the position
    /// of a response is the weeks-away provenance of its samples. It
    /// succeeds exactly when every response decodes as an array- or
    /// object-keyed week whose present days are objects of HHMM keys and
    /// integer occupancies, and then weekday `wd`'s group `w` holds
    /// exactly the series week `w` decodes to at `wd`.
    pub fn new(date: Date, week_jsons: &Vec<String>) -> (r: Result<Data, DecodeError>)
        requires
            week_jsons@.len() <= 0xFFFF,
        ensures
            r is Ok <==> (forall|w: int|
                0 <= w < week_jsons@.len() ==> spec_week_ok((#[trigger] week_jsons@[w])@)),
            (r matches Ok(d) ==> d.spec_for_date().spec_days() == spec_week_start_of(
                date.spec_days(),
            )),
            (r matches Ok(d) ==> d.spec_last_predicted() is None),
            (r matches Ok(d) ==> d.spec_groups().len() == 7),
            (r matches Ok(d) ==> forall|wd: int|
                0 <= wd < 7 ==> (#[trigger] d.spec_groups()[wd]).len() == week_jsons@.len()),
            (r matches Ok(d) ==> forall|wd: int, w: int|
                0 <= wd < 7 && 0 <= w < week_jsons@.len() ==> (#[trigger] d.spec_groups()[wd][w])
                    == spec_week_series(week_jsons@[w]@, wd)),
    {
        let mut weeks: Vec<Vec<Option<String>>> = Vec::new();
        let mut w: usize = 0;
        while w < week_jsons.len()
            invariant
                w <= week_jsons@.len(),
                weeks@.len() == w,
                forall|ww: int|
                    0 <= ww < w ==> crate::jsonio::spec_week_days((#[trigger] week_jsons@[ww])@)
                        == Some(Some(crate::jsonio::spec_view_day_texts(weeks@[ww]@))),
                forall|ww: int| 0 <= ww < w ==> (#[trigger] weeks@[ww])@.len() == 7,
            decreases week_jsons@.len() - w,
        {
            match crate::jsonio::week_days(week_jsons[w].as_str()) {
                None => {
                    proof {
                        assert(!spec_week_ok(week_jsons@[w as int]@));
                    }
                    return Err(DecodeError::ParseFailed);
                },
                Some(None) => {
                    proof {
                        assert(!spec_week_ok(week_jsons@[w as int]@));
                    }
                    return Err(DecodeError::UnexpectedShape);
                },
                Some(Some(days)) => {
                    weeks.push(days);
                },
            }
            w = w + 1;
        }
        let mut data: Vec<Vec<Vec<DataPoint>>> = Vec::new();
        let mut wd: usize = 0;
        while wd < 7
            invariant
                wd <= 7,
                weeks@.len() == week_jsons@.len(),
                week_jsons@.len() <= 0xFFFF,
                forall|ww: int|
                    0 <= ww < weeks@.len() ==> crate::jsonio::spec_week_days(
                        (#[trigger] week_jsons@[ww])@,
                    ) == Some(Some(crate::jsonio::spec_view_day_texts(weeks@[ww]@))),
                forall|ww: int| 0 <= ww < weeks@.len() ==> (#[trigger] weeks@[ww])@.len() == 7,
                data@.len() == wd,
                forall|i: int| 0 <= i < wd ==> (#[trigger] data@[i])@.len() == week_jsons@.len(),
                forall|i: int, g: int|
                    0 <= i < wd && 0 <= g < data@[i]@.len() ==> (#[trigger] data@[i]@[g])@.len()
                        <= 0xFFFF,
                forall|i: int, g: int|
                    0 <= i < wd && 0 <= g < data@[i]@.len() ==> (#[trigger] data@[i]@[g])@
                        == spec_week_series(week_jsons@[g]@, i),
                forall|i: int, g: int|
                    0 <= i < wd && 0 <= g < weeks@.len() ==> spec_day_ok(
                        #[trigger] crate::jsonio::spec_view_day_texts(weeks@[g]@)[i],
                    ),
            decreases 7 - wd,
        {
            let mut groups: Vec<Vec<DataPoint>> = Vec::new();
            let mut w2: usize = 0;
            while w2 < weeks.len()
                invariant
                    w2 <= weeks@.len(),
                    weeks@.len() == week_jsons@.len(),
                    wd < 7,
                    forall|ww: int|
                        0 <= ww < weeks@.len() ==> crate::jsonio::spec_week_days(
                            (#[trigger] week_jsons@[ww])@,
                        ) == Some(Some(crate::jsonio::spec_view_day_texts(weeks@[ww]@))),
                    forall|ww: int| 0 <= ww < weeks@.len() ==> (#[trigger] weeks@[ww])@.len() == 7,
                    groups@.len() == w2,
                    forall|g: int| 0 <= g < w2 ==> (#[trigger] groups@[g])@.len() <= 0xFFFF,
                    forall|g: int|
                        0 <= g < w2 ==> (#[trigger] groups@[g])@ == spec_week_series(
                            week_jsons@[g]@,
                            wd as int,
                        ),
                    forall|g: int|
                        0 <= g < w2 ==> spec_day_ok(
                            #[trigger] crate::jsonio::spec_view_day_texts(weeks@[g]@)[wd as int],
                        ),
                decreases weeks@.len() - w2,
            {
                let week: &Vec<Option<String>> = &weeks[w2];
                let ghost dayv = crate::jsonio::spec_view_day_texts(week@)[wd as int];
                let day: Option<&String> = match &week[wd] {
                    Some(t) => Some(t),
                    None => None,
                };
                proof {
                    assert(dayv == (match day {
                        Some(t) => Some(t@),
                        None => None::<Seq<char>>,
                    }));
                }
                let pts = match day_points(day) {
                    Ok(p) => p,
                    Err(e) => {
                        proof {
                            assert(!spec_day_ok(dayv));
                            assert(!spec_week_ok(week_jsons@[w2 as int]@));
                        }
                        return Err(e);
                    },
                };
                proof {
                    assert(pts@ == spec_day_series(dayv));
                    assert(spec_week_series(week_jsons@[w2 as int]@, wd as int) == spec_day_series(
                        dayv,
                    ));
                }
                groups.push(pts);
                w2 = w2 + 1;
            }
            data.push(groups);
            wd = wd + 1;
        }
        let for_date = start_of_week(date);
        proof {
            assert(forall|i: int|
                0 <= i < 7 ==> (#[trigger] spec_groups_of(data@)[i]).len() == data@[i]@.len());
            assert(forall|i: int, g: int|
                0 <= i < 7 && 0 <= g < spec_groups_of(data@)[i].len() ==> (#[trigger] spec_groups_of(
                    data@,
                )[i][g]) == data@[i]@[g]@);
            assert(spec_wf_groups(spec_groups_of(data@)));
            assert forall|ww: int| 0 <= ww < week_jsons@.len() implies spec_week_ok(
                (#[trigger] week_jsons@[ww])@,
            ) by {
                assert(crate::jsonio::spec_week_days(week_jsons@[ww]@) == Some(
                    Some(crate::jsonio::spec_view_day_texts(weeks@[ww]@)),
                ));
                assert(forall|i: int|
                    0 <= i < 7 ==> spec_day_ok(
                        #[trigger] crate::jsonio::spec_view_day_texts(weeks@[ww]@)[i],
                    ));
            }
        }
        Ok(Data { data, for_date, last_predicted: None })
    }
}

fn read_u16(bytes: &Vec<u8>, pos: usize) -> (r: Option<(u16, usize)>)
    requires
        pos <= bytes@.len(),
    ensures
        (match r {
            Some((v, j)) => j == pos + 2 && j <= bytes@.len() && spec_parse_u16(
                bytes@.skip(pos as int),
            ) == Some((v as int, bytes@.skip(j as int))),
            None => spec_parse_u16(bytes@.skip(pos as int)) is None,
        }),
{
    if bytes.len() - pos >= 2 {
        let b0 = bytes[pos];
        let b1 = bytes[pos + 1];
        let v: u16 = b0 as u16 + 0x100 * (b1 as u16);
        proof {
            let s = bytes@.skip(pos as int);
            assert(s[0] == b0);
            assert(s[1] == b1);
            assert(s.skip(2) =~= bytes@.skip(pos as int + 2));
        }
        Some((v, pos + 2))
    } else {
        None
    }
}

fn read_u64(bytes: &Vec<u8>, pos: usize) -> (r: Option<(u64, usize)>)
    requires
        pos <= bytes@.len(),
    ensures
        (match r {
            Some((v, j)) => j == pos + 8 && j <= bytes@.len() && spec_parse_u64(
                bytes@.skip(pos as int),
            ) == Some((v as int, bytes@.skip(j as int))),
            None => spec_parse_u64(bytes@.skip(pos as int)) is None,
        }),
{
    if bytes.len() - pos >= 8 {
        let b0 = bytes[pos] as u64;
        let b1 = bytes[pos + 1] as u64;
        let b2 = bytes[pos + 2] as u64;
        let b3 = bytes[pos + 3] as u64;
        let b4 = bytes[pos + 4] as u64;
        let b5 = bytes[pos + 5] as u64;
        let b6 = bytes[pos + 6] as u64;
        let b7 = bytes[pos + 7] as u64;
        let v: u64 = b0 + 0x100 * b1 + 0x10000 * b2 + 0x1000000 * b3 + 0x100000000 * b4
            + 0x10000000000 * b5 + 0x1000000000000 * b6 + 0x100000000000000 * b7;
        proof {
            let s = bytes@.skip(pos as int);
            assert(s[0] == bytes@[pos as int]);
            assert(s[1] == bytes@[pos as int + 1]);
            assert(s[2] == bytes@[pos as int + 2]);
            assert(s[3] == bytes@[pos as int + 3]);
            assert(s[4] == bytes@[pos as int + 4]);
            assert(s[5] == bytes@[pos as int + 5]);
            assert(s[6] == bytes@[pos as int + 6]);
            assert(s[7] == bytes@[pos as int + 7]);
            assert(s.skip(8) =~= bytes@.skip(pos as int + 8));
        }
        Some((v, pos + 8))
    } else {
        None
    }
}

fn read_points(bytes: &Vec<u8>, pos: usize, n: u64) -> (r: Option<(Vec<DataPoint>, usize)>)
    requires
        pos <= bytes@.len(),
        n <= 0xFFFF,
    ensures
        (match r {
            Some((v, j)) => j <= bytes@.len() && v@.len() == n && spec_parse_points(
                bytes@.skip(pos as int),
                n as nat,
            ) == Some((v@, bytes@.skip(j as int))),
            None => spec_parse_points(bytes@.skip(pos as int), n as nat) is None,
        }),
{
    let mut acc: Vec<DataPoint> = Vec::new();
    let mut cur: usize = pos;
    let mut i: u64 = 0;
    while i < n
        invariant
            i <= n,
            cur <= bytes@.len(),
            acc@.len() == i,
            (match spec_parse_points(bytes@.skip(cur as int), (n - i) as nat) {
                Some((ps, rest)) => spec_parse_points(bytes@.skip(pos as int), n as nat) == Some(
                    (acc@ + ps, rest),
                ),
                None => spec_parse_points(bytes@.skip(pos as int), n as nat) is None,
            }),
        decreases n - i,
    {
        let ghost prev = bytes@.skip(cur as int);
        let (t, next) = match read_u16(bytes, cur) {
            Some(x) => x,
            None => {
                return None;
            },
        };
        let (o, next2) = match read_u16(bytes, next) {
            Some(x) => x,
            None => {
                return None;
            },
        };
        let p = DataPoint::new(t, o);
        proof {
            assert(spec_parse_point(prev) == Some((p, bytes@.skip(next2 as int))));
        }
        acc.push(p);
        cur = next2;
        i = i + 1;
        proof {
            let m = (n - i + 1) as nat;
            assert(spec_parse_points(prev, m) == (match spec_parse_points(
                bytes@.skip(cur as int),
                (m - 1) as nat,
            ) {
                Some((ps2, r2)) => Some((seq![p] + ps2, r2)),
                None => None::<(Seq<DataPoint>, Seq<u8>)>,
            }));
            match spec_parse_points(bytes@.skip(cur as int), (n - i) as nat) {
                Some((ps2, r2)) => {
                    assert(acc@.drop_last() + (seq![p] + ps2) =~= acc@ + ps2);
                },
                None => {},
            }
        }
    }
    proof {
        assert(spec_parse_points(bytes@.skip(cur as int), 0) == Some(
            (Seq::<DataPoint>::empty(), bytes@.skip(cur as int)),
        ));
        assert(acc@ + Seq::<DataPoint>::empty() =~= acc@);
    }
    Some((acc, cur))
}

fn read_group(bytes: &Vec<u8>, pos: usize) -> (r: Option<(Vec<DataPoint>, usize)>)
    requires
        pos <= bytes@.len(),
    ensures
        (match r {
            Some((v, j)) => j <= bytes@.len() && v@.len() <= 0xFFFF && spec_parse_group(
                bytes@.skip(pos as int),
            ) == Some((v@, bytes@.skip(j as int))),
            None => spec_parse_group(bytes@.skip(pos as int)) is None,
        }),
{
    let (n, next) = match read_u64(bytes, pos) {
        Some(x) => x,
        None => {
            return None;
        },
    };
    if n > 0xFFFF {
        return None;
    }
    read_points(bytes, next, n)
}

fn read_weekday(bytes: &Vec<u8>, pos: usize) -> (r: Option<(Vec<Vec<DataPoint>>, usize)>)
    requires
        pos <= bytes@.len(),
    ensures
        (match r {
            Some((v, j)) => j <= bytes@.len() && v@.len() <= 0xFFFF && (forall|i: int|
                0 <= i < v@.len() ==> (#[trigger] v@[i])@.len() <= 0xFFFF) && spec_parse_weekday(
                bytes@.skip(pos as int),
            ) == Some((v@.map_values(|x: Vec<DataPoint>| x@), bytes@.skip(j as int))),
            None => spec_parse_weekday(bytes@.skip(pos as int)) is None,
        }),
{
    let (n, next) = match read_u64(bytes, pos) {
        Some(x) => x,
        None => {
            return None;
        },
    };
    if n > 0xFFFF {
        return None;
    }
    let mut acc: Vec<Vec<DataPoint>> = Vec::new();
    let mut cur: usize = next;
    let mut i: u64 = 0;
    while i < n
        invariant
            i <= n,
            n <= 0xFFFF,
            next <= bytes@.len(),
            cur <= bytes@.len(),
            spec_parse_u64(bytes@.skip(pos as int)) == Some((n as int, bytes@.skip(next as int))),
            acc@.len() == i,
            forall|q: int| 0 <= q < acc@.len() ==> (#[trigger] acc@[q])@.len() <= 0xFFFF,
            (match spec_parse_groups(bytes@.skip(cur as int), (n - i) as nat) {
                Some((gs, rest)) => spec_parse_groups(bytes@.skip(next as int), n as nat) == Some(
                    (acc@.map_values(|x: Vec<DataPoint>| x@) + gs, rest),
                ),
                None => spec_parse_groups(bytes@.skip(next as int), n as nat) is None,
            }),
        decreases n - i,
    {
        let ghost prev = bytes@.skip(cur as int);
        let ghost accm = acc@.map_values(|x: Vec<DataPoint>| x@);
        let (g, next2) = match read_group(bytes, cur) {
            Some(x) => x,
            None => {
                return None;
            },
        };
        acc.push(g);
        cur = next2;
        i = i + 1;
        proof {
            let m = (n - i + 1) as nat;
            assert(spec_parse_groups(prev, m) == (match spec_parse_groups(
                bytes@.skip(cur as int),
                (m - 1) as nat,
            ) {
                Some((gs2, r2)) => Some((seq![g@] + gs2, r2)),
                None => None::<(Seq<Seq<DataPoint>>, Seq<u8>)>,
            }));
            assert(acc@.map_values(|x: Vec<DataPoint>| x@) =~= accm + seq![g@]);
            match spec_parse_groups(bytes@.skip(cur as int), (n - i) as nat) {
                Some((gs2, r2)) => {
                    assert(accm + (seq![g@] + gs2) =~= (accm + seq![g@]) + gs2);
                },
                None => {},
            }
        }
    }
    proof {
        assert(spec_parse_groups(bytes@.skip(cur as int), 0) == Some(
            (Seq::<Seq<DataPoint>>::empty(), bytes@.skip(cur as int)),
        ));
        assert(acc@.map_values(|x: Vec<DataPoint>| x@) + Seq::<Seq<DataPoint>>::empty() =~= acc@
            .map_values(|x: Vec<DataPoint>| x@));
    }
    Some((acc, cur))
}

impl Data {
    /// Decodes a window from durable storage; anything that is not an exact
    /// encoding is rejected.
    pub fn deserialize(bytes: &Vec<u8>) -> (r: Option<Data>)
        ensures
            (match spec_parse_window(bytes@) {
                Some((fd, mk, gs)) => (r matches Some(d) && d.spec_for_date().spec_days() == fd
                    && spec_marker_days(d.spec_last_predicted()) == mk && d.spec_groups() == gs),
                None => r is None,
            }),
    {
        let (fd, pos1) = match read_u64(bytes, 0) {
            Some(x) => x,
            None => {
                proof {
                    assert(bytes@.skip(0) =~= bytes@);
                }
                return None;
            },
        };
        proof {
            assert(bytes@.skip(0) =~= bytes@);
        }
        let for_date = Date::from_days(fd);
        if pos1 >= bytes.len() {
            proof {
                assert(bytes@.skip(pos1 as int).len() == 0);
            }
            return None;
        }
        let tag = bytes[pos1];
        let ghost marker_bytes = bytes@.skip(pos1 as int);
        let (last_predicted, pos2): (Option<Date>, usize) = if tag == 0 {
            proof {
                assert(marker_bytes[0] == 0u8);
                assert(marker_bytes.skip(1) =~= bytes@.skip(pos1 as int + 1));
            }
            (None, pos1 + 1)
        } else if tag == 1 {
            proof {
                assert(marker_bytes[0] == 1u8);
                assert(marker_bytes.skip(1) =~= bytes@.skip(pos1 as int + 1));
            }
            match read_u64(bytes, pos1 + 1) {
                Some((d, j)) => (Some(Date::from_days(d)), j),
                None => {
                    return None;
                },
            }
        } else {
            proof {
                assert(marker_bytes[0] != 0u8 && marker_bytes[0] != 1u8);
            }
            return None;
        };
        let ghost mk = spec_marker_days(last_predicted);
        assert(spec_parse_marker(marker_bytes) == Some((mk, bytes@.skip(pos2 as int))));
        let mut data: Vec<Vec<Vec<DataPoint>>> = Vec::new();
        let mut cur: usize = pos2;
        let mut wd: usize = 0;
        while wd < 7
            invariant
                wd <= 7,
                pos2 <= bytes@.len(),
                cur <= bytes@.len(),
                spec_parse_u64(bytes@) == Some((fd as int, bytes@.skip(pos1 as int))),
                for_date.spec_days() == fd,
                mk == spec_marker_days(last_predicted),
                spec_parse_marker(bytes@.skip(pos1 as int)) == Some((mk, bytes@.skip(pos2 as int))),
                data@.len() == wd,
                forall|q: int| 0 <= q < data@.len() ==> (#[trigger] data@[q])@.len() <= 0xFFFF,
                forall|q: int, g: int|
                    0 <= q < data@.len() && 0 <= g < data@[q]@.len() ==> (#[trigger] data@[q]@[
                    g])@.len() <= 0xFFFF,
                (match spec_parse_weekdays(bytes@.skip(cur as int), (7 - wd) as nat) {
                    Some((ws, rest)) => spec_parse_weekdays(bytes@.skip(pos2 as int), 7) == Some(
                        (spec_groups_of(data@) + ws, rest),
                    ),
                    None => spec_parse_weekdays(bytes@.skip(pos2 as int), 7) is None,
                }),
            decreases 7 - wd,
        {
            let ghost prev = bytes@.skip(cur as int);
            let ghost accm = spec_groups_of(data@);
            let (w, next2) = match read_weekday(bytes, cur) {
                Some(x) => x,
                None => {
                    return None;
                },
            };
            data.push(w);
            cur = next2;
            wd = wd + 1;
            proof {
                let m = (7 - wd + 1) as nat;
                let wm = w@.map_values(|x: Vec<DataPoint>| x@);
                assert(spec_parse_weekdays(prev, m) == (match spec_parse_weekdays(
                    bytes@.skip(cur as int),
                    (m - 1) as nat,
                ) {
                    Some((ws2, r2)) => Some((seq![wm] + ws2, r2)),
                    None => None::<(Seq<Seq<Seq<DataPoint>>>, Seq<u8>)>,
                }));
                assert(spec_groups_of(data@) =~= accm + seq![wm]);
                match spec_parse_weekdays(bytes@.skip(cur as int), (7 - wd) as nat) {
                    Some((ws2, r2)) => {
                        assert(accm + (seq![wm] + ws2) =~= (accm + seq![wm]) + ws2);
                    },
                    None => {},
                }
            }
        }
        proof {
            assert(spec_parse_weekdays(bytes@.skip(cur as int), 0) == Some(
                (Seq::<Seq<Seq<DataPoint>>>::empty(), bytes@.skip(cur as int)),
            ));
            assert(spec_groups_of(data@) + Seq::<Seq<Seq<DataPoint>>>::empty() =~= spec_groups_of(
                data@,
            ));
        }
        if cur != bytes.len() {
            proof {
                assert(bytes@.skip(cur as int).len() != 0);
            }
            return None;
        }
        proof {
            assert(bytes@.skip(cur as int).len() == 0);
        }
        Some(Data { data, for_date, last_predicted })
    }
}

/// The codec round trip: decoding an encoded window reproduces the for-date,
/// the marker, and every per-weekday series exactly.
pub proof fn lemma_codec_roundtrip(fd: int, mk: Option<int>, gs: Seq<Seq<Seq<DataPoint>>>)
    requires
        0 <= fd < 0x10000000000000000,
        (mk matches Some(d) ==> 0 <= d < 0x10000000000000000),
        spec_wf_groups(gs),
    ensures
        spec_parse_window(spec_ser_window(fd, mk, gs)) == Some((fd, mk, gs)),
{
    let s = spec_ser_window(fd, mk, gs);
    assert(s =~= spec_ser_u64(fd) + (spec_ser_marker(mk) + (spec_ser_weekdays(gs)
        + Seq::<u8>::empty())));
    lemma_parse_ser_u64(fd as u64, spec_ser_marker(mk) + (spec_ser_weekdays(gs)
        + Seq::<u8>::empty()));
    lemma_parse_ser_marker(mk, spec_ser_weekdays(gs) + Seq::<u8>::empty());
    lemma_parse_ser_weekdays(gs, Seq::<u8>::empty());
}

} // verus!
