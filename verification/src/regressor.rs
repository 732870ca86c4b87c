//! The weighted k-nearest-neighbour predictor.
//!
//! Every sample is weighted by the sum of a freshness signal, the
//! reciprocal of one plus its weeks-away provenance, and a proximity
//! signal, the reciprocal of one plus its HHMM distance to the target
//! time. The k heaviest samples are retained, earlier samples winning
//! ties, and the forecast is the weight-weighted average of their
//! occupancies, truncated to an integer.
//!
//! Weights are exact rationals; the average is evaluated over a common
//! denominator with unbounded limb arithmetic, so the result is the exact
//! truncated value, not a floating-point approximation.

use vstd::arithmetic::div_mod::{
    lemma_div_is_ordered, lemma_div_pos_is_pos, lemma_fundamental_div_mod,
    lemma_fundamental_div_mod_converse,
};
use vstd::prelude::*;

use crate::bignum::{bn_add, bn_le, bn_mul_small, bn_one, bn_zero, spec_val};
use crate::schedule::Schedule;
use crate::timing::{spec_hhmm, Timing};
use crate::window::{lemma_point_ranges, spec_point, Data, DataPoint};

verus! {

/// One candidate's exact weight `n / q` and its occupancy, as
/// specification values.
pub struct Frac {
    /// The occupancy the candidate votes for.
    pub occ: int,
    /// Weight numerator: `(weeks_away + 1) + (distance + 1)`.
    pub n: int,
    /// Weight denominator: `(weeks_away + 1) * (distance + 1)`.
    pub q: int,
}

/// Absolute difference.
pub open spec fn spec_abs_diff(a: int, b: int) -> int {
    if a >= b {
        a - b
    } else {
        b - a
    }
}

/// The weight fraction of one sample: freshness `1/(weeks+1)` plus
/// proximity `1/(distance+1)`, as a single fraction over their product.
pub open spec fn spec_frac_of(weeks: int, p: DataPoint, target: int) -> Frac {
    let d = spec_abs_diff(p.spec_time(), target);
    Frac {
        occ: p.spec_occupancy(),
        n: (weeks + 1) + (d + 1),
        q: (weeks + 1) * (d + 1),
    }
}

/// The weight fractions of one week group, oldest position known.
pub open spec fn spec_group_fracs(g: Seq<DataPoint>, weeks: int, target: int) -> Seq<Frac> {
    Seq::new(g.len(), |i: int| spec_frac_of(weeks, g[i], target))
}

/// The weight fractions of all groups from `idx` on, in series order; a
/// group's index is its weeks-away provenance.
pub open spec fn spec_fracs_from(groups: Seq<Seq<DataPoint>>, idx: int, target: int) -> Seq<Frac>
    decreases groups.len() - idx,
{
    if idx < 0 || idx >= groups.len() {
        Seq::empty()
    } else {
        spec_group_fracs(groups[idx], idx, target) + spec_fracs_from(groups, idx + 1, target)
    }
}

/// The weight fractions of a whole weekday series.
pub open spec fn spec_fracs(groups: Seq<Seq<DataPoint>>, target: int) -> Seq<Frac> {
    spec_fracs_from(groups, 0, target)
}

/// Weight order on fractions, by cross-multiplication.
pub open spec fn spec_le_frac(a: Frac, b: Frac) -> bool {
    a.n * b.q <= b.n * a.q
}

/// Strict weight order on fractions.
pub open spec fn spec_lt_frac(a: Frac, b: Frac) -> bool {
    a.n * b.q < b.n * a.q
}

/// The position of the lightest retained candidate; among equals, the
/// latest, so that earlier arrivals survive longer.
pub open spec fn spec_min_idx(s: Seq<Frac>) -> int
    decreases s.len(),
{
    if s.len() <= 1 {
        0
    } else {
        let r = spec_min_idx(s.drop_last());
        if spec_le_frac(s.last(), s[r]) {
            s.len() - 1
        } else {
            r
        }
    }
}

/// One selection step: keep the candidate while fewer than `k` are held,
/// otherwise replace the lightest retained one only when the newcomer is
/// strictly heavier, so the first-seen candidate wins ties.
pub open spec fn spec_select_step(acc: Seq<Frac>, x: Frac, k: nat) -> Seq<Frac> {
    if acc.len() < k {
        acc.push(x)
    } else if acc.len() == 0 {
        acc
    } else {
        let m = spec_min_idx(acc);
        if spec_lt_frac(acc[m], x) {
            acc.update(m, x)
        } else {
            acc
        }
    }
}

/// The k candidates retained after folding the whole series in order.
pub open spec fn spec_select(s: Seq<Frac>, k: nat) -> Seq<Frac>
    decreases s.len(),
{
    if s.len() == 0 {
        Seq::empty()
    } else {
        spec_select_step(spec_select(s.drop_last(), k), s.last(), k)
    }
}

/// The product of the selected denominators: the common denominator of the
/// weighted sums.
pub open spec fn spec_qden(s: Seq<Frac>) -> int
    decreases s.len(),
{
    if s.len() == 0 {
        1
    } else {
        s[0].q * spec_qden(s.drop_first())
    }
}

/// The numerator of the occupancy-weighted sum over the common
/// denominator.
pub open spec fn spec_anum(s: Seq<Frac>) -> int
    decreases s.len(),
{
    if s.len() == 0 {
        0
    } else {
        s[0].occ * s[0].n * spec_qden(s.drop_first()) + spec_anum(s.drop_first()) * s[0].q
    }
}

/// The numerator of the weight sum over the common denominator.
pub open spec fn spec_bnum(s: Seq<Frac>) -> int
    decreases s.len(),
{
    if s.len() == 0 {
        0
    } else {
        s[0].n * spec_qden(s.drop_first()) + spec_bnum(s.drop_first()) * s[0].q
    }
}

/// The forecast occupancy for one weekday series and target time: the
/// exact weighted average of the selected occupancies, truncated; zero
/// when nothing is selected.
pub open spec fn spec_predict(groups: Seq<Seq<DataPoint>>, target: int, k: nat) -> int {
    let sel = spec_select(spec_fracs(groups, target), k);
    if sel.len() == 0 {
        0
    } else {
        spec_anum(sel) / spec_bnum(sel)
    }
}

/// Structural bounds every weight fraction of a well-formed series obeys.
pub open spec fn spec_frac_ok(f: Frac) -> bool {
    &&& 1 <= f.n <= 0x20001
    &&& 1 <= f.q <= 0x100000000
    &&& 0 <= f.occ <= 0xFFFF
}

proof fn lemma_frac_of_ok(weeks: int, p: DataPoint, target: int)
    requires
        0 <= weeks < 0xFFFF,
        0 <= target < 0x10000,
    ensures
        spec_frac_ok(spec_frac_of(weeks, p, target)),
        spec_frac_of(weeks, p, target).occ == p.spec_occupancy(),
{
    lemma_point_ranges(p);
    let d = spec_abs_diff(p.spec_time(), target);
    assert(0 <= d < 0x10000);
    assert(1 <= (weeks + 1) * (d + 1) <= 0x100000000) by (nonlinear_arith)
        requires
            1 <= weeks + 1 <= 0xFFFF,
            1 <= d + 1 <= 0x10000,
    ;
}

proof fn lemma_fracs_from_ok(groups: Seq<Seq<DataPoint>>, idx: int, target: int, m: int)
    requires
        0 <= idx,
        groups.len() <= 0xFFFF,
        0 <= target < 0x10000,
        0 <= m,
        forall|g: int, j: int|
            0 <= g < groups.len() && 0 <= j < groups[g].len() ==> (#[trigger] groups[g][
            j]).spec_occupancy() <= m,
    ensures
        forall|j: int|
            0 <= j < spec_fracs_from(groups, idx, target).len() ==> spec_frac_ok(
                #[trigger] spec_fracs_from(groups, idx, target)[j],
            ) && spec_fracs_from(groups, idx, target)[j].occ <= m,
    decreases groups.len() - idx,
{
    if idx < groups.len() {
        lemma_fracs_from_ok(groups, idx + 1, target, m);
        let gf = spec_group_fracs(groups[idx], idx, target);
        assert forall|j: int| 0 <= j < gf.len() implies spec_frac_ok(#[trigger] gf[j]) && gf[j].occ
            <= m by {
            lemma_frac_of_ok(idx, groups[idx][j], target);
        }
        let whole = spec_fracs_from(groups, idx, target);
        let rest = spec_fracs_from(groups, idx + 1, target);
        assert forall|j: int| 0 <= j < whole.len() implies spec_frac_ok(#[trigger] whole[j])
            && whole[j].occ <= m by {
            if j < gf.len() {
                assert(whole[j] == gf[j]);
            } else {
                assert(whole[j] == rest[j - gf.len()]);
            }
        }
    }
}

proof fn lemma_min_idx_range(s: Seq<Frac>)
    requires
        s.len() >= 1,
    ensures
        0 <= spec_min_idx(s) < s.len(),
    decreases s.len(),
{
    if s.len() > 1 {
        lemma_min_idx_range(s.drop_last());
    }
}

/// The candidate a full selection gives up is a lightest one: every
/// retained candidate weighs at least as much as the one at the replaced
/// position.
pub proof fn lemma_min_idx_is_min(s: Seq<Frac>)
    requires
        s.len() >= 1,
        forall|j: int| 0 <= j < s.len() ==> (#[trigger] s[j]).q >= 1,
    ensures
        0 <= spec_min_idx(s) < s.len(),
        forall|j: int| 0 <= j < s.len() ==> spec_le_frac(s[spec_min_idx(s)], #[trigger] s[j]),
    decreases s.len(),
{
    lemma_min_idx_range(s);
    if s.len() > 1 {
        let t = s.drop_last();
        lemma_min_idx_is_min(t);
        let r = spec_min_idx(t);
        let m = spec_min_idx(s);
        assert(forall|j: int| 0 <= j < t.len() ==> t[j] == s[j]);
        if spec_le_frac(s.last(), s[r]) {
            assert(m == s.len() - 1);
            assert forall|j: int| 0 <= j < s.len() implies spec_le_frac(s[m], #[trigger] s[j]) by {
                if j < s.len() - 1 {
                    assert(spec_le_frac(s[r], s[j]));
                    lemma_le_frac_trans(s[m], s[r], s[j]);
                }
            }
        } else {
            assert(m == r);
            assert forall|j: int| 0 <= j < s.len() implies spec_le_frac(s[m], #[trigger] s[j]) by {
                if j == s.len() - 1 {
                    assert(!spec_le_frac(s[j], s[r]));
                    lemma_le_frac_total(s[j], s[r]);
                }
            }
        }
    }
}

proof fn lemma_le_frac_trans(a: Frac, b: Frac, c: Frac)
    requires
        spec_le_frac(a, b),
        spec_le_frac(b, c),
        a.q >= 1,
        b.q >= 1,
        c.q >= 1,
    ensures
        spec_le_frac(a, c),
{
    assert(a.n * c.q <= c.n * a.q) by (nonlinear_arith)
        requires
            a.n * b.q <= b.n * a.q,
            b.n * c.q <= c.n * b.q,
            a.q >= 1,
            b.q >= 1,
            c.q >= 1,
    ;
}

proof fn lemma_le_frac_total(a: Frac, b: Frac)
    requires
        !spec_le_frac(a, b),
    ensures
        spec_le_frac(b, a),
{
}

/// Exactly `k` candidates are retained, or all of them when the series
/// holds fewer than `k`.
pub proof fn lemma_select_len(s: Seq<Frac>, k: nat)
    ensures
        spec_select(s, k).len() == if s.len() < k {
            s.len()
        } else {
            k
        },
    decreases s.len(),
{
    if s.len() > 0 {
        lemma_select_len(s.drop_last(), k);
        let selp = spec_select(s.drop_last(), k);
        if selp.len() >= k && selp.len() > 0 {
            lemma_min_idx_range(selp);
        }
    }
}

proof fn lemma_select_from(s: Seq<Frac>, k: nat)
    ensures
        forall|j: int|
            0 <= j < spec_select(s, k).len() ==> s.contains(#[trigger] spec_select(s, k)[j]),
    decreases s.len(),
{
    if s.len() > 0 {
        let sp = s.drop_last();
        lemma_select_from(sp, k);
        let selp = spec_select(sp, k);
        let sel = spec_select(s, k);
        assert(s[s.len() - 1] == s.last());
        assert(s.contains(s.last()));
        assert forall|j: int| 0 <= j < selp.len() implies s.contains(#[trigger] selp[j]) by {
            let w = choose|i: int| 0 <= i < sp.len() && sp[i] == selp[j];
            assert(s[w] == selp[j]);
        }
        if selp.len() < k {
            assert(sel == selp.push(s.last()));
            assert forall|j: int| 0 <= j < sel.len() implies s.contains(#[trigger] sel[j]) by {
                if j < selp.len() {
                    assert(sel[j] == selp[j]);
                } else {
                    assert(sel[j] == s.last());
                }
            }
        } else if selp.len() == 0 {
            assert(sel == selp);
        } else {
            let m = spec_min_idx(selp);
            lemma_min_idx_range(selp);
            if spec_lt_frac(selp[m], s.last()) {
                assert(sel == selp.update(m, s.last()));
                assert forall|j: int| 0 <= j < sel.len() implies s.contains(#[trigger] sel[j]) by {
                    if j == m {
                        assert(sel[j] == s.last());
                    } else {
                        assert(sel[j] == selp[j]);
                    }
                }
            } else {
                assert(sel == selp);
            }
        }
    }
}

proof fn lemma_qden_pos(s: Seq<Frac>)
    requires
        forall|j: int| 0 <= j < s.len() ==> (#[trigger] s[j]).q >= 1,
    ensures
        spec_qden(s) >= 1,
    decreases s.len(),
{
    if s.len() > 0 {
        let t = s.drop_first();
        assert(forall|j: int| 0 <= j < t.len() ==> (#[trigger] t[j]).q >= 1) by {
            assert(forall|j: int| 0 <= j < t.len() ==> t[j] == s[j + 1]);
        }
        lemma_qden_pos(t);
        assert(s[0].q * spec_qden(t) >= 1) by (nonlinear_arith)
            requires
                s[0].q >= 1,
                spec_qden(t) >= 1,
        ;
    }
}

proof fn lemma_bnum_pos(s: Seq<Frac>)
    requires
        s.len() >= 1,
        forall|j: int| 0 <= j < s.len() ==> (#[trigger] s[j]).q >= 1 && s[j].n >= 1,
    ensures
        spec_bnum(s) >= 1,
    decreases s.len(),
{
    let t = s.drop_first();
    assert(forall|j: int| 0 <= j < t.len() ==> (#[trigger] t[j]).q >= 1 && t[j].n >= 1) by {
        assert(forall|j: int| 0 <= j < t.len() ==> t[j] == s[j + 1]);
    }
    lemma_qden_pos(t);
    if t.len() == 0 {
        assert(spec_bnum(t) == 0);
        assert(s[0].n * spec_qden(t) + 0 * s[0].q >= 1) by (nonlinear_arith)
            requires
                s[0].n >= 1,
                spec_qden(t) >= 1,
        ;
    } else {
        lemma_bnum_pos(t);
        assert(s[0].n * spec_qden(t) + spec_bnum(t) * s[0].q >= 1) by (nonlinear_arith)
            requires
                s[0].n >= 1,
                spec_qden(t) >= 1,
                spec_bnum(t) >= 1,
                s[0].q >= 1,
        ;
    }
}

proof fn lemma_anum_bound(s: Seq<Frac>, m: int)
    requires
        0 <= m,
        forall|j: int|
            0 <= j < s.len() ==> (#[trigger] s[j]).q >= 1 && s[j].n >= 1 && 0 <= s[j].occ <= m,
    ensures
        0 <= spec_anum(s) <= m * spec_bnum(s),
    decreases s.len(),
{
    if s.len() == 0 {
        assert(m * 0 == 0) by (nonlinear_arith);
    } else {
        let t = s.drop_first();
        assert(forall|j: int|
            0 <= j < t.len() ==> (#[trigger] t[j]).q >= 1 && t[j].n >= 1 && 0 <= t[j].occ <= m) by {
            assert(forall|j: int| 0 <= j < t.len() ==> t[j] == s[j + 1]);
        }
        lemma_anum_bound(t, m);
        lemma_qden_pos(t);
        if t.len() == 0 {
            assert(spec_bnum(t) == 0);
            assert(spec_anum(t) == 0);
        } else {
            lemma_bnum_pos(t);
        }
        let qd = spec_qden(t);
        let an = spec_anum(t);
        let bn = spec_bnum(t);
        assert(0 <= s[0].occ * s[0].n * qd + an * s[0].q) by (nonlinear_arith)
            requires
                s[0].occ >= 0,
                s[0].n >= 1,
                qd >= 1,
                an >= 0,
                s[0].q >= 1,
        ;
        assert(s[0].occ * s[0].n * qd + an * s[0].q <= m * (s[0].n * qd + bn * s[0].q))
            by (nonlinear_arith)
            requires
                0 <= s[0].occ <= m,
                s[0].n >= 1,
                qd >= 1,
                0 <= an <= m * bn,
                s[0].q >= 1,
                bn >= 0,
        ;
    }
}

/// One retained candidate, with its weight fraction in machine words.
#[derive(Clone, Copy)]
struct Sel {
    occ: u16,
    n: u64,
    q: u64,
}

/// The fraction a retained candidate stands for.
spec fn sel_frac(x: Sel) -> Frac {
    Frac { occ: x.occ as int, n: x.n as int, q: x.q as int }
}

/// The fractions of a retained run.
spec fn sels_fracs(s: Seq<Sel>) -> Seq<Frac> {
    s.map_values(|x: Sel| sel_frac(x))
}

/// Machine-word bounds kept by every retained candidate.
spec fn sel_ok(x: Sel) -> bool {
    &&& 1 <= x.n <= 0x20001
    &&& 1 <= x.q <= 0x100000000
}

fn le_sel(a: &Sel, b: &Sel) -> (r: bool)
    requires
        sel_ok(*a),
        sel_ok(*b),
    ensures
        r == spec_le_frac(sel_frac(*a), sel_frac(*b)),
{
    proof {
        assert(a.n * b.q <= 0x20001 * 0x100000000) by (nonlinear_arith)
            requires
                a.n <= 0x20001,
                b.q <= 0x100000000,
                a.n >= 0,
                b.q >= 0,
        ;
        assert(b.n * a.q <= 0x20001 * 0x100000000) by (nonlinear_arith)
            requires
                b.n <= 0x20001,
                a.q <= 0x100000000,
                b.n >= 0,
                a.q >= 0,
        ;
    }
    a.n * b.q <= b.n * a.q
}

fn lt_sel(a: &Sel, b: &Sel) -> (r: bool)
    requires
        sel_ok(*a),
        sel_ok(*b),
    ensures
        r == spec_lt_frac(sel_frac(*a), sel_frac(*b)),
{
    proof {
        assert(a.n * b.q <= 0x20001 * 0x100000000) by (nonlinear_arith)
            requires
                a.n <= 0x20001,
                b.q <= 0x100000000,
                a.n >= 0,
                b.q >= 0,
        ;
        assert(b.n * a.q <= 0x20001 * 0x100000000) by (nonlinear_arith)
            requires
                b.n <= 0x20001,
                a.q <= 0x100000000,
                b.n >= 0,
                a.q >= 0,
        ;
    }
    a.n * b.q < b.n * a.q
}

fn min_idx(sel: &Vec<Sel>) -> (r: usize)
    requires
        sel@.len() >= 1,
        forall|j: int| 0 <= j < sel@.len() ==> sel_ok(#[trigger] sel@[j]),
    ensures
        r == spec_min_idx(sels_fracs(sel@)),
        r < sel@.len(),
{
    let ghost fr = sels_fracs(sel@);
    let mut best: usize = 0;
    let mut i: usize = 1;
    proof {
        assert(fr.take(1) =~= seq![fr[0]]);
        assert(spec_min_idx(fr.take(1)) == 0);
    }
    while i < sel.len()
        invariant
            1 <= i <= sel@.len(),
            best < i,
            fr == sels_fracs(sel@),
            forall|j: int| 0 <= j < sel@.len() ==> sel_ok(#[trigger] sel@[j]),
            best == spec_min_idx(fr.take(i as int)),
        decreases sel@.len() - i,
    {
        let is_le = le_sel(&sel[i], &sel[best]);
        proof {
            let t = fr.take(i as int + 1);
            assert(t.drop_last() =~= fr.take(i as int));
            assert(t.last() == fr[i as int]);
            assert(t.len() == i + 1);
            assert(spec_min_idx(t) == if spec_le_frac(fr[i as int], fr[spec_min_idx(
                fr.take(i as int),
            )]) {
                i as int
            } else {
                spec_min_idx(fr.take(i as int))
            });
        }
        if is_le {
            best = i;
        }
        i = i + 1;
    }
    proof {
        assert(fr.take(sel@.len() as int) =~= fr);
    }
    best
}

fn select_step(sel: &mut Vec<Sel>, x: Sel, k: usize)
    requires
        sel_ok(x),
        forall|j: int| 0 <= j < old(sel)@.len() ==> sel_ok(#[trigger] old(sel)@[j]),
        old(sel)@.len() <= k,
    ensures
        sels_fracs(final(sel)@) == spec_select_step(sels_fracs(old(sel)@), sel_frac(x), k as nat),
        forall|j: int| 0 <= j < final(sel)@.len() ==> sel_ok(#[trigger] final(sel)@[j]),
        final(sel)@.len() <= k,
{
    let ghost before = sels_fracs(sel@);
    if sel.len() < k {
        sel.push(x);
        proof {
            assert(sels_fracs(sel@) =~= before.push(sel_frac(x)));
        }
    } else if sel.len() > 0 {
        let m = min_idx(sel);
        let heavier = lt_sel(&sel[m], &x);
        if heavier {
            sel.set(m, x);
            proof {
                assert(sels_fracs(sel@) =~= before.update(m as int, sel_frac(x)));
            }
        }
    }
}

proof fn lemma_fracs_take_snoc(s: Seq<Seq<DataPoint>>, idx: int, g: int, target: int)
    requires
        0 <= idx <= g < s.len(),
    ensures
        spec_fracs_from(s.take(g + 1), idx, target) == spec_fracs_from(s.take(g), idx, target)
            + spec_group_fracs(s[g], g, target),
    decreases g - idx,
{
    let a = s.take(g + 1);
    let b = s.take(g);
    if idx == g {
        assert(a[idx] == s[g]);
        assert(spec_fracs_from(a, idx + 1, target) =~= Seq::<Frac>::empty());
        assert(spec_fracs_from(b, idx, target) =~= Seq::<Frac>::empty());
        assert(spec_fracs_from(a, idx, target) =~= spec_group_fracs(s[g], g, target));
        assert(spec_fracs_from(b, idx, target) + spec_group_fracs(s[g], g, target)
            =~= spec_group_fracs(s[g], g, target));
    } else {
        lemma_fracs_take_snoc(s, idx + 1, g, target);
        assert(a[idx] == s[idx]);
        assert(b[idx] == s[idx]);
        assert(spec_fracs_from(a, idx, target) == spec_group_fracs(s[idx], idx, target)
            + spec_fracs_from(a, idx + 1, target));
        assert(spec_fracs_from(b, idx, target) == spec_group_fracs(s[idx], idx, target)
            + spec_fracs_from(b, idx + 1, target));
        assert(spec_group_fracs(s[idx], idx, target) + (spec_fracs_from(b, idx + 1, target)
            + spec_group_fracs(s[g], g, target)) =~= (spec_group_fracs(s[idx], idx, target)
            + spec_fracs_from(b, idx + 1, target)) + spec_group_fracs(s[g], g, target));
    }
}

/// The forecast stays within the occupancy range of its inputs: with every
/// occupancy in a weekday's series between 0 and 100, every predicted
/// value lies between 0 and 100, whatever `k` is.
pub proof fn lemma_predict_in_range(groups: Seq<Seq<DataPoint>>, target: int, k: nat)
    requires
        groups.len() <= 0xFFFF,
        0 <= target < 0x10000,
        forall|g: int, j: int|
            0 <= g < groups.len() && 0 <= j < groups[g].len() ==> (#[trigger] groups[g][
            j]).spec_occupancy() <= 100,
    ensures
        0 <= spec_predict(groups, target, k) <= 100,
{
    let fr = spec_fracs(groups, target);
    lemma_fracs_from_ok(groups, 0, target, 100);
    let sel = spec_select(fr, k);
    lemma_select_from(fr, k);
    assert(forall|j: int|
        0 <= j < sel.len() ==> (#[trigger] sel[j]).q >= 1 && sel[j].n >= 1 && 0 <= sel[j].occ
            <= 100) by {
        assert forall|j: int|
            0 <= j < sel.len() implies (#[trigger] sel[j]).q >= 1 && sel[j].n >= 1 && 0 <= sel[
        j].occ <= 100 by {
            let w = choose|i: int| 0 <= i < fr.len() && fr[i] == sel[j];
        }
    }
    if sel.len() == 0 {
    } else {
        lemma_anum_bound(sel, 100);
        lemma_bnum_pos(sel);
        let an = spec_anum(sel);
        let bn = spec_bnum(sel);
        lemma_div_pos_is_pos(an, bn);
        lemma_div_is_ordered(an, 100 * bn, bn);
        lemma_fundamental_div_mod_converse(100 * bn, bn, 100, 0);
    }
}

/// The k-nearest-neighbour regressor over one historical window.
pub struct Regressor {
    data: Data,
    k: usize,
}

impl Regressor {
    /// The per-weekday sample groups the regressor draws on.
    pub closed spec fn spec_groups(self) -> Seq<Seq<Seq<DataPoint>>> {
        self.data.spec_groups()
    }

    /// The number of neighbours retained.
    pub closed spec fn spec_k(self) -> nat {
        self.k as nat
    }

    /// Builds a regressor over a window, retaining `k` neighbours.
    pub fn new(data: Data, k: usize) -> (r: Regressor)
        ensures
            r.spec_groups() == data.spec_groups(),
            r.spec_k() == k,
    {
        Regressor { data, k }
    }

    /// Forecasts the occupancy for one weekday at one HHMM target time:
    /// the exact truncated weighted average of the k heaviest samples.
    pub fn predict_one(&self, weekday: usize, time: u16) -> (r: u16)
        requires
            weekday < 7,
        ensures
            r as int == spec_predict(self.spec_groups()[weekday as int], time as int, self.spec_k()),
    {
        let groups_all = self.data.get_data();
        let groups: &Vec<Vec<DataPoint>> = &groups_all[weekday];
        let ghost gm: Seq<Seq<DataPoint>> = groups@.map_values(|w: Vec<DataPoint>| w@);
        let ghost target: int = time as int;
        let k = self.k;
        proof {
            assert(crate::window::spec_groups_of(groups_all@)[weekday as int] == gm);
            assert(self.spec_groups()[weekday as int] == gm);
            assert(gm.len() == groups@.len());
            assert(groups@.len() <= 0xFFFF);
            assert(k as nat == self.spec_k());
        }
        let mut sel: Vec<Sel> = Vec::new();
        proof {
            assert(gm.take(0) =~= Seq::<Seq<DataPoint>>::empty());
            assert(spec_fracs(gm.take(0), target) =~= Seq::<Frac>::empty());
            assert(sels_fracs(sel@) =~= Seq::<Frac>::empty());
        }
        let mut g: usize = 0;
        while g < groups.len()
            invariant
                g <= groups@.len(),
                groups@.len() <= 0xFFFF,
                gm == groups@.map_values(|w: Vec<DataPoint>| w@),
                target == time as int,
                sels_fracs(sel@) == spec_select(spec_fracs(gm.take(g as int), target), k as nat),
                forall|j: int| 0 <= j < sel@.len() ==> sel_ok(#[trigger] sel@[j]),
                sel@.len() <= k,
            decreases groups@.len() - g,
        {
            let points: &Vec<DataPoint> = &groups[g];
            proof {
                assert(gm[g as int] == points@);
                assert(points@.take(0) =~= Seq::<DataPoint>::empty());
                assert(spec_group_fracs(points@.take(0), g as int, target) =~= Seq::<
                    Frac,
                >::empty());
                assert(spec_fracs(gm.take(g as int), target) + Seq::<Frac>::empty() =~= spec_fracs(
                    gm.take(g as int),
                    target,
                ));
            }
            let mut j: usize = 0;
            while j < points.len()
                invariant
                    j <= points@.len(),
                    g < groups@.len(),
                    groups@.len() <= 0xFFFF,
                    points@ == gm[g as int],
                    gm == groups@.map_values(|w: Vec<DataPoint>| w@),
                    target == time as int,
                    sels_fracs(sel@) == spec_select(
                        spec_fracs(gm.take(g as int), target) + spec_group_fracs(
                            points@.take(j as int),
                            g as int,
                            target,
                        ),
                        k as nat,
                    ),
                    forall|q: int| 0 <= q < sel@.len() ==> sel_ok(#[trigger] sel@[q]),
                    sel@.len() <= k,
                decreases points@.len() - j,
            {
                let p = &points[j];
                let pt: u16 = p.get_time();
                let d: u16 = if pt >= time {
                    pt - time
                } else {
                    time - pt
                };
                let u: u64 = g as u64 + 1;
                let v: u64 = d as u64 + 1;
                let n: u64 = u + v;
                proof {
                    assert(u * v <= 0x10000 * 0x10000) by (nonlinear_arith)
                        requires
                            0 <= u <= 0x10000,
                            0 <= v <= 0x10000,
                    ;
                    assert(u * v >= 1) by (nonlinear_arith)
                        requires
                            u >= 1,
                            v >= 1,
                    ;
                }
                let q: u64 = u * v;
                let occ: u16 = p.get_occupancy();
                let x = Sel { occ, n, q };
                proof {
                    assert(d as int == spec_abs_diff(points@[j as int].spec_time(), target));
                    assert(sel_frac(x) == spec_frac_of(g as int, points@[j as int], target));
                }
                select_step(&mut sel, x, k);
                proof {
                    let prefix = spec_fracs(gm.take(g as int), target) + spec_group_fracs(
                        points@.take(j as int),
                        g as int,
                        target,
                    );
                    let f = spec_frac_of(g as int, points@[j as int], target);
                    let prefix2 = spec_fracs(gm.take(g as int), target) + spec_group_fracs(
                        points@.take(j as int + 1),
                        g as int,
                        target,
                    );
                    assert(spec_group_fracs(points@.take(j as int + 1), g as int, target)
                        =~= spec_group_fracs(points@.take(j as int), g as int, target).push(f));
                    assert(prefix2 =~= prefix.push(f));
                    assert(prefix2.drop_last() =~= prefix);
                    assert(prefix2.last() == f);
                    assert(prefix2.len() > 0);
                    assert(spec_select(prefix2, k as nat) == spec_select_step(
                        spec_select(prefix, k as nat),
                        f,
                        k as nat,
                    ));
                }
                j = j + 1;
            }
            proof {
                assert(points@.take(points@.len() as int) =~= points@);
                if g < groups@.len() {
                    lemma_fracs_take_snoc(gm, 0, g as int, target);
                }
                assert(spec_group_fracs(points@, g as int, target) == spec_group_fracs(
                    gm[g as int],
                    g as int,
                    target,
                ));
            }
            g = g + 1;
        }
        proof {
            assert(gm.take(gm.len() as int) =~= gm);
        }
        let ghost fsel = sels_fracs(sel@);
        proof {
            assert(fsel == spec_select(spec_fracs(gm, target), k as nat));
        }
        if sel.len() == 0 {
            proof {
                assert(fsel.len() == 0);
                assert(spec_predict(gm, target, k as nat) == 0);
            }
            return 0;
        }
        proof {
            assert(forall|j: int|
                0 <= j < fsel.len() ==> (#[trigger] fsel[j]).q >= 1 && fsel[j].n >= 1 && 0 <= fsel[
                j].occ <= 0xFFFF);
            lemma_anum_bound(fsel, 0xFFFF);
            lemma_bnum_pos(fsel);
        }
        let ghost an = spec_anum(fsel);
        let ghost bnv = spec_bnum(fsel);
        let mut nn = bn_zero();
        let mut dd = bn_zero();
        let mut qq = bn_one();
        let mut idx: usize = sel.len();
        proof {
            assert(fsel.skip(idx as int) =~= Seq::<Frac>::empty());
        }
        while idx > 0
            invariant
                idx <= sel@.len(),
                fsel == sels_fracs(sel@),
                forall|j: int| 0 <= j < sel@.len() ==> sel_ok(#[trigger] sel@[j]),
                spec_val(nn@) == spec_anum(fsel.skip(idx as int)),
                spec_val(dd@) == spec_bnum(fsel.skip(idx as int)),
                spec_val(qq@) == spec_qden(fsel.skip(idx as int)),
            decreases idx,
        {
            idx = idx - 1;
            let xo: u16 = sel[idx].occ;
            let xn: u64 = sel[idx].n;
            let xq: u64 = sel[idx].q;
            proof {
                assert((xo as int) * (xn as int) <= 0xFFFF * 0x20001) by (nonlinear_arith)
                    requires
                        0 <= xo <= 0xFFFFu16,
                        0 <= xn <= 0x20001u64,
                ;
            }
            let t1 = bn_mul_small(&qq, (xo as u64) * xn);
            let t2 = bn_mul_small(&nn, xq);
            let new_nn = bn_add(&t1, &t2);
            let t3 = bn_mul_small(&qq, xn);
            let t4 = bn_mul_small(&dd, xq);
            let new_dd = bn_add(&t3, &t4);
            let new_qq = bn_mul_small(&qq, xq);
            proof {
                let suf = fsel.skip(idx as int);
                let tail = fsel.skip(idx as int + 1);
                assert(suf.drop_first() =~= tail);
                assert(suf[0] == fsel[idx as int]);
                assert(suf[0] == sel_frac(sel@[idx as int]));
                let qd = spec_qden(tail);
                assert(qd * (xq as int) == (xq as int) * qd) by (nonlinear_arith);
                assert(spec_val(new_nn@) == qd * ((xo as int) * (xn as int)) + spec_anum(tail) * xq);
                assert(qd * ((xo as int) * (xn as int)) == (xo as int) * (xn as int) * qd)
                    by (nonlinear_arith);
                assert(spec_anum(suf) == suf[0].occ * suf[0].n * qd + spec_anum(tail) * suf[0].q);
                assert(spec_val(new_dd@) == qd * (xn as int) + spec_bnum(tail) * xq);
                assert(qd * (xn as int) == (xn as int) * qd) by (nonlinear_arith);
                assert(spec_bnum(suf) == suf[0].n * qd + spec_bnum(tail) * suf[0].q);
            }
            nn = new_nn;
            dd = new_dd;
            qq = new_qq;
        }
        proof {
            assert(fsel.skip(0) =~= fsel);
            assert(spec_val(nn@) == an);
            assert(spec_val(dd@) == bnv);
        }
        let mut r: u32 = 0;
        loop
            invariant
                r <= 0xFFFF,
                (r as int) * bnv <= an,
                spec_val(nn@) == an,
                spec_val(dd@) == bnv,
                bnv >= 1,
                0 <= an <= 0xFFFF * bnv,
            ensures
                (r as int) * bnv <= an,
                an < ((r as int) + 1) * bnv,
            decreases 0x10000 - r,
        {
            proof {
                assert(0 * bnv == 0) by (nonlinear_arith);
            }
            let cand = bn_mul_small(&dd, (r as u64) + 1);
            proof {
                assert(spec_val(cand@) == bnv * ((r as int) + 1));
                assert(bnv * ((r as int) + 1) == ((r as int) + 1) * bnv) by (nonlinear_arith);
            }
            let le = bn_le(&cand, &nn);
            if !le {
                break ;
            }
            proof {
                assert(((r as int) + 1) <= 0xFFFF) by (nonlinear_arith)
                    requires
                        ((r as int) + 1) * bnv <= an,
                        an <= 0xFFFF * bnv,
                        bnv >= 1,
                ;
            }
            r = r + 1;
        }
        proof {
            assert(((r as int) + 1) * bnv == (r as int) * bnv + bnv) by (nonlinear_arith);
            assert(0 <= an - (r as int) * bnv < bnv);
            lemma_fundamental_div_mod_converse(an, bnv, r as int, an - (r as int) * bnv);
            assert(an / bnv == r as int);
            assert(spec_predict(gm, target, k as nat) == r as int);
        }
        r as u16
    }
}

/// The forecast points for a span of `steps` grid instants from `start` at
/// `f`-minute spacing in HHMM arithmetic: one point per instant whose
/// minute component stays below 60, holding the predicted occupancy for
/// its time.
pub open spec fn spec_range_points(
    groups: Seq<Seq<DataPoint>>,
    start: int,
    steps: int,
    f: int,
    k: nat,
) -> Seq<DataPoint>
    decreases steps,
{
    if steps <= 0 {
        Seq::empty()
    } else {
        let prev = spec_range_points(groups, start, steps - 1, f, k);
        let t = start + (steps - 1) * f;
        if t % 100 < 60 {
            prev.push(spec_point(t, spec_predict(groups, t, k)))
        } else {
            prev
        }
    }
}

/// No forecast point carries a minute component of 60 or more, and every
/// forecast time sits on the grid `start, start + f, start + 2f, ...`.
pub proof fn lemma_range_times(groups: Seq<Seq<DataPoint>>, start: int, steps: int, f: int, k: nat)
    requires
        0 <= start,
        1 <= f,
        start + (steps - 1) * f < 0x10000,
    ensures
        forall|j: int|
            0 <= j < spec_range_points(groups, start, steps, f, k).len() ==> (
            #[trigger] spec_range_points(groups, start, steps, f, k)[j]).spec_time() % 100 <= 59,
        forall|j: int|
            0 <= j < spec_range_points(groups, start, steps, f, k).len() ==> (exists|i: int|
                0 <= i < steps && (#[trigger] spec_range_points(groups, start, steps, f, k)[
                j]).spec_time() == start + #[trigger] (i * f)),
    decreases steps,
{
    if steps <= 0 {
    } else {
        assert((steps - 2) * f <= (steps - 1) * f) by (nonlinear_arith)
            requires
                f >= 0,
        ;
        lemma_range_times(groups, start, steps - 1, f, k);
        let whole = spec_range_points(groups, start, steps, f, k);
        let prev = spec_range_points(groups, start, steps - 1, f, k);
        let t = start + (steps - 1) * f;
        assert((steps - 1) * f >= 0) by (nonlinear_arith)
            requires
                steps - 1 >= 0,
                f >= 0,
        ;
        if t % 100 < 60 {
            crate::window::lemma_spec_point_time(t, spec_predict(groups, t, k));
            assert forall|j: int| 0 <= j < whole.len() implies (#[trigger] whole[j]).spec_time()
                % 100 <= 59 by {
                if j < prev.len() {
                    assert(whole[j] == prev[j]);
                } else {
                    assert(whole[j].spec_time() == t);
                }
            }
            assert forall|j: int| 0 <= j < whole.len() implies (exists|i: int|
                0 <= i < steps && (#[trigger] whole[j]).spec_time() == start + #[trigger] (i
                    * f)) by {
                if j < prev.len() {
                    assert(whole[j] == prev[j]);
                    let w = choose|i: int|
                        0 <= i < steps - 1 && prev[j].spec_time() == start + #[trigger] (i * f);
                    assert(0 <= w < steps && whole[j].spec_time() == start + w * f);
                } else {
                    assert(whole[j].spec_time() == start + (steps - 1) * f);
                }
            }
        } else {
            assert(whole == prev);
        }
    }
}

impl Regressor {
    /// Forecast points for one weekday from `start` to `end` inclusive at
    /// `frequency` HHMM steps, skipping any generated time whose minute
    /// component would reach 60 under the HHMM integer encoding.
    pub fn predict_range(&self, start: u16, end: u16, frequency: u16, week_day: usize) -> (r: Vec<
        DataPoint,
    >)
        requires
            week_day < 7,
            start <= end,
            frequency >= 1,
        ensures
            r@ == spec_range_points(
                self.spec_groups()[week_day as int],
                start as int,
                (end - start) as int / frequency as int + 1,
                frequency as int,
                self.spec_k(),
            ),
    {
        let item_count: u16 = (end - start) / frequency;
        let ghost gm = self.spec_groups()[week_day as int];
        let ghost fr: int = frequency as int;
        let mut result: Vec<DataPoint> = Vec::new();
        let mut i: u32 = 0;
        proof {
            lemma_fundamental_div_mod((end - start) as int, fr);
        }
        while i <= item_count as u32
            invariant
                i <= item_count as u32 + 1,
                week_day < 7,
                start <= end,
                frequency >= 1,
                fr == frequency as int,
                item_count == (end - start) as int / fr,
                (item_count as int) * fr <= (end - start) as int,
                gm == self.spec_groups()[week_day as int],
                result@ == spec_range_points(gm, start as int, i as int, fr, self.spec_k()),
            decreases item_count as int + 1 - i,
        {
            proof {
                assert((i as int) * fr <= (item_count as int) * fr) by (nonlinear_arith)
                    requires
                        i as int <= item_count as int,
                        fr >= 0,
                ;
            }
            let time32: u32 = start as u32 + i * (frequency as u32);
            let time: u16 = time32 as u16;
            let ghost t: int = start as int + (i as int) * fr;
            proof {
                assert(time as int == t);
            }
            if time % 100 < 60 {
                let occ = self.predict_one(week_day, time);
                result.push(DataPoint::new(time, occ));
                proof {
                    let prev = spec_range_points(gm, start as int, i as int, fr, self.spec_k());
                    assert(spec_range_points(gm, start as int, i as int + 1, fr, self.spec_k())
                        == prev.push(spec_point(t, spec_predict(gm, t, self.spec_k()))));
                    assert(result@ =~= prev.push(spec_point(t, spec_predict(gm, t, self.spec_k()))));
                }
            } else {
                proof {
                    assert(spec_range_points(gm, start as int, i as int + 1, fr, self.spec_k())
                        == spec_range_points(gm, start as int, i as int, fr, self.spec_k()));
                }
            }
            i = i + 1;
        }
        result
    }
}

impl Regressor {
    /// The forecast curves for a whole week, one entry per weekday index:
    /// the curve over the day's opening hours at `frequency` HHMM steps
    /// for every open day whose window does not wrap past midnight, and
    /// nothing for the others.
    pub fn predict_week(&self, schedule: &Schedule, frequency: u16) -> (r: Vec<
        Option<Vec<DataPoint>>,
    >)
        requires
            frequency >= 1,
        ensures
            r@.len() == 7,
            forall|wd: int|
                0 <= wd < 7 ==> (#[trigger] r@[wd]) is Some == day_in_range(
                    schedule.spec_timings()[wd],
                ),
            forall|wd: int|
                0 <= wd < 7 && day_in_range(schedule.spec_timings()[wd]) ==> (match r@[wd] {
                    Some(curve) => curve@ == spec_range_points(
                        self.spec_groups()[wd],
                        spec_hhmm(schedule.spec_timings()[wd].spec_opening().unwrap()),
                        (spec_hhmm(schedule.spec_timings()[wd].spec_closing().unwrap()) - spec_hhmm(
                            schedule.spec_timings()[wd].spec_opening().unwrap(),
                        )) / (frequency as int) + 1,
                        frequency as int,
                        self.spec_k(),
                    ),
                    None => false,
                }),
    {
        let mut out: Vec<Option<Vec<DataPoint>>> = Vec::new();
        let mut wd: usize = 0;
        while wd < 7
            invariant
                wd <= 7,
                frequency >= 1,
                out@.len() == wd,
                forall|i: int|
                    0 <= i < wd ==> (#[trigger] out@[i]) is Some == day_in_range(
                        schedule.spec_timings()[i],
                    ),
                forall|i: int|
                    0 <= i < wd && day_in_range(schedule.spec_timings()[i]) ==> (match out@[i] {
                        Some(curve) => curve@ == spec_range_points(
                            self.spec_groups()[i],
                            spec_hhmm(schedule.spec_timings()[i].spec_opening().unwrap()),
                            (spec_hhmm(schedule.spec_timings()[i].spec_closing().unwrap())
                                - spec_hhmm(
                                schedule.spec_timings()[i].spec_opening().unwrap(),
                            )) / (frequency as int) + 1,
                            frequency as int,
                            self.spec_k(),
                        ),
                        None => false,
                    }),
            decreases 7 - wd,
        {
            let timing = schedule.get_timings_from_weekday(crate::calendar::get_weekday(wd));
            let entry: Option<Vec<DataPoint>> = match (timing.get_opening(), timing.get_closing()) {
                (Some(opening), Some(closing)) => {
                    let start: u16 = opening.hhmm();
                    let end: u16 = closing.hhmm();
                    if start <= end {
                        Some(self.predict_range(start, end, frequency, wd))
                    } else {
                        None
                    }
                },
                _ => None,
            };
            out.push(entry);
            wd = wd + 1;
        }
        out
    }
}

/// Whether a day's timings admit a forecast curve: open, with an opening
/// HHMM no later than the closing HHMM.
pub open spec fn day_in_range(t: Timing) -> bool {
    &&& t.spec_open()
    &&& t.spec_opening() is Some
    &&& t.spec_closing() is Some
    &&& spec_hhmm(t.spec_opening().unwrap()) <= spec_hhmm(t.spec_closing().unwrap())
}

} // verus!
