//! Unbounded natural numbers over 64-bit limbs, little-endian.
//!
//! The predictor's weighted average is an exact rational computation whose
//! intermediate products outgrow any fixed-width integer once enough
//! neighbours are selected, so the few operations it needs are verified
//! here: multiply by a machine word, add, and compare.

use vstd::arithmetic::div_mod::lemma_fundamental_div_mod;
use vstd::prelude::*;

verus! {

/// The limb base, two to the sixty-fourth power.
pub open spec fn spec_base() -> int {
    0x10000000000000000
}

/// The value of a little-endian limb sequence.
pub open spec fn spec_val(s: Seq<u64>) -> int
    decreases s.len(),
{
    if s.len() == 0 {
        0
    } else {
        s[0] + spec_base() * spec_val(s.drop_first())
    }
}

/// The limb base raised to a power.
pub open spec fn spec_base_pow(n: nat) -> int
    decreases n,
{
    if n == 0 {
        1
    } else {
        spec_base() * spec_base_pow((n - 1) as nat)
    }
}

/// The limb at an index, reading absent positions as zero.
pub open spec fn spec_limb(s: Seq<u64>, i: int) -> int {
    if 0 <= i < s.len() {
        s[i] as int
    } else {
        0
    }
}

/// The value of the limbs in positions `i` up to `n`, weighted from one.
pub open spec fn spec_val_range(s: Seq<u64>, i: int, n: int) -> int
    decreases n - i,
{
    if i >= n {
        0
    } else {
        spec_limb(s, i) + spec_base() * spec_val_range(s, i + 1, n)
    }
}

proof fn lemma_base_pow_pos(n: nat)
    ensures
        spec_base_pow(n) >= 1,
    decreases n,
{
    if n > 0 {
        lemma_base_pow_pos((n - 1) as nat);
    }
}

proof fn lemma_base_pow_mul(i: nat)
    requires
        i >= 1,
    ensures
        spec_base_pow((i - 1) as nat) * spec_base() == spec_base_pow(i),
    decreases i,
{
    if i == 1 {
        assert(spec_base_pow(0) == 1);
    } else {
        lemma_base_pow_mul((i - 1) as nat);
        let pm2 = spec_base_pow((i - 2) as nat);
        assert(spec_base_pow((i - 1) as nat) == spec_base() * pm2);
        assert((spec_base() * pm2) * spec_base() == spec_base() * (pm2 * spec_base()))
            by (nonlinear_arith);
    }
}

proof fn lemma_val_push(s: Seq<u64>, x: u64)
    ensures
        spec_val(s.push(x)) == spec_val(s) + x * spec_base_pow(s.len()),
    decreases s.len(),
{
    if s.len() == 0 {
        assert(s.push(x).drop_first() =~= Seq::<u64>::empty());
        assert(spec_base_pow(0) == 1);
        assert(s.push(x)[0] == x);
        assert(spec_val(Seq::<u64>::empty()) == 0);
        assert(spec_base() * 0 == 0) by (nonlinear_arith);
        assert(spec_val(s.push(x)) == x);
    } else {
        let t = s.drop_first();
        lemma_val_push(t, x);
        assert(s.push(x).drop_first() =~= t.push(x));
        assert(s.push(x)[0] == s[0]);
        assert(spec_val(s.push(x)) == s[0] + spec_base() * spec_val(t.push(x)));
        assert(spec_base() * (spec_val(t) + x * spec_base_pow(t.len())) == spec_base() * spec_val(
            t,
        ) + x * (spec_base() * spec_base_pow(t.len()))) by (nonlinear_arith);
        assert(spec_base() * spec_base_pow(t.len()) == spec_base_pow(s.len())) by {
            lemma_base_pow_mul(s.len());
            assert(spec_base_pow(t.len()) * spec_base() == spec_base() * spec_base_pow(t.len()))
                by (nonlinear_arith);
        }
    }
}

proof fn lemma_val_range_zero(s: Seq<u64>, i: int, n: int)
    requires
        s.len() <= i,
    ensures
        spec_val_range(s, i, n) == 0,
    decreases n - i,
{
    if i < n {
        lemma_val_range_zero(s, i + 1, n);
    }
}

proof fn lemma_val_range_shift(s: Seq<u64>, i: int, n: int)
    requires
        1 <= i,
        s.len() >= 1,
    ensures
        spec_val_range(s, i, n) == spec_val_range(s.drop_first(), i - 1, n - 1),
    decreases n - i,
{
    if i < n {
        lemma_val_range_shift(s, i + 1, n);
        assert(spec_limb(s, i) == spec_limb(s.drop_first(), i - 1));
    }
}

proof fn lemma_val_range_is_val(s: Seq<u64>, n: int)
    requires
        s.len() <= n,
    ensures
        spec_val_range(s, 0, n) == spec_val(s),
    decreases s.len(),
{
    if s.len() == 0 {
        lemma_val_range_zero(s, 0, n);
    } else {
        lemma_val_range_shift(s, 1, n);
        lemma_val_range_is_val(s.drop_first(), n - 1);
    }
}

proof fn lemma_val_range_split(s: Seq<u64>, i: int, n: int)
    requires
        0 <= i <= n,
    ensures
        spec_val_range(s, 0, n) == spec_val_range(s, 0, i) + spec_base_pow(i as nat)
            * spec_val_range(s, i, n),
    decreases i,
{
    if i == 0 {
        assert(spec_base_pow(0) == 1);
        assert(spec_val_range(s, 0, 0) == 0);
        assert(1 * spec_val_range(s, 0, n) == spec_val_range(s, 0, n)) by (nonlinear_arith);
    } else {
        lemma_val_range_split(s, i - 1, n);
        lemma_val_range_split(s, i - 1, i);
        let p = spec_base_pow((i - 1) as nat);
        let a = spec_limb(s, i - 1);
        let u = spec_val_range(s, i, n);
        assert(spec_val_range(s, i - 1, n) == a + spec_base() * u);
        assert(spec_val_range(s, i - 1, i) == a + spec_base() * spec_val_range(s, i, i));
        assert(spec_val_range(s, i, i) == 0);
        assert(spec_base() * 0 == 0) by (nonlinear_arith);
        // val(0..n) == val(0..i-1) + p * (a + B*u)
        //           == (val(0..i-1) + p*a) + (p*B)*u == val(0..i) + pow(i)*u
        assert(p * (a + spec_base() * u) == p * a + (p * spec_base()) * u) by (nonlinear_arith);
        assert(p * spec_base() == spec_base_pow(i as nat)) by {
            lemma_base_pow_mul(i as nat);
        }
    }
}

proof fn lemma_val_range_bound_from(s: Seq<u64>, i: int, n: int)
    requires
        0 <= i <= n,
    ensures
        0 <= spec_val_range(s, i, n) < spec_base_pow((n - i) as nat),
    decreases n - i,
{
    if i == n {
        assert(spec_base_pow(0) == 1);
    } else {
        lemma_val_range_bound_from(s, i + 1, n);
        let u = spec_val_range(s, i + 1, n);
        let p = spec_base_pow((n - i - 1) as nat);
        let a = spec_limb(s, i);
        assert(0 <= a < spec_base());
        assert(spec_base() * p == spec_base_pow((n - i) as nat)) by {
            lemma_base_pow_mul((n - i) as nat);
            assert(spec_base_pow((n - i - 1) as nat) * spec_base() == spec_base() * spec_base_pow((
            n - i - 1) as nat)) by (nonlinear_arith);
        }
        assert(a + spec_base() * u < spec_base() * p) by (nonlinear_arith)
            requires
                0 <= a < spec_base(),
                0 <= u <= p - 1,
                p >= 1,
        ;
        assert(a + spec_base() * u >= 0) by (nonlinear_arith)
            requires
                a >= 0,
                u >= 0,
        ;
    }
}

proof fn lemma_val_range_eq(a: Seq<u64>, b: Seq<u64>, i: int, n: int)
    requires
        0 <= i <= n,
        forall|j: int| i <= j < n ==> spec_limb(a, j) == spec_limb(b, j),
    ensures
        spec_val_range(a, i, n) == spec_val_range(b, i, n),
    decreases n - i,
{
    if i < n {
        lemma_val_range_eq(a, b, i + 1, n);
    }
}

proof fn lemma_le_from_diff(a: Seq<u64>, b: Seq<u64>, i: int, n: int)
    requires
        0 <= i < n,
        a.len() <= n,
        b.len() <= n,
        spec_limb(a, i) != spec_limb(b, i),
        forall|j: int| i < j < n ==> spec_limb(a, j) == spec_limb(b, j),
    ensures
        spec_limb(a, i) < spec_limb(b, i) <==> spec_val(a) <= spec_val(b),
{
    lemma_val_range_is_val(a, n);
    lemma_val_range_is_val(b, n);
    lemma_val_range_split(a, i, n);
    lemma_val_range_split(b, i, n);
    lemma_val_range_eq(a, b, i + 1, n);
    let p = spec_base_pow(i as nat);
    let up = spec_val_range(a, i + 1, n);
    assert(spec_val_range(b, i + 1, n) == up);
    let la = spec_val_range(a, 0, i);
    let lb = spec_val_range(b, 0, i);
    lemma_val_range_bound_from(a, 0, i);
    lemma_val_range_bound_from(b, 0, i);
    lemma_base_pow_pos(i as nat);
    let ha = spec_limb(a, i);
    let hb = spec_limb(b, i);
    assert(spec_val_range(a, i, n) == ha + spec_base() * up);
    assert(spec_val_range(b, i, n) == hb + spec_base() * up);
    if ha < hb {
        assert(la + p * (ha + spec_base() * up) < lb + p * (hb + spec_base() * up))
            by (nonlinear_arith)
            requires
                0 <= la < p,
                lb >= 0,
                p >= 1,
                ha + 1 <= hb,
        ;
    } else {
        assert(lb + p * (hb + spec_base() * up) < la + p * (ha + spec_base() * up))
            by (nonlinear_arith)
            requires
                0 <= lb < p,
                la >= 0,
                p >= 1,
                hb + 1 <= ha,
        ;
    }
}

/// Multiplies a limb number by a machine word.
pub fn bn_mul_small(a: &Vec<u64>, m: u64) -> (out: Vec<u64>)
    ensures
        spec_val(out@) == spec_val(a@) * m,
{
    let mut out: Vec<u64> = Vec::new();
    let mut carry: u64 = 0;
    let mut i: usize = 0;
    proof {
        assert(a@.take(0) =~= Seq::<u64>::empty());
        assert(spec_base_pow(0) == 1);
    }
    while i < a.len()
        invariant
            i <= a@.len(),
            out@.len() == i,
            spec_val(out@) + carry * spec_base_pow(i as nat) == spec_val(a@.take(i as int)) * m,
        decreases a@.len() - i,
    {
        let ai: u64 = a[i];
        proof {
            assert((ai as int) * (m as int) + (carry as int) < 0x100000000000000000000000000000000)
                by (nonlinear_arith)
                requires
                    ai <= 0xFFFFFFFFFFFFFFFFu64,
                    m <= 0xFFFFFFFFFFFFFFFFu64,
                    carry <= 0xFFFFFFFFFFFFFFFFu64,
            ;
        }
        let t: u128 = (ai as u128) * (m as u128) + (carry as u128);
        let low: u64 = (t % 0x10000000000000000) as u64;
        let new_carry: u64 = (t / 0x10000000000000000) as u64;
        proof {
            let ti = t as int;
            let c0 = carry as int;
            assert(ti == (ai as int) * (m as int) + c0);
            lemma_fundamental_div_mod(ti, 0x10000000000000000);
            assert(low + spec_base() * new_carry == ti);
            lemma_val_push(out@, low);
            let p = spec_base_pow(i as nat);
            lemma_base_pow_pos(i as nat);
            assert(spec_base() * p == spec_base_pow((i + 1) as nat)) by {
                lemma_base_pow_mul((i + 1) as nat);
                assert(spec_base_pow(i as nat) * spec_base() == spec_base() * spec_base_pow(
                    i as nat,
                )) by (nonlinear_arith);
            }
            assert(a@.take(i as int + 1) =~= a@.take(i as int).push(a@[i as int]));
            lemma_val_push(a@.take(i as int), a@[i as int]);
            // (low + B*carry')*p == ti*p, and the invariant then shifts by one limb.
            assert((low + spec_base() * new_carry) * p == low * p + new_carry * (spec_base() * p))
                by (nonlinear_arith);
            assert(ti * p == ((ai as int) * (m as int)) * p + c0 * p) by (nonlinear_arith)
                requires
                    ti == (ai as int) * (m as int) + c0,
            ;
            assert((spec_val(a@.take(i as int)) + (ai as int) * p) * m == spec_val(
                a@.take(i as int),
            ) * m + ((ai as int) * (m as int)) * p) by (nonlinear_arith);
        }
        out.push(low);
        carry = new_carry;
        i = i + 1;
    }
    proof {
        assert(a@.take(a@.len() as int) =~= a@);
    }
    if carry > 0 {
        proof {
            lemma_val_push(out@, carry);
        }
        out.push(carry);
    }
    out
}

/// Adds two limb numbers.
pub fn bn_add(a: &Vec<u64>, b: &Vec<u64>) -> (out: Vec<u64>)
    ensures
        spec_val(out@) == spec_val(a@) + spec_val(b@),
{
    let alen = a.len();
    let blen = b.len();
    let n = if alen > blen {
        alen
    } else {
        blen
    };
    let mut out: Vec<u64> = Vec::new();
    let mut carry: u64 = 0;
    let mut i: usize = 0;
    proof {
        assert(a@.take(0) =~= Seq::<u64>::empty());
        assert(b@.take(0) =~= Seq::<u64>::empty());
        assert(spec_base_pow(0) == 1);
    }
    while i < n
        invariant
            i <= n,
            alen == a@.len(),
            blen == b@.len(),
            n == if alen > blen {
                alen as int
            } else {
                blen as int
            },
            carry <= 1,
            out@.len() == i,
            spec_val(out@) + carry * spec_base_pow(i as nat) == spec_val(
                a@.take(
                    if i < alen {
                        i as int
                    } else {
                        alen as int
                    },
                ),
            ) + spec_val(
                b@.take(
                    if i < blen {
                        i as int
                    } else {
                        blen as int
                    },
                ),
            ),
        decreases n - i,
    {
        let av: u64 = if i < alen {
            a[i]
        } else {
            0
        };
        let bv: u64 = if i < blen {
            b[i]
        } else {
            0
        };
        let t: u128 = (av as u128) + (bv as u128) + (carry as u128);
        let low: u64 = (t % 0x10000000000000000) as u64;
        let new_carry: u64 = (t / 0x10000000000000000) as u64;
        proof {
            let ti = t as int;
            lemma_fundamental_div_mod(ti, 0x10000000000000000);
            assert(low + spec_base() * new_carry == ti);
            assert(new_carry <= 1);
            lemma_val_push(out@, low);
            let p = spec_base_pow(i as nat);
            lemma_base_pow_pos(i as nat);
            assert(spec_base() * p == spec_base_pow((i + 1) as nat)) by {
                lemma_base_pow_mul((i + 1) as nat);
                assert(spec_base_pow(i as nat) * spec_base() == spec_base() * spec_base_pow(
                    i as nat,
                )) by (nonlinear_arith);
            }
            assert((low + spec_base() * new_carry) * p == low * p + new_carry * (spec_base() * p))
                by (nonlinear_arith);
            assert(ti * p == (av as int) * p + (bv as int) * p + (carry as int) * p)
                by (nonlinear_arith)
                requires
                    ti == av + bv + carry,
            ;
            if i < alen {
                assert(a@.take(i as int + 1) =~= a@.take(i as int).push(a@[i as int]));
                lemma_val_push(a@.take(i as int), a@[i as int]);
            } else {
                assert((av as int) * p == 0) by (nonlinear_arith)
                    requires
                        av == 0,
                ;
            }
            if i < blen {
                assert(b@.take(i as int + 1) =~= b@.take(i as int).push(b@[i as int]));
                lemma_val_push(b@.take(i as int), b@[i as int]);
            } else {
                assert((bv as int) * p == 0) by (nonlinear_arith)
                    requires
                        bv == 0,
                ;
            }
        }
        out.push(low);
        carry = new_carry;
        i = i + 1;
    }
    proof {
        assert(a@.take(alen as int) =~= a@);
        assert(b@.take(blen as int) =~= b@);
    }
    if carry > 0 {
        proof {
            lemma_val_push(out@, carry);
        }
        out.push(carry);
    }
    out
}

/// Whether the first limb number is at most the second.
pub fn bn_le(a: &Vec<u64>, b: &Vec<u64>) -> (r: bool)
    ensures
        r == (spec_val(a@) <= spec_val(b@)),
{
    let alen = a.len();
    let blen = b.len();
    let n = if alen > blen {
        alen
    } else {
        blen
    };
    let mut i: usize = n;
    let mut result: bool = true;
    let mut decided: bool = false;
    while i > 0
        invariant_except_break
            !decided,
            forall|j: int| i <= j < n ==> spec_limb(a@, j) == spec_limb(b@, j),
        invariant
            i <= n,
            alen == a@.len(),
            blen == b@.len(),
            n == (if alen > blen {
                alen as int
            } else {
                blen as int
            }),
        ensures
            decided ==> result == (spec_val(a@) <= spec_val(b@)),
            !decided ==> (i == 0 && forall|j: int|
                0 <= j < n ==> spec_limb(a@, j) == spec_limb(b@, j)),
        decreases i,
    {
        i = i - 1;
        let av: u64 = if i < alen {
            a[i]
        } else {
            0
        };
        let bv: u64 = if i < blen {
            b[i]
        } else {
            0
        };
        if av != bv {
            proof {
                lemma_le_from_diff(a@, b@, i as int, n as int);
            }
            result = av < bv;
            decided = true;
            break ;
        }
    }
    if decided {
        result
    } else {
        proof {
            lemma_val_range_is_val(a@, n as int);
            lemma_val_range_is_val(b@, n as int);
            lemma_val_range_eq(a@, b@, 0, n as int);
        }
        true
    }
}

/// The limb number holding one.
pub fn bn_one() -> (out: Vec<u64>)
    ensures
        spec_val(out@) == 1,
{
    let mut out: Vec<u64> = Vec::new();
    out.push(1u64);
    proof {
        assert(out@.len() == 1);
        assert(out@[0] == 1u64);
        assert(out@.drop_first() =~= Seq::<u64>::empty());
        assert(spec_val(Seq::<u64>::empty()) == 0);
        assert(spec_base() * 0 == 0) by (nonlinear_arith);
    }
    out
}

/// The limb number holding zero.
pub fn bn_zero() -> (out: Vec<u64>)
    ensures
        spec_val(out@) == 0,
{
    Vec::new()
}

} // verus!
