//! The boundary to serde_json.
//!
//! The remote store serves JSON text. Decoding it is split so that the
//! semantics stays stated: two trusted wrappers turn a week document and a
//! day document into plain tables, and each wrapper's result is pinned by
//! an uninterpreted name of the input text, so every contract downstream
//! can speak of exactly which sample came from which key, value and week.
//! The decimal HHMM keys inside those tables are parsed by a verified
//! parser below, not by the library. The remaining wrappers carry the
//! opaque value of a parsed service-key file.

use vstd::prelude::*;

verus! {

#[verifier::external_type_specification]
#[verifier::external_body]
pub struct ExValue(serde_json::Value);

/// Relies on serde_json::Value::get with a string key: the member under
/// that key of an object value, if any.
#[verifier::external_body]
pub fn json_key<'a>(v: &'a serde_json::Value, key: &str) -> Option<&'a serde_json::Value> {
    v.get(key)
}

/// Relies on serde_json::Value::as_str: the value as owned text, if it is
/// a string.
#[verifier::external_body]
pub fn json_as_str(v: &serde_json::Value) -> Option<String> {
    match v.as_str() {
        Some(s) => Some(s.to_string()),
        None => None,
    }
}

/// The seven weekday member texts of a week document: `None` when the text
/// is not JSON at all; `Some(None)` when it is JSON but neither an array
/// nor an object; otherwise one entry per weekday index, each holding the
/// canonical text of that day's member where one is present. The reading
/// depends on the text alone.
pub uninterp spec fn spec_week_days(s: Seq<char>) -> Option<Option<Seq<Option<Seq<char>>>>>;

/// The entries of a day document as UTF-8 key bytes paired with each
/// value's unsigned reading (`None` where a value is not an unsigned
/// integer): `null` reads as no entries, and anything that is neither
/// `null` nor an object reads as `None`. The reading depends on the text
/// alone.
pub uninterp spec fn spec_day_table(s: Seq<char>) -> Option<Seq<(Seq<u8>, Option<u64>)>>;

/// The texts of a run of optional day members.
pub open spec fn spec_view_day_texts(v: Seq<Option<String>>) -> Seq<Option<Seq<char>>> {
    v.map_values(
        |d: Option<String>|
            match d {
                Some(t) => Some(t@),
                None => None,
            },
    )
}

/// The views of a run of day-table entries.
pub open spec fn spec_view_entries(v: Seq<(Vec<u8>, Option<u64>)>) -> Seq<(Seq<u8>, Option<u64>)> {
    v.map_values(|e: (Vec<u8>, Option<u64>)| (e.0@, e.1))
}

/// Relies on serde_json::from_str, Value::get and Value::to_string: splits
/// a week document into the canonical texts of its seven weekday members,
/// looked up by position in the array shape and by stringified index in
/// the object shape. All of these read the text deterministically, so the
/// result is exactly the named reading of the input.
#[verifier::external_body]
pub fn week_days(s: &str) -> (r: Option<Option<Vec<Option<String>>>>)
    ensures
        (match (r, spec_week_days(s@)) {
            (Option::None, Option::None) => true,
            (Some(Option::None), Some(Option::None)) => true,
            (Some(Some(v)), Some(Some(m))) => v@.len() == 7 && m.len() == 7
                && spec_view_day_texts(v@) == m,
            _ => false,
        }),
{
    let v: serde_json::Value = match serde_json::from_str(s) {
        Ok(v) => v,
        Err(_) => return None,
    };
    if !v.is_array() && !v.is_object() {
        return Some(None);
    }
    let mut out: Vec<Option<String>> = Vec::new();
    for i in 0..7usize {
        let d = if v.is_array() { v.get(i) } else { v.get(i.to_string().as_str()) };
        out.push(d.map(|x| x.to_string()));
    }
    Some(Some(out))
}

/// Relies on serde_json::from_str, Map iteration and Value::as_u64: reads
/// a day document as its entry table. All of these read the text
/// deterministically, so the result is exactly the named reading of the
/// input.
#[verifier::external_body]
pub fn day_table(s: &str) -> (r: Option<Vec<(Vec<u8>, Option<u64>)>>)
    ensures
        (match (r, spec_day_table(s@)) {
            (Option::None, Option::None) => true,
            (Some(v), Some(m)) => spec_view_entries(v@) == m,
            _ => false,
        }),
{
    match serde_json::from_str::<serde_json::Value>(s) {
        Ok(serde_json::Value::Null) => Some(Vec::new()),
        Ok(serde_json::Value::Object(m)) => {
            let mut out: Vec<(Vec<u8>, Option<u64>)> = Vec::new();
            for (k, v) in &m {
                out.push((k.clone().into_bytes(), v.as_u64()));
            }
            Some(out)
        },
        _ => None,
    }
}

/// Whether a byte is an ASCII decimal digit.
pub open spec fn spec_is_digit(b: u8) -> bool {
    0x30 <= b <= 0x39
}

/// The number a run of decimal digit bytes denotes.
pub open spec fn spec_digits_val(s: Seq<u8>) -> int
    decreases s.len(),
{
    if s.len() == 0 {
        0
    } else {
        spec_digits_val(s.drop_last()) * 10 + (s.last() - 0x30)
    }
}

/// A byte run that denotes a 16-bit number: nonempty, all digits, value in
/// range.
pub open spec fn spec_valid_u16_str(s: Seq<u8>) -> bool {
    &&& s.len() >= 1
    &&& (forall|i: int| 0 <= i < s.len() ==> spec_is_digit(#[trigger] s[i]))
    &&& spec_digits_val(s) <= 0xFFFF
}

proof fn lemma_digits_nonneg(s: Seq<u8>)
    requires
        forall|i: int| 0 <= i < s.len() ==> spec_is_digit(#[trigger] s[i]),
    ensures
        spec_digits_val(s) >= 0,
    decreases s.len(),
{
    if s.len() > 0 {
        let t = s.drop_last();
        lemma_digits_nonneg(t);
        assert(spec_digits_val(t) * 10 >= 0) by (nonlinear_arith)
            requires
                spec_digits_val(t) >= 0,
        ;
    }
}

proof fn lemma_digits_prefix_le(s: Seq<u8>, i: int)
    requires
        0 <= i <= s.len(),
        forall|j: int| 0 <= j < s.len() ==> spec_is_digit(#[trigger] s[j]),
    ensures
        spec_digits_val(s.take(i)) <= spec_digits_val(s),
    decreases s.len() - i,
{
    if i < s.len() {
        lemma_digits_prefix_le(s, i + 1);
        let p = s.take(i);
        let p2 = s.take(i + 1);
        assert(p2.drop_last() =~= p);
        assert(p2.last() == s[i]);
        assert(forall|j: int| 0 <= j < p.len() ==> spec_is_digit(#[trigger] p[j]));
        lemma_digits_nonneg(p);
        assert(p2.len() == i + 1);
        assert(spec_digits_val(p2) == spec_digits_val(p) * 10 + (s[i] - 0x30));
        assert(spec_digits_val(p) <= spec_digits_val(p) * 10 + (s[i] - 0x30)) by (nonlinear_arith)
            requires
                spec_digits_val(p) >= 0,
                s[i] >= 0x30,
        ;
        assert(spec_digits_val(p) <= spec_digits_val(p2));
    } else {
        assert(s.take(i) =~= s);
    }
}

/// Parses a run of ASCII decimal digits as a 16-bit number; anything else,
/// the empty run and out-of-range values included, is rejected.
pub fn parse_u16(s: &[u8]) -> (r: Option<u16>)
    ensures
        r is Some <==> spec_valid_u16_str(s@),
        (r matches Some(v) ==> v as int == spec_digits_val(s@)),
{
    if s.len() == 0 {
        return None;
    }
    let mut acc: u32 = 0;
    let mut i: usize = 0;
    proof {
        assert(s@.take(0) =~= Seq::<u8>::empty());
    }
    while i < s.len()
        invariant
            i <= s@.len(),
            s@.len() >= 1,
            acc <= 0xFFFF,
            acc as int == spec_digits_val(s@.take(i as int)),
            forall|j: int| 0 <= j < i ==> spec_is_digit(#[trigger] s@[j]),
        decreases s@.len() - i,
    {
        let b: u8 = s[i];
        if b < 0x30 || b > 0x39 {
            proof {
                assert(!spec_is_digit(s@[i as int]));
            }
            return None;
        }
        let d: u32 = (b - 0x30) as u32;
        let next: u32 = acc * 10 + d;
        proof {
            assert(s@.take(i as int + 1).drop_last() =~= s@.take(i as int));
            assert(s@.take(i as int + 1).last() == s@[i as int]);
        }
        if next > 0xFFFF {
            proof {
                if spec_valid_u16_str(s@) {
                    lemma_digits_prefix_le(s@, i as int + 1);
                }
            }
            return None;
        }
        acc = next;
        i = i + 1;
    }
    proof {
        assert(s@.take(s@.len() as int) =~= s@);
    }
    Some(acc as u16)
}

} // verus!
