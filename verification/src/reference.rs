//! The reference model: opaque `where:what:ref` triples that cross-link
//! messages and artifacts to external systems.
//!
//! The value part is a tagged variant — numeric or textual, decided at parse
//! time: a token of all ASCII digits becomes numeric, anything else stays a
//! string. Lookup matching is deliberately type-insensitive: both sides are
//! normalized to their textual form before comparison, so a stored numeric
//! `13` matches a textual lookup `"13"` and vice versa.

use crate::errors::{BBError, BBResult};
use crate::text::{
    all_digits, dec_str, digits_val, find_from, first_idx, i64_to_string, parse_digits, str_eq,
    trim, trim_spec,
};
use vstd::prelude::*;

verus! {

/// The value of a reference triple: an integer or a string.
#[derive(Debug, PartialEq)]
pub enum RefValue {
    Num(i64),
    Text(String),
}

/// Mathematical counterpart of [`RefValue`].
#[verifier::ext_equal]
pub enum RefValueV {
    Num(int),
    Text(Seq<char>),
}

impl View for RefValue {
    type V = RefValueV;

    open spec fn view(&self) -> RefValueV {
        match self {
            RefValue::Num(n) => RefValueV::Num(*n as int),
            RefValue::Text(s) => RefValueV::Text(s@),
        }
    }
}

impl DeepView for RefValue {
    type V = RefValueV;

    open spec fn deep_view(&self) -> RefValueV {
        self.view()
    }
}

impl Clone for RefValue {
    fn clone(&self) -> (r: Self)
        ensures
            r@ == self@,
    {
        match self {
            RefValue::Num(n) => RefValue::Num(*n),
            RefValue::Text(s) => RefValue::Text(s.clone()),
        }
    }
}

/// The textual normalization of a reference value: numbers render as decimal.
pub open spec fn ref_text(v: RefValueV) -> Seq<char> {
    match v {
        RefValueV::Num(n) => dec_str(n),
        RefValueV::Text(s) => s,
    }
}

/// Type-insensitive value equality: both sides are compared by textual form.
pub open spec fn ref_value_matches(a: RefValueV, b: RefValueV) -> bool {
    ref_text(a) == ref_text(b)
}

/// A stored numeric value matches a textual lookup holding its decimal
/// rendering, and vice versa: the type-insensitive matching policy.
pub proof fn lemma_ref_match_type_insensitive(n: int)
    ensures
        ref_value_matches(RefValueV::Num(n), RefValueV::Text(dec_str(n))),
        ref_value_matches(RefValueV::Text(dec_str(n)), RefValueV::Num(n)),
{
}

/// Type-insensitive matching is symmetric.
pub proof fn lemma_ref_match_symmetric(a: RefValueV, b: RefValueV)
    ensures
        ref_value_matches(a, b) == ref_value_matches(b, a),
{
}

/// Type-insensitive value equality, decided executably.
pub fn ref_value_eq_loose(a: &RefValue, b: &RefValue) -> (r: bool)
    ensures
        r == ref_value_matches(a@, b@),
{
    match (a, b) {
        (RefValue::Num(x), RefValue::Num(y)) => {
            proof {
                crate::text::lemma_dec_str_injective(*x as int, *y as int);
            }
            *x == *y
        },
        (RefValue::Text(s), RefValue::Text(t)) => str_eq(s.as_str(), t.as_str()),
        (RefValue::Num(x), RefValue::Text(t)) => {
            let xs = i64_to_string(*x);
            str_eq(xs.as_str(), t.as_str())
        },
        (RefValue::Text(s), RefValue::Num(y)) => {
            let ys = i64_to_string(*y);
            str_eq(s.as_str(), ys.as_str())
        },
    }
}

/// Exact (type-sensitive) value equality, as the list filters use.
pub fn ref_value_eq_exact(a: &RefValue, b: &RefValue) -> (r: bool)
    ensures
        r == (a@ == b@),
{
    match (a, b) {
        (RefValue::Num(x), RefValue::Num(y)) => *x == *y,
        (RefValue::Text(s), RefValue::Text(t)) => {
            let r = str_eq(s.as_str(), t.as_str());
            proof {
                if s@ == t@ {
                    assert(a@ =~= b@);
                }
            }
            r
        },
        _ => {
            proof {
                assert(a@ != b@);
            }
            false
        },
    }
}

/// A reference triple linking an entity to an external system.
#[derive(Debug, PartialEq)]
pub struct Reference {
    pub where_: String,
    pub what: String,
    pub ref_: RefValue,
}

/// Mathematical counterpart of [`Reference`].
#[verifier::ext_equal]
pub struct ReferenceV {
    pub where_: Seq<char>,
    pub what: Seq<char>,
    pub ref_: RefValueV,
}

impl View for Reference {
    type V = ReferenceV;

    open spec fn view(&self) -> ReferenceV {
        ReferenceV { where_: self.where_@, what: self.what@, ref_: self.ref_@ }
    }
}

impl DeepView for Reference {
    type V = ReferenceV;

    open spec fn deep_view(&self) -> ReferenceV {
        self.view()
    }
}

impl Clone for Reference {
    fn clone(&self) -> (r: Self)
        ensures
            r@ == self@,
    {
        let r = Reference {
            where_: self.where_.clone(),
            what: self.what.clone(),
            ref_: self.ref_.clone(),
        };
        proof {
            assert(r@ =~= self@);
        }
        r
    }
}

/// Whether a stored triple matches a lookup, with type-insensitive value
/// comparison (`where` and `what` compare exactly).
pub open spec fn ref_triple_matches(
    r: ReferenceV,
    w: Seq<char>,
    wh: Seq<char>,
    v: RefValueV,
) -> bool {
    r.where_ == w && r.what == wh && ref_value_matches(r.ref_, v)
}

/// Decides a type-insensitive triple match.
pub fn reference_matches(r: &Reference, w: &str, wh: &str, v: &RefValue) -> (res: bool)
    ensures
        res == ref_triple_matches(r@, w@, wh@, v@),
{
    str_eq(r.where_.as_str(), w) && str_eq(r.what.as_str(), wh) && ref_value_eq_loose(&r.ref_, v)
}

/// Whether a stored triple matches a lookup with exact value comparison,
/// as the list filters require.
pub open spec fn ref_triple_same(r: ReferenceV, w: Seq<char>, wh: Seq<char>, v: RefValueV) -> bool {
    r.where_ == w && r.what == wh && r.ref_ == v
}

/// Decides an exact triple match.
pub fn reference_same(r: &Reference, w: &str, wh: &str, v: &RefValue) -> (res: bool)
    ensures
        res == ref_triple_same(r@, w@, wh@, v@),
{
    str_eq(r.where_.as_str(), w) && str_eq(r.what.as_str(), wh) && ref_value_eq_exact(&r.ref_, v)
}

/// The classification a token receives: numeric if it is nonempty, all ASCII
/// digits, and its value fits a 64-bit integer; textual otherwise.
pub open spec fn classify_token(s: Seq<char>) -> RefValueV {
    if s.len() > 0 && all_digits(s) && digits_val(s) <= i64::MAX {
        RefValueV::Num(digits_val(s))
    } else {
        RefValueV::Text(s)
    }
}

/// Classifies a token as a numeric or textual reference value.
pub fn token_to_ref_value(s: &str) -> (r: RefValue)
    ensures
        r@ == classify_token(s@),
{
    match parse_digits(s) {
        Some(v) => RefValue::Num(v),
        None => RefValue::Text(s.to_owned()),
    }
}

/// The decimal rendering of a value within range classifies back to that
/// number: looking a numeric reference up by its textual form finds it.
pub proof fn lemma_classify_decimal_roundtrip(n: int)
    requires
        0 <= n <= i64::MAX,
    ensures
        classify_token(dec_str(n)) == RefValueV::Num(n),
{
    crate::text::lemma_dec_digits_props(n);
}

/// The three parts of a well-shaped reference string: exactly two colons
/// splitting it into three fields.
pub open spec fn ref_shape(s: Seq<char>) -> Option<(Seq<char>, Seq<char>, Seq<char>)> {
    let i1 = first_idx(s, ':');
    if i1 == s.len() {
        None
    } else {
        let rest = s.subrange(i1 + 1, s.len() as int);
        let i2 = first_idx(rest, ':');
        if i2 == rest.len() {
            None
        } else {
            let rest2 = rest.subrange(i2 + 1, rest.len() as int);
            if first_idx(rest2, ':') == rest2.len() {
                Some((s.take(i1), rest.take(i2), rest2))
            } else {
                None
            }
        }
    }
}

/// What parsing a reference string yields: `None` exactly when the input does
/// not consist of three colon-separated parts, each nonempty after trimming.
pub open spec fn parse_ref_spec(s: Seq<char>) -> Option<ReferenceV> {
    match ref_shape(s) {
        None => None,
        Some(parts) => {
            let w = trim_spec(parts.0);
            let h = trim_spec(parts.1);
            let v = trim_spec(parts.2);
            if w.len() == 0 || h.len() == 0 || v.len() == 0 {
                None
            } else {
                Some(ReferenceV { where_: w, what: h, ref_: classify_token(v) })
            }
        },
    }
}

/// Parses a `where:what:ref` string: exactly three colon-separated parts,
/// each trimmed and nonempty; the third part becomes numeric when it is all
/// ASCII digits. Every other shape fails with [`BBError::InvalidRefFormat`].
pub fn parse_ref(s: &str) -> (r: BBResult<Reference>)
    ensures
        match r {
            Ok(rf) => parse_ref_spec(s@) == Some(rf@),
            Err(e) => parse_ref_spec(s@) is None && e == BBError::InvalidRefFormat,
        },
{
    let len = s.unicode_len();
    proof {
        assert(s@.subrange(0, s@.len() as int) =~= s@);
    }
    let i1 = find_from(s, ':', 0);
    if i1 == len {
        return Err(BBError::InvalidRefFormat);
    }
    let ghost rest = s@.subrange(i1 + 1, s@.len() as int);
    let i2 = find_from(s, ':', i1 + 1);
    proof {
        assert(rest =~= s@.subrange(i1 + 1, s@.len() as int));
    }
    if i2 == len {
        proof {
            assert(first_idx(rest, ':') == rest.len());
        }
        return Err(BBError::InvalidRefFormat);
    }
    let ghost rest2 = rest.subrange(i2 - i1, rest.len() as int);
    proof {
        assert(rest2 =~= s@.subrange(i2 + 1, s@.len() as int));
    }
    let i3 = find_from(s, ':', i2 + 1);
    if i3 != len {
        proof {
            assert(first_idx(rest2, ':') < rest2.len());
        }
        return Err(BBError::InvalidRefFormat);
    }
    proof {
        assert(first_idx(rest2, ':') == rest2.len());
    }
    let p0 = s.substring_char(0, i1);
    let p1 = s.substring_char(i1 + 1, i2);
    let p2 = s.substring_char(i2 + 1, len);
    proof {
        assert(p0@ =~= s@.take(i1 as int));
        assert(p1@ =~= rest.take(i2 - i1 - 1));
        assert(p2@ =~= rest2);
    }
    let w = trim(p0);
    let h = trim(p1);
    let v = trim(p2);
    if w.unicode_len() == 0 || h.unicode_len() == 0 || v.unicode_len() == 0 {
        return Err(BBError::InvalidRefFormat);
    }
    let rf = Reference { where_: w.to_owned(), what: h.to_owned(), ref_: token_to_ref_value(v) };
    proof {
        assert(parse_ref_spec(s@) == Some(rf@));
    }
    Ok(rf)
}

/// Clones a vector of references, preserving its contents.
pub fn clone_ref_vec(v: &Vec<Reference>) -> (r: Vec<Reference>)
    ensures
        r.deep_view() == v.deep_view(),
{
    let mut out: Vec<Reference> = Vec::new();
    let mut i: usize = 0;
    while i < v.len()
        invariant
            i <= v@.len(),
            out@.len() == i,
            forall|j: int| 0 <= j < i ==> #[trigger] out@[j].deep_view() == v@[j].deep_view(),
        decreases v@.len() - i,
    {
        let ghost old_elems = out@;
        let x = v[i].clone();
        proof {
            assert(x.deep_view() == v@[i as int].deep_view());
        }
        out.push(x);
        proof {
            assert forall|j: int| 0 <= j < i + 1 implies #[trigger] out@[j].deep_view()
                == v@[j].deep_view() by {
                if j < old_elems.len() {
                    assert(out@[j] == old_elems[j]);
                } else {
                    assert(out@[j] == x);
                }
            }
        }
        i = i + 1;
    }
    proof {
        assert(out.deep_view() =~= v.deep_view());
    }
    out
}

} // verus!
