//! Verified text utilities: character classes, case-insensitive comparison,
//! trimming, decimal digits, and rendering integers as decimal strings.
//!
//! The store's string fields are Unicode; all classification here is stated
//! exactly over sequences of characters.

use vstd::prelude::*;

verus! {

/// An ASCII decimal digit.
pub open spec fn is_digit_char(c: char) -> bool {
    48 <= c as u32 <= 57
}

/// A Unicode control character (category Cc): U+0000..=U+001F and U+007F..=U+009F.
pub open spec fn is_control_char(c: char) -> bool {
    c as u32 <= 0x1f || (0x7f <= c as u32 <= 0x9f)
}

/// A character with the Unicode `White_Space` property.
pub open spec fn is_space_char(c: char) -> bool {
    let u = c as u32;
    (0x9 <= u <= 0xd) || u == 0x20 || u == 0x85 || u == 0xa0 || u == 0x1680 || (0x2000 <= u
        <= 0x200a) || u == 0x2028 || u == 0x2029 || u == 0x202f || u == 0x205f || u == 0x3000
}

/// The ASCII-lowercased counterpart of a character; other characters unchanged.
pub open spec fn lower_char(c: char) -> char {
    if 65 <= c as u32 <= 90 {
        (((c as u32) + 32) as u8) as char
    } else {
        c
    }
}

/// A sequence of characters, ASCII-lowercased.
pub open spec fn lower_seq(s: Seq<char>) -> Seq<char> {
    s.map_values(|c: char| lower_char(c))
}

pub fn exec_is_digit_char(c: char) -> (r: bool)
    ensures
        r == is_digit_char(c),
{
    let u = c as u32;
    48 <= u && u <= 57
}

pub fn exec_is_control_char(c: char) -> (r: bool)
    ensures
        r == is_control_char(c),
{
    let u = c as u32;
    u <= 0x1f || (0x7f <= u && u <= 0x9f)
}

pub fn exec_is_space_char(c: char) -> (r: bool)
    ensures
        r == is_space_char(c),
{
    let u = c as u32;
    (0x9 <= u && u <= 0xd) || u == 0x20 || u == 0x85 || u == 0xa0 || u == 0x1680 || (0x2000 <= u
        && u <= 0x200a) || u == 0x2028 || u == 0x2029 || u == 0x202f || u == 0x205f || u == 0x3000
}

pub fn exec_lower_char(c: char) -> (r: char)
    ensures
        r == lower_char(c),
{
    let u = c as u32;
    if 65 <= u && u <= 90 {
        let b: u8 = (u + 32) as u8;
        b as char
    } else {
        c
    }
}

/// `s` with leading and trailing white space removed.
pub open spec fn trim_spec(s: Seq<char>) -> Seq<char>
    decreases s.len(),
{
    if s.len() > 0 && is_space_char(s[0]) {
        trim_spec(s.drop_first())
    } else if s.len() > 0 && is_space_char(s.last()) {
        trim_spec(s.drop_last())
    } else {
        s
    }
}

/// Removes leading and trailing white space.
pub fn trim<'a>(s: &'a str) -> (r: &'a str)
    ensures
        r@ == trim_spec(s@),
{
    let len = s.unicode_len();
    proof {
        assert(s@.subrange(0, len as int) =~= s@);
    }
    let mut start: usize = 0;
    while start < len && exec_is_space_char(s.get_char(start))
        invariant
            start <= len,
            len == s@.len(),
            trim_spec(s@) == trim_spec(s@.subrange(start as int, len as int)),
        decreases len - start,
    {
        proof {
            assert(s@.subrange(start as int, len as int).drop_first() =~= s@.subrange(
                start as int + 1,
                len as int,
            ));
        }
        start = start + 1;
    }
    let mut end: usize = len;
    while end > start && exec_is_space_char(s.get_char(end - 1))
        invariant
            start <= end <= len,
            len == s@.len(),
            trim_spec(s@) == trim_spec(s@.subrange(start as int, end as int)),
            start < len ==> !is_space_char(s@[start as int]),
        decreases end,
    {
        proof {
            assert(s@.subrange(start as int, end as int).drop_last() =~= s@.subrange(
                start as int,
                end as int - 1,
            ));
        }
        end = end - 1;
    }
    s.substring_char(start, end)
}

/// The index of the first occurrence of `c` in `s`, or `s.len()` if absent.
pub open spec fn first_idx(s: Seq<char>, c: char) -> int
    decreases s.len(),
{
    if s.len() == 0 {
        0
    } else if s[0] == c {
        0
    } else {
        1 + first_idx(s.drop_first(), c)
    }
}

pub proof fn lemma_first_idx(s: Seq<char>, c: char)
    ensures
        0 <= first_idx(s, c) <= s.len(),
        first_idx(s, c) < s.len() ==> s[first_idx(s, c)] == c,
        forall|j: int| 0 <= j < first_idx(s, c) ==> s[j] != c,
    decreases s.len(),
{
    if s.len() > 0 && s[0] != c {
        lemma_first_idx(s.drop_first(), c);
        assert forall|j: int| 0 <= j < first_idx(s, c) implies s[j] != c by {
            if j > 0 {
                assert(s.drop_first()[j - 1] != c);
            }
        }
    }
}

/// The index of the first occurrence of `c` in `s` at or after `from`,
/// reported as an offset into `s.subrange(from, len)`.
pub fn find_from(s: &str, c: char, from: usize) -> (r: usize)
    requires
        from <= s@.len(),
    ensures
        from <= r <= s@.len(),
        r - from == first_idx(s@.subrange(from as int, s@.len() as int), c),
{
    let len = s.unicode_len();
    let ghost sub = s@.subrange(from as int, s@.len() as int);
    proof {
        lemma_first_idx(sub, c);
    }
    let mut i: usize = from;
    while i < len
        invariant
            from <= i <= len,
            len == s@.len(),
            sub == s@.subrange(from as int, s@.len() as int),
            forall|j: int| 0 <= j < i - from ==> sub[j] != c,
            0 <= first_idx(sub, c) <= sub.len(),
            first_idx(sub, c) < sub.len() ==> sub[first_idx(sub, c)] == c,
            forall|j: int| 0 <= j < first_idx(sub, c) ==> sub[j] != c,
        decreases len - i,
    {
        if s.get_char(i) == c {
            proof {
                assert(sub[i - from] == c);
            }
            return i;
        }
        i = i + 1;
    }
    proof {
        assert(first_idx(sub, c) == sub.len());
    }
    len
}

/// Whether two string slices hold the same characters.
pub fn str_eq(a: &str, b: &str) -> (r: bool)
    ensures
        r == (a@ == b@),
{
    let alen = a.unicode_len();
    let blen = b.unicode_len();
    if alen != blen {
        return false;
    }
    let mut i: usize = 0;
    while i < alen
        invariant
            alen == a@.len(),
            alen == b@.len(),
            i <= alen,
            forall|j: int| 0 <= j < i ==> a@[j] == b@[j],
        decreases alen - i,
    {
        if a.get_char(i) != b.get_char(i) {
            return false;
        }
        i = i + 1;
    }
    proof {
        assert(a@ =~= b@);
    }
    true
}

/// Whether `s`, ASCII-lowercased, equals `t` exactly.
pub fn eq_lowered(s: &str, t: &str) -> (r: bool)
    ensures
        r == (lower_seq(s@) == t@),
{
    let slen = s.unicode_len();
    let tlen = t.unicode_len();
    if slen != tlen {
        return false;
    }
    let mut i: usize = 0;
    while i < slen
        invariant
            slen == s@.len(),
            slen == t@.len(),
            i <= slen,
            forall|j: int| 0 <= j < i ==> lower_char(s@[j]) == t@[j],
        decreases slen - i,
    {
        if exec_lower_char(s.get_char(i)) != t.get_char(i) {
            proof {
                assert(lower_seq(s@)[i as int] != t@[i as int]);
            }
            return false;
        }
        i = i + 1;
    }
    proof {
        assert(lower_seq(s@) =~= t@);
    }
    true
}

/// Whether every character of `s` is an ASCII decimal digit.
pub open spec fn all_digits(s: Seq<char>) -> bool {
    forall|i: int| 0 <= i < s.len() ==> is_digit_char(#[trigger] s[i])
}

/// The numeric value of a sequence of ASCII decimal digits.
pub open spec fn digits_val(s: Seq<char>) -> int
    decreases s.len(),
{
    if s.len() == 0 {
        0
    } else {
        digits_val(s.drop_last()) * 10 + (s.last() as u32 - 48)
    }
}

/// If `s` is nonempty, all ASCII digits, and its value fits in `i64`,
/// returns that value; otherwise `None`.
pub fn parse_digits(s: &str) -> (r: Option<i64>)
    ensures
        match r {
            Some(v) => s@.len() > 0 && all_digits(s@) && v == digits_val(s@) && digits_val(s@)
                <= i64::MAX,
            None => s@.len() == 0 || !all_digits(s@) || digits_val(s@) > i64::MAX,
        },
{
    let len = s.unicode_len();
    if len == 0 {
        return None;
    }
    let mut val: u128 = 0;
    let mut over: bool = false;
    let mut i: usize = 0;
    while i < len
        invariant
            i <= len,
            len == s@.len(),
            forall|j: int| 0 <= j < i ==> is_digit_char(#[trigger] s@[j]),
            !over ==> val == digits_val(s@.subrange(0, i as int)) && val <= i64::MAX,
            over ==> digits_val(s@.subrange(0, i as int)) > i64::MAX,
        decreases len - i,
    {
        let c = s.get_char(i);
        if !exec_is_digit_char(c) {
            return None;
        }
        let d: u128 = ((c as u32) - 48) as u128;
        proof {
            assert(s@.subrange(0, i as int + 1).drop_last() =~= s@.subrange(0, i as int));
            assert(digits_val(s@.subrange(0, i as int + 1)) == digits_val(
                s@.subrange(0, i as int),
            ) * 10 + d);
        }
        if over {
            proof {
                let prev = digits_val(s@.subrange(0, i as int));
                assert(prev * 10 >= prev) by (nonlinear_arith)
                    requires
                        prev > 0,
                ;
            }
        } else {
            let next = val * 10 + d;
            if next > i64::MAX as u128 {
                over = true;
            } else {
                val = next;
            }
        }
        i = i + 1;
    }
    proof {
        assert(s@.subrange(0, len as int) =~= s@);
    }
    if over {
        None
    } else {
        Some(val as i64)
    }
}

/// The character for a decimal digit value.
pub open spec fn digit_to_char(d: int) -> char {
    ((d + 48) as u8) as char
}

/// The decimal digits of a non-negative integer, most significant first.
pub open spec fn dec_digits(n: int) -> Seq<char>
    decreases n,
{
    if n < 0 {
        Seq::empty()
    } else if n < 10 {
        seq![digit_to_char(n)]
    } else {
        dec_digits(n / 10).push(digit_to_char(n % 10))
    }
}

/// The decimal rendering of an integer: a minus sign for negatives,
/// then the digits with no leading zero (except for zero itself).
pub open spec fn dec_str(n: int) -> Seq<char> {
    if n < 0 {
        seq!['-'] + dec_digits(-n)
    } else {
        dec_digits(n)
    }
}

pub proof fn lemma_dec_digits_props(n: int)
    requires
        n >= 0,
    ensures
        dec_digits(n).len() >= 1,
        all_digits(dec_digits(n)),
        digits_val(dec_digits(n)) == n,
    decreases n,
{
    if n < 10 {
        assert(digit_to_char(n) as u32 == n + 48);
        let s = seq![digit_to_char(n)];
        assert(s.drop_last().len() == 0);
        assert(digits_val(s.drop_last()) == 0);
        assert(digits_val(s) == (digit_to_char(n) as u32 - 48));
    } else {
        lemma_dec_digits_props(n / 10);
        let c = digit_to_char(n % 10);
        assert(c as u32 == n % 10 + 48);
        assert(dec_digits(n).drop_last() =~= dec_digits(n / 10));
        assert(digits_val(dec_digits(n)) == digits_val(dec_digits(n / 10)) * 10 + (n % 10));
    }
}

pub proof fn lemma_dec_str_injective(a: int, b: int)
    ensures
        dec_str(a) == dec_str(b) ==> a == b,
{
    if dec_str(a) == dec_str(b) && a != b {
        if a >= 0 && b >= 0 {
            lemma_dec_digits_props(a);
            lemma_dec_digits_props(b);
        } else if a < 0 && b < 0 {
            lemma_dec_digits_props(-a);
            lemma_dec_digits_props(-b);
            assert(dec_str(a) == seq!['-'] + dec_digits(-a));
            assert(dec_str(b) == seq!['-'] + dec_digits(-b));
            assert((seq!['-'] + dec_digits(-a)).len() == 1 + dec_digits(-a).len());
            assert((seq!['-'] + dec_digits(-b)).len() == 1 + dec_digits(-b).len());
            assert(dec_digits(-a).len() == dec_digits(-b).len());
            assert forall|i: int| 0 <= i < dec_digits(-a).len() implies #[trigger] dec_digits(
                -a,
            )[i] == dec_digits(-b)[i] by {
                assert(dec_digits(-a)[i] == dec_str(a)[i + 1]);
                assert(dec_digits(-b)[i] == dec_str(b)[i + 1]);
            }
            assert(dec_digits(-a) =~= dec_digits(-b));
        } else if a >= 0 && b < 0 {
            lemma_dec_digits_props(a);
            assert(dec_str(b)[0] == '-');
            assert(is_digit_char(dec_str(a)[0]));
            assert(!is_digit_char('-'));
        } else {
            lemma_dec_digits_props(b);
            assert(dec_str(a)[0] == '-');
            assert(is_digit_char(dec_str(b)[0]));
            assert(!is_digit_char('-'));
        }
    }
}

/// The one-character string slice for a decimal digit character.
fn digit_char_str(c: char) -> (r: &'static str)
    requires
        is_digit_char(c),
    ensures
        r@ =~= seq![c],
{
    proof {
        reveal_strlit("0");
        reveal_strlit("1");
        reveal_strlit("2");
        reveal_strlit("3");
        reveal_strlit("4");
        reveal_strlit("5");
        reveal_strlit("6");
        reveal_strlit("7");
        reveal_strlit("8");
        reveal_strlit("9");
    }
    match c {
        '0' => "0",
        '1' => "1",
        '2' => "2",
        '3' => "3",
        '4' => "4",
        '5' => "5",
        '6' => "6",
        '7' => "7",
        '8' => "8",
        _ => "9",
    }
}

/// Renders an integer as its decimal string.
pub fn i64_to_string(n: i64) -> (r: String)
    ensures
        r@ == dec_str(n as int),
{
    let neg = n < 0;
    let mag: u64 = if n >= 0 {
        n as u64
    } else {
        (-(n as i128)) as u64
    };
    let mut digits_rev: Vec<char> = Vec::new();
    if mag == 0 {
        digits_rev.push('0');
        proof {
            assert(dec_digits(mag as int) =~= digits_rev@.reverse());
        }
    } else {
        let mut m: u64 = mag;
        proof {
            assert(digits_rev@.reverse() =~= Seq::<char>::empty());
            assert(dec_digits(mag as int) =~= dec_digits(mag as int) + digits_rev@.reverse());
        }
        while m > 0
            invariant
                m > 0 ==> dec_digits(mag as int) == dec_digits(m as int) + digits_rev@.reverse(),
                m == 0 ==> dec_digits(mag as int) == digits_rev@.reverse(),
                forall|k: int|
                    0 <= k < digits_rev@.len() ==> is_digit_char(#[trigger] digits_rev@[k]),
            decreases m,
        {
            let d: u64 = m % 10;
            let b: u8 = (d + 48) as u8;
            let c: char = b as char;
            proof {
                assert(c == digit_to_char(m as int % 10));
                assert(is_digit_char(c));
                if m >= 10 {
                    assert(dec_digits(m as int) == dec_digits(m as int / 10).push(
                        digit_to_char(m as int % 10),
                    ));
                    assert(dec_digits(m as int / 10).push(c) + digits_rev@.reverse() =~= dec_digits(
                        m as int / 10,
                    ) + (seq![c] + digits_rev@.reverse()));
                } else {
                    assert(dec_digits(m as int) =~= seq![c]);
                }
                assert(digits_rev@.push(c).reverse() =~= seq![c] + digits_rev@.reverse());
            }
            digits_rev.push(c);
            m = m / 10;
        }
    }
    let ghost digits = dec_digits(mag as int);
    let mut out = String::new();
    if neg {
        proof {
            reveal_strlit("-");
        }
        out.append("-");
    }
    let ghost sign: Seq<char> = if neg {
        seq!['-']
    } else {
        Seq::empty()
    };
    proof {
        assert(out@ =~= sign);
    }
    let count = digits_rev.len();
    let mut j: usize = 0;
    while j < count
        invariant
            j <= count,
            count == digits_rev@.len(),
            digits == digits_rev@.reverse(),
            forall|k: int| 0 <= k < count ==> is_digit_char(#[trigger] digits_rev@[k]),
            out@ == sign + digits.take(j as int),
        decreases count - j,
    {
        let c = digits_rev[count - 1 - j];
        proof {
            assert(digits[j as int] == digits_rev@[count - 1 - j]);
        }
        let piece = digit_char_str(c);
        out.append(piece);
        proof {
            assert(sign + digits.take(j as int + 1) =~= sign + digits.take(j as int) + seq![c]);
        }
        j = j + 1;
    }
    proof {
        assert(digits.take(count as int) =~= digits);
        if n >= 0 {
            assert(sign + digits =~= dec_str(n as int));
        } else {
            assert(sign + digits =~= dec_str(n as int));
        }
    }
    out
}

/// Clones a vector of strings, preserving its contents.
pub fn clone_string_vec(v: &Vec<String>) -> (r: Vec<String>)
    ensures
        r.deep_view() == v.deep_view(),
{
    let mut out: Vec<String> = Vec::new();
    let mut i: usize = 0;
    while i < v.len()
        invariant
            i <= v@.len(),
            out@.len() == i,
            forall|j: int| 0 <= j < i ==> #[trigger] out@[j].deep_view() == v@[j].deep_view(),
        decreases v@.len() - i,
    {
        let ghost old_elems = out@;
        let x = v[i].clone();
        proof {
            assert(x.deep_view() == v@[i as int].deep_view());
        }
        out.push(x);
        proof {
            assert forall|j: int| 0 <= j < i + 1 implies #[trigger] out@[j].deep_view()
                == v@[j].deep_view() by {
                if j < old_elems.len() {
                    assert(out@[j] == old_elems[j]);
                } else {
                    assert(out@[j] == x);
                }
            }
        }
        i = i + 1;
    }
    proof {
        assert(out.deep_view() =~= v.deep_view());
    }
    out
}

} // verus!
