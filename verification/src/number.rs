//! Numeric prefixes of header values, read as C's `atof` and `atoi` read them.

use vstd::prelude::*;
use crate::text::{skip_space, skip_spaces};

verus! {

/// Bytes that `u8::is_ascii_whitespace` accepts: space, tab, line feed, form feed, and
/// carriage return.
pub open spec fn ascii_whitespace(b: u8) -> bool {
    b == 0x20 || b == 0x09 || b == 0x0a || b == 0x0c || b == 0x0d
}

pub open spec fn is_digit(b: u8) -> bool {
    0x30 <= b && b <= 0x39
}

pub open spec fn is_sign(b: u8) -> bool {
    b == 0x2b || b == 0x2d
}

/// First position at or after `i` that holds no ASCII whitespace.
pub open spec fn skip_ascii_whitespace(s: Seq<u8>, i: int) -> int
    decreases s.len() - i,
{
    if 0 <= i < s.len() && ascii_whitespace(s[i]) {
        skip_ascii_whitespace(s, i + 1)
    } else {
        i
    }
}

/// End of the run of decimal digits starting at `i`.
pub open spec fn digits_end(s: Seq<u8>, i: int) -> int
    decreases s.len() - i,
{
    if 0 <= i < s.len() && is_digit(s[i]) {
        digits_end(s, i + 1)
    } else {
        i
    }
}

/// `i`, moved past a sign if one stands there.
pub open spec fn after_sign(s: Seq<u8>, i: int) -> int {
    if 0 <= i < s.len() && is_sign(s[i]) {
        i + 1
    } else {
        i
    }
}

/// Where the mantissa of a number starting at `start` ends, and how many digits it has.
pub open spec fn mantissa(s: Seq<u8>, start: int) -> (int, int) {
    let m0 = after_sign(s, start);
    let m1 = digits_end(s, m0);
    if m1 < s.len() && s[m1] == 0x2e {
        let m2 = digits_end(s, m1 + 1);
        (m2, (m1 - m0) + (m2 - m1 - 1))
    } else {
        (m1, m1 - m0)
    }
}

/// Where an exponent `e[+-]digits` after the mantissa ends; `m` itself if there is none.
pub open spec fn exponent_end(s: Seq<u8>, m: int) -> int {
    if 0 <= m < s.len() && (s[m] == 0x65 || s[m] == 0x45) {
        let j = after_sign(s, m + 1);
        if digits_end(s, j) > j {
            digits_end(s, j)
        } else {
            m
        }
    } else {
        m
    }
}

/// The longest prefix of `s` that C's `atof` reads, after leading ASCII whitespace:
/// `[+-]digits[.digits][e[+-]digits]` with at least one mantissa digit. `None` when there is
/// no mantissa digit.
pub open spec fn numeric_prefix(s: Seq<u8>) -> Option<(int, int)> {
    let start = skip_ascii_whitespace(s, 0);
    let (m, count) = mantissa(s, start);
    if count == 0 {
        None
    } else {
        Some((start, exponent_end(s, m)))
    }
}

proof fn lemma_skip_ascii_whitespace(s: Seq<u8>, i: int)
    requires
        0 <= i <= s.len(),
    ensures
        i <= skip_ascii_whitespace(s, i) <= s.len(),
    decreases s.len() - i,
{
    if i < s.len() && ascii_whitespace(s[i]) {
        lemma_skip_ascii_whitespace(s, i + 1);
    }
}

pub proof fn lemma_digits_end(s: Seq<u8>, i: int)
    requires
        0 <= i <= s.len(),
    ensures
        i <= digits_end(s, i) <= s.len(),
        forall|k: int| i <= k < digits_end(s, i) ==> is_digit(#[trigger] s[k]),
        digits_end(s, i) < s.len() ==> !is_digit(s[digits_end(s, i)]),
    decreases s.len() - i,
{
    if i < s.len() && is_digit(s[i]) {
        lemma_digits_end(s, i + 1);
    }
}

fn digits_end_exec(s: &[u8], i: usize) -> (e: usize)
    requires
        i <= s@.len(),
    ensures
        e == digits_end(s@, i as int),
        i <= e <= s@.len(),
{
    proof {
        lemma_digits_end(s@, i as int);
    }
    let mut e = i;
    while e < s.len() && 0x30 <= s[e] && s[e] <= 0x39
        invariant
            i <= e <= s@.len(),
            digits_end(s@, i as int) == digits_end(s@, e as int),
        decreases s@.len() - e,
    {
        e += 1;
    }
    e
}

fn after_sign_exec(s: &[u8], i: usize) -> (j: usize)
    requires
        i <= s@.len(),
    ensures
        j == after_sign(s@, i as int),
        j <= s@.len(),
{
    if i < s.len() && (s[i] == 0x2b || s[i] == 0x2d) {
        i + 1
    } else {
        i
    }
}

/// Bounds of the number that C's `atof` reads from `s`, or `None` if `s` has no mantissa
/// digit after leading ASCII whitespace.
pub fn numeric_prefix_exec(s: &[u8]) -> (r: Option<(usize, usize)>)
    ensures
        r matches Some((a, b)) ==> numeric_prefix(s@) == Some((a as int, b as int)) && a < b
            <= s@.len(),
        r is None ==> numeric_prefix(s@) is None,
{
    proof {
        lemma_skip_ascii_whitespace(s@, 0);
    }
    let mut start: usize = 0;
    while start < s.len() && (s[start] == 0x20 || s[start] == 0x09 || s[start] == 0x0a
        || s[start] == 0x0c || s[start] == 0x0d)
        invariant
            start <= s@.len(),
            skip_ascii_whitespace(s@, 0) == skip_ascii_whitespace(s@, start as int),
        decreases s@.len() - start,
    {
        start += 1;
    }
    let m0 = after_sign_exec(s, start);
    let m1 = digits_end_exec(s, m0);
    let (m, count) = if m1 < s.len() && s[m1] == 0x2e {
        let m2 = digits_end_exec(s, m1 + 1);
        (m2, (m1 - m0) + (m2 - m1 - 1))
    } else {
        (m1, m1 - m0)
    };
    if count == 0 {
        return None;
    }
    let mut end = m;
    if m < s.len() && (s[m] == 0x65 || s[m] == 0x45) {
        let j = after_sign_exec(s, m + 1);
        let k = digits_end_exec(s, j);
        if k > j {
            end = k;
        }
    }
    Some((start, end))
}

/// Decimal value of a run of digits.
pub open spec fn decimal(digits: Seq<u8>) -> nat
    decreases digits.len(),
{
    if digits.len() == 0 {
        0
    } else {
        decimal(digits.drop_last()) * 10 + (digits.last() - 0x30) as nat
    }
}

/// What C's `atoi` reads from `s`: after leading whitespace, an optional sign and the
/// longest run of digits, with the magnitude saturated at `i64::MAX`. `None` without a
/// digit.
pub open spec fn c_atoi_spec(s: Seq<u8>) -> Option<i64> {
    let t = skip_spaces(s, 0);
    let negative = 0 <= t < s.len() && s[t] == 0x2d;
    let d0 = after_sign(s, t);
    let d1 = digits_end(s, d0);
    if d1 == d0 {
        None
    } else {
        let value = decimal(s.subrange(d0, d1));
        let magnitude = if value > i64::MAX {
            i64::MAX as int
        } else {
            value as int
        };
        Some((if negative {
            -magnitude
        } else {
            magnitude
        }) as i64)
    }
}

proof fn lemma_decimal_push(ds: Seq<u8>, d: u8)
    ensures
        decimal(ds.push(d)) == decimal(ds) * 10 + (d - 0x30) as nat,
{
    assert(ds.push(d).drop_last() =~= ds);
}

/// C `atoi` on the longest integer prefix, or `None` if there is no digit.
pub fn c_atoi(s: &[u8]) -> (r: Option<i64>)
    ensures
        r == c_atoi_spec(s@),
{
    let t = skip_space(s, 0);
    let negative = t < s.len() && s[t] == 0x2d;
    let d0 = after_sign_exec(s, t);
    let d1 = digits_end_exec(s, d0);
    proof {
        lemma_digits_end(s@, d0 as int);
    }
    if d1 == d0 {
        return None;
    }
    let mut acc: i64 = 0;
    let mut saturated = false;
    let mut i = d0;
    assert(s@.subrange(d0 as int, d0 as int) =~= Seq::<u8>::empty());
    while i < d1
        invariant
            d0 <= i <= d1 <= s@.len(),
            forall|k: int| d0 <= k < d1 ==> is_digit(#[trigger] s@[k]),
            saturated ==> decimal(s@.subrange(d0 as int, i as int)) > i64::MAX,
            !saturated ==> acc == decimal(s@.subrange(d0 as int, i as int)),
            0 <= acc,
        decreases d1 - i,
    {
        let d = (s[i] - 0x30) as i64;
        proof {
            assert(is_digit(s@[i as int]));
            assert(s@.subrange(d0 as int, i + 1) =~= s@.subrange(d0 as int, i as int).push(
                s@[i as int],
            ));
            lemma_decimal_push(s@.subrange(d0 as int, i as int), s@[i as int]);
        }
        if !saturated {
            if acc > (i64::MAX - d) / 10 {
                saturated = true;
            } else {
                acc = acc * 10 + d;
            }
        }
        i += 1;
    }
    let magnitude = if saturated { i64::MAX } else { acc };
    Some(if negative { -magnitude } else { magnitude })
}

/// Whether `s` and `t` agree, byte by byte, on everything C's `atof` tells apart before the
/// exponent digits: whitespace, digits, signs, the point, and the exponent marker.
pub open spec fn same_number_shape(s: Seq<u8>, t: Seq<u8>) -> bool {
    &&& s.len() == t.len()
    &&& forall|k: int|
        0 <= k < s.len() ==> {
            &&& ascii_whitespace(#[trigger] s[k]) == ascii_whitespace(t[k])
            &&& is_digit(s[k]) == is_digit(t[k])
            &&& is_sign(s[k]) == is_sign(t[k])
            &&& (s[k] == 0x2e) == (t[k] == 0x2e)
            &&& (s[k] == 0x65 || s[k] == 0x45) == (t[k] == 0x65 || t[k] == 0x45)
        }
}

proof fn lemma_shape_whitespace(s: Seq<u8>, t: Seq<u8>, i: int)
    requires
        same_number_shape(s, t),
        0 <= i <= s.len(),
    ensures
        skip_ascii_whitespace(s, i) == skip_ascii_whitespace(t, i),
    decreases s.len() - i,
{
    if i < s.len() {
        assert(ascii_whitespace(s[i]) == ascii_whitespace(t[i]));
        if ascii_whitespace(s[i]) {
            lemma_shape_whitespace(s, t, i + 1);
        }
    }
}

proof fn lemma_shape_digits(s: Seq<u8>, t: Seq<u8>, i: int)
    requires
        same_number_shape(s, t),
        0 <= i,
    ensures
        digits_end(s, i) == digits_end(t, i),
    decreases s.len() - i,
{
    if i < s.len() {
        assert(is_digit(s[i]) == is_digit(t[i]));
        if is_digit(s[i]) {
            lemma_shape_digits(s, t, i + 1);
        }
    }
}

/// Reading a number depends only on which bytes are whitespace, digits, signs, points, and
/// exponent markers: in particular `e` and `E` mark an exponent alike.
pub proof fn number_prefix_depends_on_shape_only(s: Seq<u8>, t: Seq<u8>)
    requires
        same_number_shape(s, t),
    ensures
        numeric_prefix(s) == numeric_prefix(t),
{
    lemma_skip_ascii_whitespace(s, 0);
    lemma_shape_whitespace(s, t, 0);
    let start = skip_ascii_whitespace(s, 0);
    let m0 = after_sign(s, start);
    if 0 <= start < s.len() {
        assert(is_sign(s[start]) == is_sign(t[start]));
    }
    assert(m0 == after_sign(t, start));
    lemma_shape_digits(s, t, m0);
    lemma_digits_end(s, m0);
    let m1 = digits_end(s, m0);
    assert(digits_end(t, m0) == m1);
    if 0 <= m1 < s.len() {
        assert((s[m1] == 0x2e) == (t[m1] == 0x2e));
        lemma_shape_digits(s, t, m1 + 1);
    }
    let (m, count) = mantissa(s, start);
    assert(mantissa(t, start) == (m, count));
    if 0 <= m < s.len() {
        assert((s[m] == 0x65 || s[m] == 0x45) == (t[m] == 0x65 || t[m] == 0x45));
        let j = after_sign(s, m + 1);
        if 0 <= m + 1 < s.len() {
            assert(is_sign(s[m + 1]) == is_sign(t[m + 1]));
        }
        assert(j == after_sign(t, m + 1));
        lemma_shape_digits(s, t, j);
    }
}

/// An upper case exponent marker reads as a lower case one does.
pub proof fn exponent_marker_case_does_not_matter(s: Seq<u8>, m: int)
    requires
        0 <= m < s.len(),
        s[m] == 0x65,
    ensures
        numeric_prefix(s.update(m, 0x45)) == numeric_prefix(s),
{
    let t = s.update(m, 0x45);
    assert forall|k: int| 0 <= k < s.len() implies {
        &&& ascii_whitespace(#[trigger] s[k]) == ascii_whitespace(t[k])
        &&& is_digit(s[k]) == is_digit(t[k])
        &&& is_sign(s[k]) == is_sign(t[k])
        &&& (s[k] == 0x2e) == (t[k] == 0x2e)
        &&& (s[k] == 0x65 || s[k] == 0x45) == (t[k] == 0x65 || t[k] == 0x45)
    } by {
        if k != m {
            assert(t[k] == s[k]);
        }
    }
    number_prefix_depends_on_shape_only(s, t);
}

proof fn lemma_digit_run(s: Seq<u8>, i: int, e: int)
    requires
        0 <= i <= e <= s.len(),
        forall|k: int| i <= k < e ==> is_digit(#[trigger] s[k]),
        e == s.len() || !is_digit(s[e]),
    ensures
        digits_end(s, i) == e,
    decreases e - i,
{
    if i < e {
        lemma_digit_run(s, i + 1, e);
    }
}

/// Digits, an optional fraction `.digits`, an exponent marker `e` or `E`, an optional sign,
/// and digits read as one number to the end: the exponent belongs to it.
pub proof fn exponent_belongs_to_the_number(
    p: Seq<u8>,
    frac: Seq<u8>,
    marker: u8,
    sign: Seq<u8>,
    q: Seq<u8>,
)
    requires
        p.len() > 0,
        q.len() > 0,
        forall|k: int| 0 <= k < p.len() ==> is_digit(#[trigger] p[k]),
        forall|k: int| 0 <= k < q.len() ==> is_digit(#[trigger] q[k]),
        frac.len() > 0 ==> frac[0] == 0x2e,
        forall|k: int| 1 <= k < frac.len() ==> is_digit(#[trigger] frac[k]),
        marker == 0x65 || marker == 0x45,
        sign.len() <= 1,
        sign.len() == 1 ==> is_sign(sign[0]),
    ensures
        numeric_prefix(p + frac + seq![marker] + sign + q) == Some::<(int, int)>(
            (0int, p.len() + frac.len() + 1 + sign.len() + q.len() as int),
        ),
{
    let s = p + frac + seq![marker] + sign + q;
    let n = p.len() as int;
    let m = n + frac.len();
    let j = m + 1 + sign.len();
    assert(s[0] == p[0]);
    assert(skip_ascii_whitespace(s, 0) == 0);
    assert(after_sign(s, 0) == 0);
    assert forall|k: int| 0 <= k < n implies is_digit(#[trigger] s[k]) by {
        assert(s[k] == p[k]);
    }
    assert(s[m] == marker);
    if frac.len() > 0 {
        assert(s[n] == 0x2e);
        lemma_digit_run(s, 0, n);
        assert forall|k: int| n + 1 <= k < m implies is_digit(#[trigger] s[k]) by {
            assert(s[k] == frac[k - n]);
        }
        lemma_digit_run(s, n + 1, m);
    } else {
        lemma_digit_run(s, 0, n);
    }
    assert(mantissa(s, 0).0 == m);
    assert(mantissa(s, 0).1 > 0);
    if sign.len() == 1 {
        assert(s[m + 1] == sign[0]);
    } else {
        assert(s[m + 1] == q[0]);
    }
    assert(after_sign(s, m + 1) == j);
    assert forall|k: int| j <= k < s.len() implies is_digit(#[trigger] s[k]) by {
        assert(s[k] == q[k - j]);
    }
    lemma_digit_run(s, j, s.len() as int);
}

} // verus!
