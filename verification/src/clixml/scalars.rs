//! The text forms of CLIXML primitives: trimming, integers, booleans and
//! the syntax of floating-point numbers.

use vstd::prelude::*;
use crate::text::{push_char, is_digit, digits_value, all_digits, lemma_digits_prefix};
use super::base64::{is_unicode_whitespace, char_is_whitespace};

verus! {

/// `c` without its leading white space.
pub open spec fn trim_start(c: Seq<char>) -> Seq<char>
    decreases c.len(),
{
    if c.len() > 0 && is_unicode_whitespace(c[0]) {
        trim_start(c.drop_first())
    } else {
        c
    }
}

/// `c` without its trailing white space.
pub open spec fn trim_end(c: Seq<char>) -> Seq<char>
    decreases c.len(),
{
    if c.len() > 0 && is_unicode_whitespace(c.last()) {
        trim_end(c.drop_last())
    } else {
        c
    }
}

/// `str::trim`: `c` without leading and trailing white space.
pub open spec fn trim(c: Seq<char>) -> Seq<char> {
    trim_end(trim_start(c))
}

pub proof fn lemma_trim_start(c: Seq<char>, i: int)
    requires
        0 <= i <= c.len(),
        forall|j: int| 0 <= j < i ==> is_unicode_whitespace(#[trigger] c[j]),
        i == c.len() || !is_unicode_whitespace(c[i]),
    ensures
        trim_start(c) == c.subrange(i, c.len() as int),
    decreases i,
{
    if i == 0 {
        assert(c.subrange(0, c.len() as int) =~= c);
    } else {
        assert(c.drop_first().subrange(i - 1, c.drop_first().len() as int) =~= c.subrange(
            i,
            c.len() as int,
        ));
        lemma_trim_start(c.drop_first(), i - 1);
    }
}

proof fn lemma_trim_end(c: Seq<char>, j: int)
    requires
        0 <= j <= c.len(),
        forall|k: int| j <= k < c.len() ==> is_unicode_whitespace(#[trigger] c[k]),
        j == 0 || !is_unicode_whitespace(c[j - 1]),
    ensures
        trim_end(c) == c.subrange(0, j),
    decreases c.len() - j,
{
    if j == c.len() {
        assert(c.subrange(0, j) =~= c);
    } else {
        assert(c.drop_last().subrange(0, j) =~= c.subrange(0, j));
        lemma_trim_end(c.drop_last(), j);
    }
}

/// The characters `v[a..b]`.
pub fn sub_chars(v: &Vec<char>, a: usize, b: usize) -> (r: Vec<char>)
    requires
        a <= b <= v@.len(),
    ensures
        r@ == v@.subrange(a as int, b as int),
{
    let mut r: Vec<char> = Vec::new();
    let mut i = a;
    while i < b
        invariant
            a <= i <= b <= v@.len(),
            r@ == v@.subrange(a as int, i as int),
        decreases b - i,
    {
        r.push(v[i]);
        i = i + 1;
    }
    r
}

/// A string of the given characters.
pub fn string_of_chars(v: &Vec<char>) -> (r: String)
    ensures
        r@ == v@,
{
    let mut r = String::new();
    let mut i: usize = 0;
    while i < v.len()
        invariant
            i <= v@.len(),
            r@ == v@.subrange(0, i as int),
        decreases v@.len() - i,
    {
        push_char(&mut r, v[i]);
        i = i + 1;
    }
    assert(r@ =~= v@);
    r
}

/// The characters of `s` without leading and trailing white space.
pub fn trim_chars(s: &str) -> (r: Vec<char>)
    ensures
        r@ == trim(s@),
{
    let cs = crate::text::chars_of(s);
    let mut i: usize = 0;
    while i < cs.len() && char_is_whitespace(cs[i])
        invariant
            i <= cs@.len(),
            forall|j: int| 0 <= j < i ==> is_unicode_whitespace(#[trigger] cs@[j]),
        decreases cs@.len() - i,
    {
        i = i + 1;
    }
    let mut j: usize = cs.len();
    while j > i && char_is_whitespace(cs[j - 1])
        invariant
            i <= j <= cs@.len(),
            forall|k: int| j <= k < cs@.len() ==> is_unicode_whitespace(#[trigger] cs@[k]),
        decreases j,
    {
        j = j - 1;
    }
    proof {
        lemma_trim_start(cs@, i as int);
        let t = cs@.subrange(i as int, cs@.len() as int);
        assert forall|k: int| j - i <= k < t.len() implies is_unicode_whitespace(#[trigger] t[k]) by {
            assert(t[k] == cs@[k + i]);
        }
        if j > i {
            assert(t[j - i - 1] == cs@[j - 1]);
        }
        lemma_trim_end(t, j - i);
        assert(t.subrange(0, j - i) =~= cs@.subrange(i as int, j as int));
    }
    sub_chars(&cs, i, j)
}

/// `str::trim`, as a new string.
pub fn trim_str(s: &str) -> (r: String)
    ensures
        r@ == trim(s@),
{
    let t = trim_chars(s);
    string_of_chars(&t)
}

/// `FromStr` for an integer type whose values run from `lo` to `hi`:
/// an optional sign (`-` only for a signed type), then one or more
/// decimal digits, within range.
pub open spec fn parse_int_spec(s: Seq<char>, signed: bool, lo: int, hi: int) -> Option<int> {
    if s.len() == 0 || ((s[0] == '+' || s[0] == '-') && s.len() == 1) {
        None
    } else {
        let neg = signed && s[0] == '-';
        let d = if s[0] == '+' || neg {
            s.drop_first()
        } else {
            s
        };
        if all_digits(d) {
            let v = if neg {
                -(digits_value(d) as int)
            } else {
                digits_value(d) as int
            };
            if lo <= v <= hi {
                Some(v)
            } else {
                None
            }
        } else {
            None
        }
    }
}

/// `FromStr` for an integer type whose values run from `lo` to `hi`.
pub fn parse_int(cs: &Vec<char>, signed: bool, lo: i128, hi: i128) -> (r: Option<i128>)
    requires
        -0x1_0000_0000_0000_0000 <= lo <= 0 <= hi <= 0xFFFF_FFFF_FFFF_FFFF,
    ensures
        match parse_int_spec(cs@, signed, lo as int, hi as int) {
            Some(v) => r == Some(v as i128),
            None => r is None,
        },
{
    let n = cs.len();
    if n == 0 {
        return None;
    }
    let c0 = cs[0];
    if (c0 == '+' || c0 == '-') && n == 1 {
        return None;
    }
    let neg = signed && c0 == '-';
    let start: usize = if c0 == '+' || neg {
        1
    } else {
        0
    };
    let ghost d = cs@.subrange(start as int, n as int);
    assert(d =~= (if cs@[0] == '+' || neg {
        cs@.drop_first()
    } else {
        cs@
    }));
    let limit: u128 = if neg {
        (0 - lo) as u128
    } else {
        hi as u128
    };
    let mut mag: u128 = 0;
    let mut k = start;
    while k < n
        invariant
            start <= k <= n,
            n == cs@.len(),
            n > 0,
            !((cs@[0] == '+' || cs@[0] == '-') && n == 1),
            neg == (signed && cs@[0] == '-'),
            d == (if cs@[0] == '+' || neg {
                cs@.drop_first()
            } else {
                cs@
            }),
            limit == (if neg {
                -lo
            } else {
                hi as int
            }),
            d == cs@.subrange(start as int, n as int),
            limit <= 0x1_0000_0000_0000_0000,
            mag <= limit,
            mag == digits_value(d.subrange(0, k - start)),
            forall|i: int| 0 <= i < k - start ==> is_digit(#[trigger] d[i]),
        decreases n - k,
    {
        let c = cs[k];
        if !('0' <= c && c <= '9') {
            assert(d[k - start] == c);
            assert(!all_digits(d));
            return None;
        }
        assert(d[k - start] == c);
        assert(d.subrange(0, k + 1 - start).drop_last() =~= d.subrange(0, k - start));
        mag = mag * 10 + ((c as u32) - 48) as u128;
        if mag > limit {
            proof {
                lemma_digits_prefix(d, k + 1 - start);
            }
            return None;
        }
        k = k + 1;
    }
    assert(d.subrange(0, k - start) =~= d);
    if neg {
        Some(0 - (mag as i128))
    } else {
        Some(mag as i128)
    }
}

/// ASCII lower-casing of a character.
pub open spec fn ascii_lower_char(c: char) -> char {
    if 'A' <= c <= 'Z' {
        ((c as u32) + 32) as char
    } else {
        c
    }
}

/// ASCII lower-casing of a character sequence.
pub open spec fn ascii_lower_seq(s: Seq<char>) -> Seq<char> {
    Seq::new(s.len(), |i: int| ascii_lower_char(s[i]))
}

/// ASCII lower-casing of a character sequence.
pub fn to_ascii_lower(v: &Vec<char>) -> (r: Vec<char>)
    ensures
        r@ == ascii_lower_seq(v@),
{
    let mut r: Vec<char> = Vec::new();
    let mut i: usize = 0;
    while i < v.len()
        invariant
            i <= v@.len(),
            r@.len() == i,
            forall|j: int| 0 <= j < i ==> #[trigger] r@[j] == ascii_lower_char(v@[j]),
        decreases v@.len() - i,
    {
        let c = v[i];
        let l = if 'A' <= c && c <= 'Z' {
            match core::char::from_u32((c as u32) + 32) {
                Some(x) => x,
                None => c,
            }
        } else {
            c
        };
        r.push(l);
        i = i + 1;
    }
    assert(r@ =~= ascii_lower_seq(v@));
    r
}

/// Whether the characters are exactly those of `s`.
pub fn chars_are(v: &Vec<char>, s: &str) -> (r: bool)
    ensures
        r == (v@ == s@),
{
    let w = crate::text::chars_of(s);
    if v.len() != w.len() {
        return false;
    }
    let mut i: usize = 0;
    while i < v.len()
        invariant
            v@.len() == w@.len(),
            w@ == s@,
            i <= v@.len(),
            forall|j: int| 0 <= j < i ==> v@[j] == w@[j],
        decreases v@.len() - i,
    {
        if v[i] != w[i] {
            return false;
        }
        i = i + 1;
    }
    assert(v@ =~= w@);
    true
}

/// A CLIXML boolean: `true` / `1` or `false` / `0`, ignoring ASCII case
/// and surrounding white space.
pub open spec fn parse_bool_spec(text: Seq<char>) -> Option<bool> {
    let l = ascii_lower_seq(trim(text));
    if l == "true"@ || l == "1"@ {
        Some(true)
    } else if l == "false"@ || l == "0"@ {
        Some(false)
    } else {
        None
    }
}

/// A CLIXML boolean.
pub fn parse_bool(text: &str) -> (r: Option<bool>)
    ensures
        r == parse_bool_spec(text@),
{
    let t = trim_chars(text);
    let l = to_ascii_lower(&t);
    if chars_are(&l, "true") || chars_are(&l, "1") {
        Some(true)
    } else if chars_are(&l, "false") || chars_are(&l, "0") {
        Some(false)
    } else {
        None
    }
}

/// The index of the first `a` or `b` in `s`, or its length.
pub open spec fn first_index_of(s: Seq<char>, a: char, b: char) -> nat
    decreases s.len(),
{
    if s.len() == 0 {
        0
    } else if s[0] == a || s[0] == b {
        0
    } else {
        1 + first_index_of(s.drop_first(), a, b)
    }
}

/// The digits before and after an optional `.`, at least one in all.
pub open spec fn mantissa_syntax(m: Seq<char>) -> bool {
    let p = first_index_of(m, '.', '.');
    let ip = m.subrange(0, p as int);
    let fp = if p < m.len() {
        m.subrange(p as int + 1, m.len() as int)
    } else {
        Seq::empty()
    };
    all_digits(ip) && all_digits(fp) && ip.len() + fp.len() > 0
}

/// An optional sign, then one or more digits.
pub open spec fn exponent_syntax(x: Seq<char>) -> bool {
    let y = if x.len() > 0 && (x[0] == '+' || x[0] == '-') {
        x.drop_first()
    } else {
        x
    };
    y.len() > 0 && all_digits(y)
}

/// A mantissa, then optionally `e` or `E` and an exponent.
pub open spec fn number_syntax(b: Seq<char>) -> bool {
    let e = first_index_of(b, 'e', 'E');
    mantissa_syntax(b.subrange(0, e as int)) && (e == b.len() || exponent_syntax(
        b.subrange(e as int + 1, b.len() as int),
    ))
}

/// The syntax `f64::from_str` accepts: an optional sign, then `inf`,
/// `infinity` or `nan` in any ASCII case, or a decimal number with an
/// optional exponent.
pub open spec fn float_syntax(s: Seq<char>) -> bool {
    let b = if s.len() > 0 && (s[0] == '+' || s[0] == '-') {
        s.drop_first()
    } else {
        s
    };
    let l = ascii_lower_seq(b);
    l == "inf"@ || l == "infinity"@ || l == "nan"@ || number_syntax(b)
}

/// The index of the first `a` or `b` in `v`, or its length.
fn find_either(v: &Vec<char>, a: char, b: char) -> (r: usize)
    ensures
        r as nat == first_index_of(v@, a, b),
        r <= v@.len(),
{
    let mut i: usize = 0;
    assert(v@.subrange(0, v@.len() as int) =~= v@);
    while i < v.len() && v[i] != a && v[i] != b
        invariant
            i <= v@.len(),
            first_index_of(v@, a, b) == i + first_index_of(v@.subrange(i as int, v@.len() as int), a, b),
        decreases v@.len() - i,
    {
        assert(v@.subrange(i as int, v@.len() as int).drop_first() =~= v@.subrange(
            i + 1,
            v@.len() as int,
        ));
        i = i + 1;
    }
    i
}

/// Whether every character is a decimal digit.
fn every_digit(v: &Vec<char>) -> (r: bool)
    ensures
        r == all_digits(v@),
{
    let mut i: usize = 0;
    while i < v.len()
        invariant
            i <= v@.len(),
            forall|j: int| 0 <= j < i ==> is_digit(#[trigger] v@[j]),
        decreases v@.len() - i,
    {
        if !('0' <= v[i] && v[i] <= '9') {
            assert(!is_digit(v@[i as int]));
            return false;
        }
        i = i + 1;
    }
    true
}

fn is_mantissa(m: &Vec<char>) -> (r: bool)
    ensures
        r == mantissa_syntax(m@),
{
    let p = find_either(m, '.', '.');
    let ip = sub_chars(m, 0, p);
    let fp = if p < m.len() {
        sub_chars(m, p + 1, m.len())
    } else {
        Vec::new()
    };
    assert(fp@ =~= (if p < m@.len() {
        m@.subrange(p + 1, m@.len() as int)
    } else {
        Seq::empty()
    }));
    every_digit(&ip) && every_digit(&fp) && (ip.len() > 0 || fp.len() > 0)
}

fn is_exponent(x: &Vec<char>) -> (r: bool)
    ensures
        r == exponent_syntax(x@),
{
    let y = if x.len() > 0 && (x[0] == '+' || x[0] == '-') {
        sub_chars(x, 1, x.len())
    } else {
        sub_chars(x, 0, x.len())
    };
    assert(y@ =~= (if x@.len() > 0 && (x@[0] == '+' || x@[0] == '-') {
        x@.drop_first()
    } else {
        x@
    }));
    y.len() > 0 && every_digit(&y)
}

/// Whether a (trimmed) text is a floating-point number `f64::from_str`
/// accepts.
pub fn is_float_syntax(s: &Vec<char>) -> (r: bool)
    ensures
        r == float_syntax(s@),
{
    let b = if s.len() > 0 && (s[0] == '+' || s[0] == '-') {
        sub_chars(s, 1, s.len())
    } else {
        sub_chars(s, 0, s.len())
    };
    assert(b@ =~= (if s@.len() > 0 && (s@[0] == '+' || s@[0] == '-') {
        s@.drop_first()
    } else {
        s@
    }));
    let l = to_ascii_lower(&b);
    if chars_are(&l, "inf") || chars_are(&l, "infinity") || chars_are(&l, "nan") {
        return true;
    }
    let e = find_either(&b, 'e', 'E');
    let m = sub_chars(&b, 0, e);
    if !is_mantissa(&m) {
        return false;
    }
    if e == b.len() {
        true
    } else {
        let x = sub_chars(&b, e + 1, b.len());
        is_exponent(&x)
    }
}

} // verus!
