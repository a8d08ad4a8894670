//! The texts the decoder takes as `<Db>` and `<Sg>` content: every text
//! `f64::from_str` reads as a number, written part by part as its
//! documentation gives the grammar.

use vstd::prelude::*;
use crate::text::all_digits;
use super::view::PsView;
use super::scalars::{float_syntax, first_index_of, ascii_lower_seq, trim};
use super::base64::is_unicode_whitespace;
use super::decode::{primitive_value, DecodeError};

verus! {

/// An optional sign: nothing, `+` or `-`.
pub open spec fn sign_text(s: Seq<char>) -> bool {
    s.len() == 0 || s == seq!['+'] || s == seq!['-']
}

/// A decimal number as `f64::from_str` reads one: the sign, the digits
/// before the point, the point if `dot`, the digits after it, then the
/// exponent if any: `e` or `E`, its sign and its digits.
pub open spec fn decimal_text(
    sign: Seq<char>,
    int_digits: Seq<char>,
    dot: bool,
    frac_digits: Seq<char>,
    exp: Option<(char, Seq<char>, Seq<char>)>,
) -> Seq<char> {
    sign + int_digits + point_text(dot) + frac_digits + exponent_text(exp)
}

/// Whether the parts form a number `f64::from_str` accepts: an optional
/// sign, at least one digit in the mantissa (digits after the point only
/// when there is a point), and an exponent of `e` or `E`, an optional
/// sign and at least one digit.
pub open spec fn decimal_parts(
    sign: Seq<char>,
    int_digits: Seq<char>,
    dot: bool,
    frac_digits: Seq<char>,
    exp: Option<(char, Seq<char>, Seq<char>)>,
) -> bool {
    &&& sign_text(sign)
    &&& all_digits(int_digits)
    &&& all_digits(frac_digits)
    &&& int_digits.len() + frac_digits.len() > 0
    &&& (!dot ==> frac_digits.len() == 0)
    &&& (exp matches Some((e, es, ed)) ==> (e == 'e' || e == 'E') && sign_text(es) && ed.len() > 0
        && all_digits(ed))
}

/// Where no `a` or `b` occurs in `x`, the first one in `x + y` is the
/// first one in `y`, shifted by the length of `x`.
proof fn lemma_first_index_concat(x: Seq<char>, y: Seq<char>, a: char, b: char)
    requires
        forall|i: int| 0 <= i < x.len() ==> #[trigger] x[i] != a && x[i] != b,
    ensures
        first_index_of(x + y, a, b) == x.len() + first_index_of(y, a, b),
    decreases x.len(),
{
    if x.len() > 0 {
        assert((x + y).drop_first() =~= x.drop_first() + y);
        lemma_first_index_concat(x.drop_first(), y, a, b);
    } else {
        assert(x + y =~= y);
    }
}

/// The characters of a decimal number are digits, signs, the point and
/// `e` or `E`: no white space.
proof fn lemma_number_chars(c: char)
    requires
        ('0' <= c <= '9') || c == '+' || c == '-' || c == '.' || c == 'e' || c == 'E',
    ensures
        !is_unicode_whitespace(c),
{
}

/// The text of an optional point.
pub open spec fn point_text(dot: bool) -> Seq<char> {
    if dot {
        seq!['.']
    } else {
        Seq::empty()
    }
}

/// The text of an optional exponent.
pub open spec fn exponent_text(exp: Option<(char, Seq<char>, Seq<char>)>) -> Seq<char> {
    match exp {
        Some((e, es, ed)) => seq![e] + es + ed,
        None => Seq::empty(),
    }
}

/// A mantissa of digits around an optional point is mantissa syntax,
/// and holds no `e` or `E`.
proof fn lemma_mantissa(int_digits: Seq<char>, dot: bool, frac_digits: Seq<char>)
    requires
        all_digits(int_digits),
        all_digits(frac_digits),
        int_digits.len() + frac_digits.len() > 0,
        !dot ==> frac_digits.len() == 0,
    ensures
        super::scalars::mantissa_syntax(int_digits + point_text(dot) + frac_digits),
        forall|i: int|
            0 <= i < (int_digits + point_text(dot) + frac_digits).len() ==> #[trigger] (int_digits
                + point_text(dot) + frac_digits)[i] != 'e' && (int_digits + point_text(dot)
                + frac_digits)[i] != 'E' && !is_unicode_whitespace(
                (int_digits + point_text(dot) + frac_digits)[i],
            ) && (int_digits + point_text(dot) + frac_digits)[i] != '+' && (int_digits
                + point_text(dot) + frac_digits)[i] != '-',
{
    let d = point_text(dot);
    let m = int_digits + d + frac_digits;
    assert forall|i: int| 0 <= i < m.len() implies #[trigger] m[i] != 'e' && m[i] != 'E'
        && !is_unicode_whitespace(m[i]) && m[i] != '+' && m[i] != '-' by {
        if i < int_digits.len() {
            assert(m[i] == int_digits[i]);
            assert(crate::text::is_digit(int_digits[i]));
        } else if i < int_digits.len() + d.len() {
            assert(m[i] == '.');
        } else {
            assert(m[i] == frac_digits[i - int_digits.len() - d.len()]);
            assert(crate::text::is_digit(frac_digits[i - int_digits.len() - d.len()]));
        }
        lemma_number_chars(m[i]);
    }
    assert forall|i: int| 0 <= i < int_digits.len() implies #[trigger] int_digits[i] != '.'
        && int_digits[i] != '.' by {
        assert(crate::text::is_digit(int_digits[i]));
    }
    lemma_first_index_concat(int_digits, d + frac_digits, '.', '.');
    assert(m =~= int_digits + (d + frac_digits));
    let p = first_index_of(m, '.', '.');
    if dot {
        assert((d + frac_digits)[0] == '.');
        assert(first_index_of(d + frac_digits, '.', '.') == 0);
        assert(m.subrange(0, p as int) =~= int_digits);
        assert(m.subrange(p as int + 1, m.len() as int) =~= frac_digits);
    } else {
        assert(d + frac_digits =~= Seq::<char>::empty());
        assert(first_index_of(d + frac_digits, '.', '.') == 0);
        assert(m =~= int_digits);
        assert(m.subrange(0, p as int) =~= int_digits);
    }
}

/// An exponent starts with its `e` or `E`, is exponent syntax after it,
/// and holds no white space.
proof fn lemma_exponent(c: char, es: Seq<char>, ed: Seq<char>)
    requires
        c == 'e' || c == 'E',
        sign_text(es),
        ed.len() > 0,
        all_digits(ed),
    ensures
        first_index_of(seq![c] + es + ed, 'e', 'E') == 0,
        super::scalars::exponent_syntax(es + ed),
        forall|i: int|
            0 <= i < (seq![c] + es + ed).len() ==> !is_unicode_whitespace(
                #[trigger] (seq![c] + es + ed)[i],
            ),
{
    let x = seq![c] + es + ed;
    assert(x[0] == c);
    let y = es + ed;
    if es.len() == 0 {
        assert(y =~= ed);
        assert(crate::text::is_digit(ed[0]));
    } else {
        assert(y[0] == es[0]);
        assert(y.drop_first() =~= ed);
    }
    assert forall|i: int| 0 <= i < x.len() implies !is_unicode_whitespace(#[trigger] x[i]) by {
        if i == 0 {
        } else if i < 1 + es.len() {
            assert(x[i] == es[i - 1]);
        } else {
            assert(x[i] == ed[i - 1 - es.len()]);
            assert(crate::text::is_digit(ed[i - 1 - es.len()]));
        }
        lemma_number_chars(x[i]);
    }
}

/// Every decimal number `f64::from_str` accepts, with or without an
/// exponent, is float syntax, and holds no white space.
pub proof fn lemma_decimal_float_syntax(
    sign: Seq<char>,
    int_digits: Seq<char>,
    dot: bool,
    frac_digits: Seq<char>,
    exp: Option<(char, Seq<char>, Seq<char>)>,
)
    requires
        decimal_parts(sign, int_digits, dot, frac_digits, exp),
    ensures
        float_syntax(decimal_text(sign, int_digits, dot, frac_digits, exp)),
        forall|i: int|
            0 <= i < decimal_text(sign, int_digits, dot, frac_digits, exp).len()
                ==> !is_unicode_whitespace(
                #[trigger] decimal_text(sign, int_digits, dot, frac_digits, exp)[i],
            ),
{
    let t = decimal_text(sign, int_digits, dot, frac_digits, exp);
    let m = int_digits + point_text(dot) + frac_digits;
    let x = exponent_text(exp);
    let b = m + x;
    assert(t =~= sign + b);
    lemma_mantissa(int_digits, dot, frac_digits);
    lemma_first_index_concat(m, x, 'e', 'E');
    match exp {
        Some((c, es, ed)) => {
            lemma_exponent(c, es, ed);
            assert(b.subrange(m.len() as int + 1, b.len() as int) =~= es + ed);
        },
        None => {
            assert(x.len() == 0);
        },
    }
    assert(b.subrange(0, m.len() as int) =~= m);
    assert(super::scalars::number_syntax(b));
    assert(m.len() > 0);
    assert(b[0] == m[0]);
    if sign.len() == 0 {
        assert(t =~= b);
    } else {
        assert(t[0] == sign[0]);
        assert(t.drop_first() =~= b);
    }
    assert forall|i: int| 0 <= i < t.len() implies !is_unicode_whitespace(#[trigger] t[i]) by {
        if i < sign.len() {
            assert(t[i] == sign[i]);
            lemma_number_chars(t[i]);
        } else if i < sign.len() + m.len() {
            assert(t[i] == m[i - sign.len()]);
        } else {
            assert(t[i] == x[i - sign.len() - m.len()]);
        }
    }
}

/// The decoder takes a text of float syntax with no white space at
/// either end as the content of a `<Db>` or an `<Sg>`, as it is.
pub proof fn lemma_float_content(t: Seq<char>)
    requires
        float_syntax(t),
        t.len() == 0 || (!is_unicode_whitespace(t[0]) && !is_unicode_whitespace(t.last())),
    ensures
        primitive_value("Db"@, t) == Ok::<_, DecodeError>(PsView::Double(t)),
        primitive_value("Sg"@, t) == Ok::<_, DecodeError>(PsView::F32(t)),
{
    reveal_strlit("S");
    reveal_strlit("I32");
    reveal_strlit("I64");
    reveal_strlit("B");
    reveal_strlit("Db");
    reveal_strlit("Sg");
    assert("S"@.len() == 1 && "B"@.len() == 1 && "I32"@.len() == 3 && "I64"@.len() == 3);
    assert("Db"@[0] == 'D' && "Sg"@[0] == 'S' && "Sg"@[1] == 'g' && "Db"@.len() == 2
        && "Sg"@.len() == 2);
    assert(trim(t) == t);
}

/// Every decimal number `f64::from_str` accepts, with or without an
/// exponent, is read by the decoder as the content of a `<Db>` or an
/// `<Sg>` as it is.
pub proof fn lemma_decimal_floats_accepted(
    sign: Seq<char>,
    int_digits: Seq<char>,
    dot: bool,
    frac_digits: Seq<char>,
    exp: Option<(char, Seq<char>, Seq<char>)>,
)
    requires
        decimal_parts(sign, int_digits, dot, frac_digits, exp),
    ensures
        float_syntax(decimal_text(sign, int_digits, dot, frac_digits, exp)),
        primitive_value("Db"@, decimal_text(sign, int_digits, dot, frac_digits, exp))
            == Ok::<_, DecodeError>(
            PsView::Double(decimal_text(sign, int_digits, dot, frac_digits, exp)),
        ),
        primitive_value("Sg"@, decimal_text(sign, int_digits, dot, frac_digits, exp))
            == Ok::<_, DecodeError>(
            PsView::F32(decimal_text(sign, int_digits, dot, frac_digits, exp)),
        ),
{
    let t = decimal_text(sign, int_digits, dot, frac_digits, exp);
    lemma_decimal_float_syntax(sign, int_digits, dot, frac_digits, exp);
    if t.len() > 0 {
        assert(!is_unicode_whitespace(t[0]));
        assert(!is_unicode_whitespace(t[t.len() - 1]));
    }
    lemma_float_content(t);
}

/// `inf`, `infinity` and `nan`, in any ASCII case and with an optional
/// sign, are float syntax too, as `f64::from_str` takes them.
pub proof fn lemma_special_floats_accepted(sign: Seq<char>, word: Seq<char>)
    requires
        sign_text(sign),
        ascii_lower_seq(word) == "inf"@ || ascii_lower_seq(word) == "infinity"@
            || ascii_lower_seq(word) == "nan"@,
    ensures
        float_syntax(sign + word),
{
    reveal_strlit("inf");
    reveal_strlit("infinity");
    reveal_strlit("nan");
    let t = sign + word;
    assert(ascii_lower_seq(word).len() == word.len());
    assert(word.len() > 0);
    assert(word[0] != '+' && word[0] != '-') by {
        assert(ascii_lower_seq(word)[0] == super::scalars::ascii_lower_char(word[0]));
    }
    if sign.len() == 0 {
        assert(t =~= word);
    } else {
        assert(t[0] == sign[0]);
        assert(t.drop_first() =~= word);
    }
}

} // verus!
