//! XML escaping for CLIXML text and attribute values.

use vstd::prelude::*;
use crate::text::{push_char, push_hex4_upper, hex4_upper, strip_plus};

verus! {

/// PowerShell's `_xHHHH_` spelling of a code point.
pub open spec fn pwsh_escape_of(c: char) -> Seq<char> {
    "_x"@ + hex4_upper((c as u32) as nat) + "_"@
}

/// The escaped form of one character. In attribute position (`attribute`)
/// `\t`, `\n` and `\r` are escaped too, since XML attribute-value
/// normalisation would otherwise fold them into spaces.
pub open spec fn escape_char(c: char, attribute: bool) -> Seq<char> {
    if c == '<' {
        "&lt;"@
    } else if c == '>' {
        "&gt;"@
    } else if c == '&' {
        "&amp;"@
    } else if c == '"' {
        "&quot;"@
    } else if c == '\'' {
        "&apos;"@
    } else if (c == '\t' || c == '\n' || c == '\r') && attribute {
        pwsh_escape_of(c)
    } else if (c as u32) < 0x20 && c != '\t' && c != '\n' && c != '\r' {
        pwsh_escape_of(c)
    } else {
        seq![c]
    }
}

/// The escaped form of a string: each character escaped in turn.
pub open spec fn escape_spec(s: Seq<char>, attribute: bool) -> Seq<char>
    decreases s.len(),
{
    if s.len() == 0 {
        Seq::empty()
    } else {
        escape_spec(s.drop_last(), attribute) + escape_char(s.last(), attribute)
    }
}

/// Escape a string for XML **text** content.
///
/// `<`, `>`, `&`, `"` and `'` become entity references; control
/// characters below 0x20 other than `\t`, `\n` and `\r` become
/// PowerShell's `_xHHHH_` escapes.
pub fn escape(s: &str) -> (r: String)
    ensures
        r@ == escape_spec(s@, false),
{
    escape_inner(s, false)
}

/// Escape a string for an XML **attribute value** (`N="…"`): as
/// [`escape`], and `\t`, `\n` and `\r` become `_xHHHH_` escapes as well.
pub fn escape_attr(s: &str) -> (r: String)
    ensures
        r@ == escape_spec(s@, true),
{
    escape_inner(s, true)
}

/// Appends the escaped form of `s` to `out`.
pub fn push_escaped(out: &mut String, s: &str, attribute: bool)
    ensures
        final(out)@ == old(out)@ + escape_spec(s@, attribute),
{
    broadcast use vstd::string::group_string_axioms;
    let ghost start = out@;
    for c in it: s.chars()
        invariant
            it.seq() == s@,
            out@ == start + escape_spec(s@.take(it.index() as int), attribute),
    {
        let ghost i = it.index();
        assert(s@.take(i + 1).drop_last() =~= s@.take(i as int));
        assert(s@.take(i + 1).last() == c);
        let ghost before = out@;
        if c == '<' {
            out.append("&lt;");
        } else if c == '>' {
            out.append("&gt;");
        } else if c == '&' {
            out.append("&amp;");
        } else if c == '"' {
            out.append("&quot;");
        } else if c == '\'' {
            out.append("&apos;");
        } else if (c == '\t' || c == '\n' || c == '\r') && attribute {
            out.append("_x");
            push_hex4_upper(out, c as u32);
            out.append("_");
        } else if (c as u32) < 0x20 && c != '\t' && c != '\n' && c != '\r' {
            out.append("_x");
            push_hex4_upper(out, c as u32);
            out.append("_");
            assert(out@ =~= before + pwsh_escape_of(c));
        } else {
            push_char(out, c);
            assert(out@ =~= before + seq![c]);
        }
        assert(out@ =~= before + escape_char(c, attribute));
        assert(out@ =~= start + escape_spec(s@.take(i + 1), attribute));
    }
    assert(s@.take(s@.len() as int) =~= s@);
}

fn escape_inner(s: &str, attribute: bool) -> (r: String)
    ensures
        r@ == escape_spec(s@, attribute),
{
    let mut out = String::new();
    push_escaped(&mut out, s, attribute);
    out
}

} // verus!

verus! {

/// `char::from_u32`: the `char` of a Unicode scalar value, `None` for a
/// surrogate or a value past `0x10FFFF`.
pub assume_specification[ core::char::from_u32 ](i: u32) -> (r: Option<char>)
    ensures
        r == (if i < 0xD800 || (0xE000 <= i && i <= 0x10FFFF) {
            Some(i as char)
        } else {
            None
        }),
;

/// A hexadecimal digit, either case.
pub open spec fn is_hex_digit(c: char) -> bool {
    ('0' <= c <= '9') || ('a' <= c <= 'f') || ('A' <= c <= 'F')
}

/// The value of a hexadecimal digit.
pub open spec fn hex_digit_value(c: char) -> nat {
    if '0' <= c <= '9' {
        (c as int - 48) as nat
    } else if 'a' <= c <= 'f' {
        (c as int - 87) as nat
    } else {
        (c as int - 55) as nat
    }
}

/// The value of a run of hexadecimal digits.
pub open spec fn hex_value(d: Seq<char>) -> nat
    decreases d.len(),
{
    if d.len() == 0 {
        0
    } else {
        hex_value(d.drop_last()) * 16 + hex_digit_value(d.last())
    }
}

/// Every character is a hexadecimal digit.
pub open spec fn all_hex(d: Seq<char>) -> bool {
    forall|i: int| 0 <= i < d.len() ==> is_hex_digit(#[trigger] d[i])
}

/// `u32::from_str_radix(h, 16)` on four characters: an optional `+`,
/// then hexadecimal digits only.
pub open spec fn hex4_code(h: Seq<char>) -> Option<nat> {
    let d = strip_plus(h);
    if d.len() > 0 && all_hex(d) {
        Some(hex_value(d))
    } else {
        None
    }
}

/// The character of a `_xHHHH_` escape starting at `c[k]`, if one does.
pub open spec fn escape_code(c: Seq<char>, k: int) -> Option<char> {
    if 0 <= k && k + 7 <= c.len() && c[k] == '_' && c[k + 1] == 'x' && c[k + 6] == '_' {
        match hex4_code(c.subrange(k + 2, k + 6)) {
            Some(v) => if v < 0xD800 || (0xE000 <= v && v <= 0x10FFFF) {
                Some(v as char)
            } else {
                None
            },
            None => None,
        }
    } else {
        None
    }
}

/// `c[k..]` with every `_xHHHH_` escape replaced by its character.
pub open spec fn unescape_from(c: Seq<char>, k: nat) -> Seq<char>
    decreases c.len() - k,
{
    if k >= c.len() {
        Seq::empty()
    } else {
        match escape_code(c, k as int) {
            Some(ch) => seq![ch] + unescape_from(c, k + 7),
            None => seq![c[k as int]] + unescape_from(c, k + 1),
        }
    }
}

/// The value of one hexadecimal digit.
fn hex_digit(c: char) -> (r: Option<u32>)
    ensures
        r == (if is_hex_digit(c) {
            Some(hex_digit_value(c) as u32)
        } else {
            None
        }),
{
    if '0' <= c && c <= '9' {
        Some((c as u32) - 48)
    } else if 'a' <= c && c <= 'f' {
        Some((c as u32) - 87)
    } else if 'A' <= c && c <= 'F' {
        Some((c as u32) - 55)
    } else {
        None
    }
}

/// The character of a `_xHHHH_` escape at `cs[i]`, if one starts there.
fn escape_at(cs: &Vec<char>, i: usize) -> (r: Option<char>)
    requires
        i < cs@.len(),
    ensures
        r == escape_code(cs@, i as int),
{
    if cs.len() - i >= 7 && cs[i] == '_' && cs[i + 1] == 'x' && cs[i + 6] == '_' {
        let ghost h = cs@.subrange(i + 2, i + 6);
        let mut k = i + 2;
        if cs[k] == '+' {
            k = k + 1;
        }
        let ghost d = cs@.subrange(k as int, i + 6);
        assert(d =~= strip_plus(h));
        let k0 = k;
        let end = i + 6;
        let mut v: u32 = 0;
        while k < end
            invariant
                end == i + 6,
                i + 2 <= k0 <= k <= end,
                k0 < end,
                end < cs@.len(),
                h == cs@.subrange(i + 2, i + 6),
                d == strip_plus(h),
                d == cs@.subrange(k0 as int, end as int),
                v == hex_value(d.subrange(0, k - k0)),
                v < pow16(k - k0),
                forall|j: int| 0 <= j < k - k0 ==> is_hex_digit(#[trigger] d[j]),
            decreases end - k,
        {
            proof {
                reveal_with_fuel(pow16, 5);
            }
            match hex_digit(cs[k]) {
                Some(x) => {
                    assert(d.subrange(0, k + 1 - k0).drop_last() =~= d.subrange(0, k - k0));
                    assert(d[k - k0] == cs@[k as int]);
                    assert(v * 16 + x < pow16(k + 1 - k0)) by (nonlinear_arith)
                        requires
                            v < pow16(k - k0),
                            x < 16,
                            pow16(k + 1 - k0) == 16 * pow16(k - k0),
                    ;
                    v = v * 16 + x;
                    k = k + 1;
                },
                None => {
                    assert(d[k - k0] == cs@[k as int]);
                    assert(!is_hex_digit(d[k - k0]));
                    assert(!all_hex(d));
                    return None;
                },
            }
        }
        assert(d.subrange(0, k - k0) =~= d);
        core::char::from_u32(v)
    } else {
        None
    }
}

/// The bound `16^n` on an `n`-digit hexadecimal value.
pub open spec fn pow16(n: int) -> nat
    decreases n,
{
    if n <= 0 {
        1
    } else {
        16 * pow16(n - 1)
    }
}

/// Decode the `_xHHHH_` escapes that PowerShell writes for control
/// characters; every other character is copied as it is.
pub fn decode_pwsh_escapes(s: &str) -> (r: String)
    ensures
        r@ == unescape_from(s@, 0),
{
    let cs = crate::text::chars_of(s);
    let mut out = String::new();
    let mut i: usize = 0;
    while i < cs.len()
        invariant
            cs@ == s@,
            i <= cs@.len(),
            unescape_from(cs@, 0) == out@ + unescape_from(cs@, i as nat),
        decreases cs@.len() - i,
    {
        match escape_at(&cs, i) {
            Some(c) => {
                push_char(&mut out, c);
                i = i + 7;
            },
            None => {
                push_char(&mut out, cs[i]);
                i = i + 1;
            },
        }
        assert(unescape_from(cs@, 0) =~= out@ + unescape_from(cs@, i as nat));
    }
    out
}

} // verus!

verus! {

/// PowerShell's layer of [`escape_char`]: a control character becomes
/// its `_xHHHH_` escape (in attribute position `\t`, `\n` and `\r` too);
/// every other character stays as it is.
pub open spec fn ctrl_escape_char(c: char, attribute: bool) -> Seq<char> {
    if ((c == '\t' || c == '\n' || c == '\r') && attribute) || ((c as u32) < 0x20 && c != '\t'
        && c != '\n' && c != '\r') {
        pwsh_escape_of(c)
    } else {
        seq![c]
    }
}

/// PowerShell's layer of [`escape_spec`], character by character.
pub open spec fn ctrl_escape(s: Seq<char>, attribute: bool) -> Seq<char>
    decreases s.len(),
{
    if s.len() == 0 {
        Seq::empty()
    } else {
        ctrl_escape_char(s[0], attribute) + ctrl_escape(s.drop_first(), attribute)
    }
}

/// Decoding reads only the text from its position on.
proof fn lemma_unescape_shift(a: Seq<char>, b: Seq<char>, k: nat)
    ensures
        unescape_from(a + b, a.len() + k) == unescape_from(b, k),
    decreases b.len() - k,
{
    let ab = a + b;
    let i = (a.len() + k) as int;
    if k < b.len() {
        assert(ab[i] == b[k as int]);
        if k + 7 <= b.len() {
            assert(ab[i + 1] == b[k as int + 1]);
            assert(ab[i + 6] == b[k as int + 6]);
        }
        if k + 7 <= b.len() {
            assert(ab.subrange(i + 2, i + 6) =~= b.subrange(k as int + 2, k as int + 6));
        }
        assert(escape_code(ab, i as int) == escape_code(b, k as int));
        lemma_unescape_shift(a, b, k + 1);
        if k + 7 <= b.len() {
            lemma_unescape_shift(a, b, k + 7);
        }
    }
}

/// An upper-case hexadecimal digit reads back as its value.
proof fn lemma_hex_digit(n: nat)
    requires
        n < 16,
    ensures
        is_hex_digit(crate::text::hex_upper_char(n)),
        hex_digit_value(crate::text::hex_upper_char(n)) == n,
{
}

/// The four hexadecimal digits of a control character read back as its
/// code.
proof fn lemma_hex4_control(v: nat)
    requires
        v < 0x20,
    ensures
        hex4_code(hex4_upper(v)) == Some(v),
{
    let h = hex4_upper(v);
    lemma_hex_digit(0);
    lemma_hex_digit((v / 16) % 16);
    lemma_hex_digit(v % 16);
    assert(v / 4096 == 0 && v / 256 == 0);
    assert(h[0] == crate::text::hex_upper_char(0));
    assert(h[1] == crate::text::hex_upper_char(0));
    assert(h[0] != '+');
    assert(strip_plus(h) == h);
    assert(all_hex(h));
    let d3 = h.drop_last();
    let d2 = d3.drop_last();
    let d1 = d2.drop_last();
    let d0 = d1.drop_last();
    assert(d0.len() == 0);
    assert(d1.last() == h[0]);
    assert(d2.last() == h[1]);
    assert(d3.last() == h[2]);
    assert(hex_value(d0) == 0);
    assert(hex_digit_value(h[0]) == 0);
    assert(hex_value(d1) == 0);
    assert(hex_digit_value(h[1]) == 0);
    assert(hex_value(d2) == 0);
    assert(hex_value(d3) == (v / 16) % 16);
    assert(hex_value(h) == ((v / 16) % 16) * 16 + v % 16);
}

/// PowerShell's `_xHHHH_` escapes decode back to the text they were made
/// from, as long as the text holds no `_` of its own.
pub proof fn lemma_pwsh_escape_roundtrip(s: Seq<char>, attribute: bool)
    requires
        forall|i: int| 0 <= i < s.len() ==> s[i] != '_',
    ensures
        unescape_from(ctrl_escape(s, attribute), 0) == s,
    decreases s.len(),
{
    reveal_strlit("_x");
    reveal_strlit("_");
    if s.len() > 0 {
        let c = s[0];
        let rest = s.drop_first();
        let e = ctrl_escape_char(c, attribute);
        let tail = ctrl_escape(rest, attribute);
        lemma_pwsh_escape_roundtrip(rest, attribute);
        let all = e + tail;
        if e == seq![c] {
            assert(all[0] == c);
            lemma_unescape_shift(e, tail, 0);
            assert(all.len() > 0);
            assert(unescape_from(all, 0) == seq![c] + unescape_from(all, 1));
        } else {
            let v = (c as u32) as nat;
            assert(v < 0x20);
            vstd::utf8::char_u32_cast(c, c as u32);
            assert((v as char) == c);
            lemma_hex4_control(v);
            assert(e.len() == 7);
            assert(all[0] == '_' && all[1] == 'x' && all[6] == '_');
            assert(all.subrange(2, 6) =~= hex4_upper(v));
            assert(escape_code(all, 0) == Some(c));
            lemma_unescape_shift(e, tail, 0);
            assert(unescape_from(all, 0) == seq![c] + unescape_from(all, 7));
        }
        assert(unescape_from(all, 0) =~= s);
    }
}

} // verus!
