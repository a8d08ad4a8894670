//! The standard-alphabet base64 codec behind CLIXML `<BA>` byte arrays.

use vstd::prelude::*;
use crate::text::push_char;

verus! {

/// The base64 alphabet: `A-Z`, `a-z`, `0-9`, `+`, `/`.
pub open spec fn b64_char(i: nat) -> char {
    if i < 26 {
        (65 + i) as char
    } else if i < 52 {
        (97 + (i - 26)) as char
    } else if i < 62 {
        (48 + (i - 52)) as char
    } else if i == 62 {
        '+'
    } else {
        '/'
    }
}

/// The four characters encoding three bytes.
pub open spec fn b64_group(b0: u8, b1: u8, b2: u8) -> Seq<char> {
    seq![
        b64_char((b0 >> 2u8) as nat),
        b64_char((((b0 & 3u8) << 4u8) | (b1 >> 4u8)) as nat),
        b64_char((((b1 & 15u8) << 2u8) | (b2 >> 6u8)) as nat),
        b64_char((b2 & 63u8) as nat),
    ]
}

/// The encoding of the first `k` whole three-byte groups of `b`.
pub open spec fn b64_groups(b: Seq<u8>, k: nat) -> Seq<char>
    decreases k,
{
    if k == 0 {
        Seq::empty()
    } else {
        b64_groups(b, (k - 1) as nat) + b64_group(
            b[3 * k - 3],
            b[3 * k - 2],
            b[3 * k - 1],
        )
    }
}

/// The padded encoding of the one or two bytes left after the groups.
pub open spec fn b64_tail(r: Seq<u8>) -> Seq<char> {
    if r.len() == 1 {
        seq![b64_char((r[0] >> 2u8) as nat), b64_char(((r[0] & 3u8) << 4u8) as nat), '=', '=']
    } else if r.len() == 2 {
        seq![
            b64_char((r[0] >> 2u8) as nat),
            b64_char((((r[0] & 3u8) << 4u8) | (r[1] >> 4u8)) as nat),
            b64_char(((r[1] & 15u8) << 2u8) as nat),
            '=',
        ]
    } else {
        Seq::empty()
    }
}

/// Standard padded base64 of `b`.
pub open spec fn b64_encode_spec(b: Seq<u8>) -> Seq<char> {
    b64_groups(b, b.len() / 3) + b64_tail(b.subrange(3 * (b.len() / 3) as int, b.len() as int))
}

fn b64_char_of(i: u8) -> (c: char)
    requires
        i < 64,
    ensures
        c == b64_char(i as nat),
{
    if i < 26 {
        (65u8 + i) as char
    } else if i < 52 {
        (97u8 + (i - 26)) as char
    } else if i < 62 {
        (48u8 + (i - 52)) as char
    } else if i == 62 {
        '+'
    } else {
        '/'
    }
}

/// Base64-encode `bytes` with the standard alphabet and `=` padding.
pub fn base64_encode(bytes: &[u8]) -> (r: String)
    ensures
        r@ == b64_encode_spec(bytes@),
{
    let mut out = String::new();
    let n = bytes.len();
    let groups = n / 3;
    let mut k: usize = 0;
    while k < groups
        invariant
            n == bytes@.len(),
            groups == n / 3,
            k <= groups,
            out@ == b64_groups(bytes@, k as nat),
        decreases groups - k,
    {
        let b0 = bytes[3 * k];
        let b1 = bytes[3 * k + 1];
        let b2 = bytes[3 * k + 2];
        assert((b0 >> 2u8) < 64u8) by (bit_vector);
        assert((((b0 & 3u8) << 4u8) | (b1 >> 4u8)) < 64u8) by (bit_vector);
        assert((((b1 & 15u8) << 2u8) | (b2 >> 6u8)) < 64u8) by (bit_vector);
        assert((b2 & 63u8) < 64u8) by (bit_vector);
        push_char(&mut out, b64_char_of(b0 >> 2));
        push_char(&mut out, b64_char_of(((b0 & 3) << 4) | (b1 >> 4)));
        push_char(&mut out, b64_char_of(((b1 & 15) << 2) | (b2 >> 6)));
        push_char(&mut out, b64_char_of(b2 & 63));
        assert(out@ =~= b64_groups(bytes@, (k + 1) as nat));
        k = k + 1;
    }
    let ghost tail = bytes@.subrange(3 * groups as int, n as int);
    let rem = n - 3 * groups;
    if rem == 1 {
        let b0 = bytes[3 * groups];
        assert((b0 >> 2u8) < 64u8) by (bit_vector);
        assert(((b0 & 3u8) << 4u8) < 64u8) by (bit_vector);
        push_char(&mut out, b64_char_of(b0 >> 2));
        push_char(&mut out, b64_char_of((b0 & 3) << 4));
        push_char(&mut out, '=');
        push_char(&mut out, '=');
        assert(out@ =~= b64_encode_spec(bytes@));
    } else if rem == 2 {
        let b0 = bytes[3 * groups];
        let b1 = bytes[3 * groups + 1];
        assert((b0 >> 2u8) < 64u8) by (bit_vector);
        assert((((b0 & 3u8) << 4u8) | (b1 >> 4u8)) < 64u8) by (bit_vector);
        assert(((b1 & 15u8) << 2u8) < 64u8) by (bit_vector);
        push_char(&mut out, b64_char_of(b0 >> 2));
        push_char(&mut out, b64_char_of(((b0 & 3) << 4) | (b1 >> 4)));
        push_char(&mut out, b64_char_of((b1 & 15) << 2));
        push_char(&mut out, '=');
        assert(out@ =~= b64_encode_spec(bytes@));
    } else {
        assert(out@ =~= b64_encode_spec(bytes@));
    }
    out
}

/// Unicode `White_Space`, the set `char::is_whitespace` tests.
pub open spec fn is_unicode_whitespace(c: char) -> bool {
    let u = c as u32;
    (0x9 <= u <= 0xD) || u == 0x20 || u == 0x85 || u == 0xA0 || u == 0x1680 || (0x2000 <= u
        <= 0x200A) || u == 0x2028 || u == 0x2029 || u == 0x202F || u == 0x205F || u == 0x3000
}

/// Whether `c` is Unicode white space.
pub fn char_is_whitespace(c: char) -> (r: bool)
    ensures
        r == is_unicode_whitespace(c),
{
    let u = c as u32;
    (0x9 <= u && u <= 0xD) || u == 0x20 || u == 0x85 || u == 0xA0 || u == 0x1680 || (0x2000 <= u
        && u <= 0x200A) || u == 0x2028 || u == 0x2029 || u == 0x202F || u == 0x205F || u == 0x3000
}

/// The six-bit value of a base64 alphabet character.
pub open spec fn b64_value(c: char) -> Option<u32> {
    let u = c as u32;
    if 65 <= u <= 90 {
        Some((u - 65) as u32)
    } else if 97 <= u <= 122 {
        Some((u - 97 + 26) as u32)
    } else if 48 <= u <= 57 {
        Some((u - 48 + 52) as u32)
    } else if c == '+' {
        Some(62)
    } else if c == '/' {
        Some(63)
    } else {
        None
    }
}

/// The decoder's state: a bit buffer, the number of pending bits in it,
/// and the bytes produced so far.
pub struct B64State {
    pub buf: u32,
    pub bits: u32,
    pub out: Seq<u8>,
}

/// Feeds one six-bit value into the decoder state, emitting a byte once
/// eight bits are pending.
pub open spec fn b64_step(s: B64State, v: u32) -> B64State {
    let buf = ((s.buf << 6u32) | v) as u32;
    let bits = s.bits + 6;
    if bits >= 8 {
        let bits2 = (bits - 8) as u32;
        B64State { buf, bits: bits2, out: s.out.push(((buf >> bits2) & 0xFFu32) as u8) }
    } else {
        B64State { buf, bits: bits as u32, out: s.out }
    }
}

/// Decodes the characters `cs` from state `s`: white space is skipped,
/// the first `=` ends the input, and any other non-alphabet character
/// makes the whole input invalid.
pub open spec fn b64_decode_from(cs: Seq<char>, s: B64State) -> Option<Seq<u8>>
    decreases cs.len(),
{
    if cs.len() == 0 {
        Some(s.out)
    } else if is_unicode_whitespace(cs[0]) {
        b64_decode_from(cs.drop_first(), s)
    } else if cs[0] == '=' {
        Some(s.out)
    } else {
        match b64_value(cs[0]) {
            Some(v) => b64_decode_from(cs.drop_first(), b64_step(s, v)),
            None => None,
        }
    }
}

/// The bytes a base64 string decodes to, or `None` when it holds a
/// character outside the alphabet before its first `=`.
pub open spec fn b64_decode_spec(cs: Seq<char>) -> Option<Seq<u8>> {
    b64_decode_from(cs, B64State { buf: 0, bits: 0, out: Seq::empty() })
}

fn push_byte(v: &mut Vec<u8>, b: u8)
    ensures
        final(v)@ == old(v)@.push(b),
{
    v.push(b);
}

/// Decode a base64 string, ignoring white space and stopping at the
/// first `=`.
pub fn base64_decode(s: &str) -> (r: Option<Vec<u8>>)
    ensures
        match r {
            Some(v) => b64_decode_spec(s@) == Some(v@),
            None => b64_decode_spec(s@) is None,
        },
{
    broadcast use vstd::string::group_string_axioms;
    let mut out: Vec<u8> = Vec::new();
    let mut buf: u32 = 0;
    let mut bits: u32 = 0;
    let ghost total = b64_decode_spec(s@);
    assert(s@.skip(0) =~= s@);
    for c in it: s.chars()
        invariant
            it.seq() == s@,
            total == b64_decode_spec(s@),
            bits < 8,
            total == b64_decode_from(
                s@.skip(it.index() as int),
                B64State { buf, bits, out: out@ },
            ),
    {
        let ghost i = it.index();
        assert(s@.skip(i as int)[0] == c);
        assert(s@.skip(i as int).drop_first() =~= s@.skip(i + 1));
        if !char_is_whitespace(c) {
            if c == '=' {
                return Some(out);
            }
            let u = c as u32;
            let v: u32 = if 65 <= u && u <= 90 {
                u - 65
            } else if 97 <= u && u <= 122 {
                u - 97 + 26
            } else if 48 <= u && u <= 57 {
                u - 48 + 52
            } else if c == '+' {
                62
            } else if c == '/' {
                63
            } else {
                return None;
            };
            buf = (buf << 6) | v;
            bits = bits + 6;
            if bits >= 8 {
                bits = bits - 8;
                assert(((buf >> bits) & 0xFFu32) < 256u32) by (bit_vector);
                push_byte(&mut out, ((buf >> bits) & 0xFF) as u8);
            }
        }
    }
    assert(s@.skip(s@.len() as int).len() == 0);
    Some(out)
}

} // verus!

verus! {

proof fn lemma_alphabet(x: u8)
    requires
        x < 64,
    ensures
        b64_value(b64_char(x as nat)) == Some(x as u32),
        !is_unicode_whitespace(b64_char(x as nat)),
        b64_char(x as nat) != '=',
        b64_char(x as nat) != '_',
{
}

proof fn lemma_groups_front(b: Seq<u8>, k: nat)
    requires
        k >= 1,
        3 * k <= b.len(),
    ensures
        b64_groups(b, k) == b64_group(b[0], b[1], b[2]) + b64_groups(b.skip(3), (k - 1) as nat),
    decreases k,
{
    if k == 1 {
        assert(b64_groups(b.skip(3), 0) =~= Seq::empty());
        assert(b64_groups(b, 0) =~= Seq::empty());
    } else {
        lemma_groups_front(b, (k - 1) as nat);
        let r = b.skip(3);
        assert(r[3 * (k - 1) - 3] == b[3 * k - 3]);
        assert(r[3 * (k - 1) - 2] == b[3 * k - 2]);
        assert(r[3 * (k - 1) - 1] == b[3 * k - 1]);
    }
}

proof fn lemma_encode_front(b: Seq<u8>)
    requires
        b.len() >= 3,
    ensures
        b64_encode_spec(b) == b64_group(b[0], b[1], b[2]) + b64_encode_spec(b.skip(3)),
{
    let n = b.len();
    lemma_groups_front(b, n / 3);
    let r = b.skip(3);
    assert((n - 3) / 3 == n / 3 - 1);
    assert(b.subrange(3 * (n / 3) as int, n as int) =~= r.subrange(
        3 * (r.len() / 3) as int,
        r.len() as int,
    ));
}

proof fn lemma_group_decodes(b0: u8, b1: u8, b2: u8, rest: Seq<char>, s: B64State)
    requires
        s.bits == 0,
    ensures
        b64_decode_from(b64_group(b0, b1, b2) + rest, s) == b64_decode_from(
            rest,
            B64State {
                buf: b64_step(
                    b64_step(
                        b64_step(b64_step(s, (b0 >> 2u8) as u32), (((b0 & 3u8) << 4u8) | (b1 >> 4u8)) as u32),
                        (((b1 & 15u8) << 2u8) | (b2 >> 6u8)) as u32,
                    ),
                    (b2 & 63u8) as u32,
                ).buf,
                bits: 0,
                out: s.out + seq![b0, b1, b2],
            },
        ),
{
    let x0 = (b0 >> 2u8);
    let x1 = (((b0 & 3u8) << 4u8) | (b1 >> 4u8));
    let x2 = (((b1 & 15u8) << 2u8) | (b2 >> 6u8));
    let x3 = (b2 & 63u8);
    assert((b0 >> 2u8) < 64u8 && (((b0 & 3u8) << 4u8) | (b1 >> 4u8)) < 64u8 && (((b1 & 15u8) << 2u8) | (b2 >> 6u8)) < 64u8 && (b2 & 63u8) < 64u8) by (bit_vector);
    lemma_alphabet(x0);
    lemma_alphabet(x1);
    lemma_alphabet(x2);
    lemma_alphabet(x3);
    let g = b64_group(b0, b1, b2);
    let cs = g + rest;
    assert(cs.drop_first() =~= g.drop_first() + rest);
    assert(cs.drop_first().drop_first() =~= g.drop_first().drop_first() + rest);
    assert(cs.drop_first().drop_first().drop_first() =~= seq![g[3]] + rest);
    assert((seq![g[3]] + rest).drop_first() =~= rest);
    let buf = s.buf;
    let v0 = x0 as u32;
    let v1 = x1 as u32;
    let v2 = x2 as u32;
    let v3 = x3 as u32;
    let buf1 = ((buf << 6u32) | v0) as u32;
    let buf2 = ((buf1 << 6u32) | v1) as u32;
    let buf3 = ((buf2 << 6u32) | v2) as u32;
    let buf4 = ((buf3 << 6u32) | v3) as u32;
    assert(((buf2 >> 4u32) & 0xFFu32) as u8 == b0) by (bit_vector)
        requires
            v0 == (b0 >> 2u8) as u32,
            v1 == (((b0 & 3u8) << 4u8) | (b1 >> 4u8)) as u32,
            buf1 == ((buf << 6u32) | v0) as u32,
            buf2 == ((buf1 << 6u32) | v1) as u32,
    ;
    assert(((buf3 >> 2u32) & 0xFFu32) as u8 == b1) by (bit_vector)
        requires
            v1 == (((b0 & 3u8) << 4u8) | (b1 >> 4u8)) as u32,
            v2 == (((b1 & 15u8) << 2u8) | (b2 >> 6u8)) as u32,
            buf2 == ((buf1 << 6u32) | v1) as u32,
            buf3 == ((buf2 << 6u32) | v2) as u32,
    ;
    assert(((buf4 >> 0u32) & 0xFFu32) as u8 == b2) by (bit_vector)
        requires
            v2 == (((b1 & 15u8) << 2u8) | (b2 >> 6u8)) as u32,
            v3 == (b2 & 63u8) as u32,
            buf3 == ((buf2 << 6u32) | v2) as u32,
            buf4 == ((buf3 << 6u32) | v3) as u32,
    ;
    let s1 = b64_step(s, v0);
    let s2 = b64_step(s1, v1);
    let s3 = b64_step(s2, v2);
    let s4 = b64_step(s3, v3);
    assert(s1.bits == 6 && s1.out == s.out);
    assert(s2.bits == 4 && s2.out == s.out.push(b0));
    assert(s3.bits == 2 && s3.out == s.out.push(b0).push(b1));
    assert(s4.bits == 0 && s4.out == s.out.push(b0).push(b1).push(b2));
    assert(s.out.push(b0).push(b1).push(b2) =~= s.out + seq![b0, b1, b2]);
    assert(b64_decode_from(cs, s) == b64_decode_from(cs.drop_first(), s1));
    assert(b64_decode_from(cs.drop_first(), s1) == b64_decode_from(cs.drop_first().drop_first(), s2));
    assert(b64_decode_from(cs.drop_first().drop_first(), s2) == b64_decode_from(
        cs.drop_first().drop_first().drop_first(),
        s3,
    ));
    assert(b64_decode_from(seq![g[3]] + rest, s3) == b64_decode_from(rest, s4));
}

proof fn lemma_decode_encode_from(b: Seq<u8>, s: B64State)
    requires
        s.bits == 0,
    ensures
        b64_decode_from(b64_encode_spec(b), s) == Some(s.out + b),
    decreases b.len(),
{
    let n = b.len();
    if n >= 3 {
        lemma_encode_front(b);
        lemma_group_decodes(b[0], b[1], b[2], b64_encode_spec(b.skip(3)), s);
        let s4 = B64State {
            buf: b64_step(
                b64_step(
                    b64_step(b64_step(s, (b[0] >> 2u8) as u32), (((b[0] & 3u8) << 4u8) | (b[1] >> 4u8)) as u32),
                    (((b[1] & 15u8) << 2u8) | (b[2] >> 6u8)) as u32,
                ),
                (b[2] & 63u8) as u32,
            ).buf,
            bits: 0,
            out: s.out + seq![b[0], b[1], b[2]],
        };
        lemma_decode_encode_from(b.skip(3), s4);
        assert(s.out + seq![b[0], b[1], b[2]] + b.skip(3) =~= s.out + b);
    } else if n == 0 {
        assert(b64_groups(b, 0) =~= Seq::empty());
        assert(b64_encode_spec(b) =~= Seq::empty());
        assert(s.out + b =~= s.out);
    } else if n == 1 {
        let b0 = b[0];
        let x0 = (b0 >> 2u8);
        let x1 = ((b0 & 3u8) << 4u8);
        assert((b0 >> 2u8) < 64u8 && ((b0 & 3u8) << 4u8) < 64u8) by (bit_vector);
        lemma_alphabet(x0);
        lemma_alphabet(x1);
        assert(b64_groups(b, 0) =~= Seq::empty());
        assert(b.subrange(0, 1) =~= b);
        let cs = b64_encode_spec(b);
        assert(cs =~= seq![b64_char(x0 as nat), b64_char(x1 as nat), '=', '=']);
        assert(cs.drop_first() =~= seq![b64_char(x1 as nat), '=', '=']);
        assert(cs.drop_first().drop_first() =~= seq!['=', '=']);
        let buf = s.buf;
        let v0 = x0 as u32;
        let v1 = x1 as u32;
        let buf1 = ((buf << 6u32) | v0) as u32;
        let buf2 = ((buf1 << 6u32) | v1) as u32;
        assert(((buf2 >> 4u32) & 0xFFu32) as u8 == b0) by (bit_vector)
            requires
                v0 == (b0 >> 2u8) as u32,
                v1 == ((b0 & 3u8) << 4u8) as u32,
                buf1 == ((buf << 6u32) | v0) as u32,
                buf2 == ((buf1 << 6u32) | v1) as u32,
        ;
        assert(!is_unicode_whitespace('='));
        let s1 = b64_step(s, v0);
        let s2 = b64_step(s1, v1);
        assert(s2.out == s.out.push(b0));
        assert(b64_decode_from(cs, s) == b64_decode_from(cs.drop_first(), s1));
        assert(b64_decode_from(cs.drop_first(), s1) == b64_decode_from(cs.drop_first().drop_first(), s2));
        assert(s.out.push(b0) =~= s.out + b);
    } else {
        let b0 = b[0];
        let b1 = b[1];
        let x0 = (b0 >> 2u8);
        let x1 = (((b0 & 3u8) << 4u8) | (b1 >> 4u8));
        let x2 = ((b1 & 15u8) << 2u8);
        assert((b0 >> 2u8) < 64u8 && (((b0 & 3u8) << 4u8) | (b1 >> 4u8)) < 64u8 && ((b1 & 15u8) << 2u8) < 64u8) by (bit_vector);
        lemma_alphabet(x0);
        lemma_alphabet(x1);
        lemma_alphabet(x2);
        assert(b64_groups(b, 0) =~= Seq::empty());
        assert(b.subrange(0, 2) =~= b);
        let cs = b64_encode_spec(b);
        assert(cs =~= seq![b64_char(x0 as nat), b64_char(x1 as nat), b64_char(x2 as nat), '=']);
        assert(cs.drop_first() =~= seq![b64_char(x1 as nat), b64_char(x2 as nat), '=']);
        assert(cs.drop_first().drop_first() =~= seq![b64_char(x2 as nat), '=']);
        assert(cs.drop_first().drop_first().drop_first() =~= seq!['=']);
        let buf = s.buf;
        let v0 = x0 as u32;
        let v1 = x1 as u32;
        let v2 = x2 as u32;
        let buf1 = ((buf << 6u32) | v0) as u32;
        let buf2 = ((buf1 << 6u32) | v1) as u32;
        let buf3 = ((buf2 << 6u32) | v2) as u32;
        assert(((buf2 >> 4u32) & 0xFFu32) as u8 == b0) by (bit_vector)
            requires
                v0 == (b0 >> 2u8) as u32,
                v1 == (((b0 & 3u8) << 4u8) | (b1 >> 4u8)) as u32,
                buf1 == ((buf << 6u32) | v0) as u32,
                buf2 == ((buf1 << 6u32) | v1) as u32,
        ;
        assert(((buf3 >> 2u32) & 0xFFu32) as u8 == b1) by (bit_vector)
            requires
                v1 == (((b0 & 3u8) << 4u8) | (b1 >> 4u8)) as u32,
                v2 == ((b1 & 15u8) << 2u8) as u32,
                buf2 == ((buf1 << 6u32) | v1) as u32,
                buf3 == ((buf2 << 6u32) | v2) as u32,
        ;
        assert(!is_unicode_whitespace('='));
        let s1 = b64_step(s, v0);
        let s2 = b64_step(s1, v1);
        let s3 = b64_step(s2, v2);
        assert(s3.out == s.out.push(b0).push(b1));
        assert(b64_decode_from(cs, s) == b64_decode_from(cs.drop_first(), s1));
        assert(b64_decode_from(cs.drop_first(), s1) == b64_decode_from(cs.drop_first().drop_first(), s2));
        assert(b64_decode_from(cs.drop_first().drop_first(), s2) == b64_decode_from(cs.drop_first().drop_first().drop_first(), s3));
        assert(s.out.push(b0).push(b1) =~= s.out + b);
    }
}

/// Base64 text holds no white space and no `_`.
pub(crate) proof fn lemma_b64_no_space(b: Seq<u8>)
    ensures
        forall|i: int|
            0 <= i < b64_encode_spec(b).len() ==> !is_unicode_whitespace(
                #[trigger] b64_encode_spec(b)[i],
            ) && b64_encode_spec(b)[i] != '_',
    decreases b.len(),
{
    let e = b64_encode_spec(b);
    if b.len() >= 3 {
        lemma_encode_front(b);
        lemma_b64_no_space(b.skip(3));
        let (b0, b1, b2) = (b[0], b[1], b[2]);
        assert((b0 >> 2u8) < 64) by (bit_vector);
        assert((((b0 & 3u8) << 4u8) | (b1 >> 4u8)) < 64) by (bit_vector);
        assert((((b1 & 15u8) << 2u8) | (b2 >> 6u8)) < 64) by (bit_vector);
        assert((b2 & 63u8) < 64) by (bit_vector);
        lemma_alphabet(b0 >> 2u8);
        lemma_alphabet(((b0 & 3u8) << 4u8) | (b1 >> 4u8));
        lemma_alphabet(((b1 & 15u8) << 2u8) | (b2 >> 6u8));
        lemma_alphabet(b2 & 63u8);
        let g = b64_group(b0, b1, b2);
        assert forall|i: int| 0 <= i < e.len() implies !is_unicode_whitespace(#[trigger] e[i]) && e[i] != '_' by {
            if i >= 4 {
                assert(e[i] == b64_encode_spec(b.skip(3))[i - 4]);
            } else {
                assert(e[i] == g[i]);
            }
        }
    } else {
        assert(b.subrange(0, b.len() as int) =~= b);
        assert(b64_groups(b, 0) =~= Seq::<char>::empty());
        assert(e =~= b64_tail(b));
        if b.len() >= 1 {
            let b0 = b[0];
            assert((b0 >> 2u8) < 64) by (bit_vector);
            lemma_alphabet(b0 >> 2u8);
            if b.len() == 1 {
                assert(((b0 & 3u8) << 4u8) < 64) by (bit_vector);
                lemma_alphabet((b0 & 3u8) << 4u8);
            } else {
                let b1 = b[1];
                assert((((b0 & 3u8) << 4u8) | (b1 >> 4u8)) < 64) by (bit_vector);
                assert(((b1 & 15u8) << 2u8) < 64) by (bit_vector);
                lemma_alphabet(((b0 & 3u8) << 4u8) | (b1 >> 4u8));
                lemma_alphabet((b1 & 15u8) << 2u8);
            }
        }
    }
}

/// Decoding undoes encoding: the base64 text produced for any byte
/// string decodes back to exactly those bytes.
pub proof fn lemma_base64_roundtrip(b: Seq<u8>)
    ensures
        b64_decode_spec(b64_encode_spec(b)) == Some(b),
{
    lemma_decode_encode_from(b, B64State { buf: 0, bits: 0, out: Seq::empty() });
    assert(Seq::<u8>::empty() + b =~= b);
}

} // verus!
