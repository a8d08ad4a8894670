//! OpenSSH host-pattern globbing: `*` matches any run of bytes, `?` any
//! one byte, and every other byte matches itself, ASCII
//! case-insensitively.

use vstd::prelude::*;
use vstd::string::StringSliceAdditionalSpecFns;

verus! {

/// The byte `*`.
pub open spec fn star() -> u8 {
    42u8
}

/// The byte `?`.
pub open spec fn any_one() -> u8 {
    63u8
}

/// ASCII lower-casing of one byte.
pub open spec fn ascii_lower(b: u8) -> u8 {
    if 65 <= b <= 90 {
        (b + 32) as u8
    } else {
        b
    }
}

/// Whether a non-`*` pattern byte matches a target byte.
pub open spec fn byte_matches(p: u8, t: u8) -> bool {
    p == any_one() || ascii_lower(p) == ascii_lower(t)
}

/// Whether `p[i..]` matches `t[j..]`.
pub open spec fn glob_from(p: Seq<u8>, t: Seq<u8>, i: nat, j: nat) -> bool
    decreases p.len() - i, t.len() - j,
{
    if i >= p.len() {
        j >= t.len()
    } else if p[i as int] == star() {
        glob_from(p, t, i + 1, j) || (j < t.len() && glob_from(p, t, i, j + 1))
    } else {
        j < t.len() && byte_matches(p[i as int], t[j as int]) && glob_from(p, t, i + 1, j + 1)
    }
}

/// Whether the pattern `p` matches the whole of `t`.
pub open spec fn glob_spec(p: Seq<u8>, t: Seq<u8>) -> bool {
    glob_from(p, t, 0, 0)
}

/// A `*` may swallow more of the target: if `p[i..]` (with `p[i]` a
/// `*`) matches `t[k..]`, it matches every longer suffix `t[j..]`.
proof fn lemma_star_absorbs(p: Seq<u8>, t: Seq<u8>, i: nat, j: nat, k: nat)
    requires
        i < p.len(),
        p[i as int] == star(),
        j <= k <= t.len(),
        glob_from(p, t, i, k),
    ensures
        glob_from(p, t, i, j),
    decreases k - j,
{
    if j < k {
        lemma_star_absorbs(p, t, i, j + 1, k);
    }
}

/// No `*` in `p[i..i + m]`.
pub open spec fn no_star(p: Seq<u8>, i: int, m: int) -> bool {
    forall|q: int| i <= q < i + m ==> p[q] != star()
}

/// `p[i..i + m]` has no `*` and matches `t[j..j + m]` byte by byte.
pub open spec fn seg_matches(p: Seq<u8>, t: Seq<u8>, i: int, j: int, m: int) -> bool {
    &&& i + m <= p.len()
    &&& j + m <= t.len()
    &&& no_star(p, i, m)
    &&& forall|q: int| 0 <= q < m ==> #[trigger] byte_matches(p[i + q], t[j + q])
}

/// A star-free segment that matches is consumed deterministically.
proof fn lemma_segment(p: Seq<u8>, t: Seq<u8>, i: nat, j: nat, m: nat)
    requires
        seg_matches(p, t, i as int, j as int, m as int),
    ensures
        glob_from(p, t, i, j) == glob_from(p, t, i + m, j + m),
    decreases m,
{
    if m > 0 {
        assert(byte_matches(p[i as int + 0], t[j as int + 0]));
        assert(p[i as int] != star());
        assert forall|q: int| 0 <= q < m - 1 implies #[trigger] byte_matches(
            p[(i + 1) + q],
            t[(j + 1) + q],
        ) by {
            assert(byte_matches(p[i + (q + 1)], t[j + (q + 1)]));
        }
        lemma_segment(p, t, i + 1, j + 1, (m - 1) as nat);
    }
}

/// Matching through a star-free segment requires the target to supply
/// it.
proof fn lemma_segment_forward(p: Seq<u8>, t: Seq<u8>, i: nat, j: nat, m: nat)
    requires
        i + m <= p.len(),
        no_star(p, i as int, m as int),
        j <= t.len(),
        glob_from(p, t, i, j),
    ensures
        j + m <= t.len(),
        glob_from(p, t, i + m, j + m),
    decreases m,
{
    if m > 0 {
        assert(p[i as int] != star());
        lemma_segment_forward(p, t, i + 1, j + 1, (m - 1) as nat);
    }
}

/// Against an exhausted target only `*`s can remain.
proof fn lemma_end_of_target(p: Seq<u8>, t: Seq<u8>, i: nat)
    requires
        i <= p.len(),
    ensures
        glob_from(p, t, i, t.len()) == (forall|q: int| i <= q < p.len() ==> p[q] == star()),
    decreases p.len() - i,
{
    if i < p.len() {
        lemma_end_of_target(p, t, i + 1);
    }
}

/// Once a later `*` is reached at the earliest position, committing to
/// it loses no match.
proof fn lemma_commit(p: Seq<u8>, t: Seq<u8>, s: nat, st: nat, pi: nat, k: nat)
    requires
        s <= pi < p.len(),
        p[pi as int] == star(),
        no_star(p, s as int, pi - s),
        st < k <= t.len(),
        st + (pi - s) <= t.len(),
        s >= 1,
        p[s - 1] == star(),
        glob_from(p, t, (s - 1) as nat, k),
    ensures
        glob_from(p, t, pi, (st + (pi - s)) as nat),
    decreases t.len() - k,
{
    let m = (pi - s) as nat;
    if glob_from(p, t, s, k) {
        lemma_segment_forward(p, t, s, k, m);
        lemma_star_absorbs(p, t, pi, st + m, k + m);
    } else {
        assert(k < t.len());
        lemma_commit(p, t, s, st, pi, k + 1);
    }
}

/// A star-free segment longer than what is left of the target cannot
/// match after the `*` before it.
proof fn lemma_too_short(p: Seq<u8>, t: Seq<u8>, s: nat, pi: nat, k: nat)
    requires
        s >= 1,
        s <= pi <= p.len(),
        p[s - 1] == star(),
        no_star(p, s as int, pi - s),
        k <= t.len(),
        pi - s > t.len() - k,
    ensures
        !glob_from(p, t, (s - 1) as nat, k),
    decreases t.len() - k,
{
    if glob_from(p, t, s, k) {
        lemma_segment_forward(p, t, s, k, (t.len() - k + 1) as nat);
    }
    if k < t.len() {
        lemma_too_short(p, t, s, pi, k + 1);
    }
}

/// ASCII case-insensitive equality of two bytes.
fn eq_ignore_ascii_case(a: u8, b: u8) -> (r: bool)
    ensures
        r == (ascii_lower(a) == ascii_lower(b)),
{
    let la = if 65 <= a && a <= 90 {
        a + 32
    } else {
        a
    };
    let lb = if 65 <= b && b <= 90 {
        b + 32
    } else {
        b
    };
    la == lb
}

/// The matcher's state: no `*` seen yet and `p[pi..]` must match
/// `t[tj..]`; or the last `*` was at `s - 1`, the match is being tried
/// with that `*` having swallowed `t[..st]`, and `p[s..pi]` has matched
/// `t[st..tj]` so far.
spec fn matcher_state(
    p: Seq<u8>,
    t: Seq<u8>,
    pi: nat,
    tj: nat,
    star_at: Option<usize>,
    st: nat,
) -> bool {
    &&& pi <= p.len()
    &&& tj <= t.len()
    &&& st <= tj
    &&& match star_at {
        None => st == 0 && glob_spec(p, t) == glob_from(p, t, pi, tj),
        Some(s) => {
            &&& 1 <= s <= pi
            &&& p[s - 1] == star()
            &&& pi - s == tj - st
            &&& seg_matches(p, t, s as int, st as int, pi - s)
            &&& glob_spec(p, t) == glob_from(p, t, (s - 1) as nat, st)
        },
    }
}

/// Wildcard matching with a single backtrack point: on a mismatch the
/// most recent `*` swallows one more target byte. No recursion, and at
/// most `O(n * m)` steps.
pub fn glob_match_bytes(pattern: &[u8], target: &[u8]) -> (r: bool)
    ensures
        r == glob_spec(pattern@, target@),
{
    let ghost pp = pattern@;
    let ghost tt = target@;
    let mut p: usize = 0;
    let mut t: usize = 0;
    let mut star_pos: Option<usize> = None;
    let mut star_target: usize = 0;
    while t < target.len()
        invariant
            pp == pattern@,
            tt == target@,
            matcher_state(pp, tt, p as nat, t as nat, star_pos, star_target as nat),
        decreases target.len() - star_target, (target.len() - t) + (pattern.len() - p),
    {
        if p < pattern.len() && pattern[p] == 42u8 {
            proof {
                match star_pos {
                    None => {},
                    Some(s) => {
                        let ghost m = (p - s) as nat;
                        lemma_segment(pp, tt, s as nat, star_target as nat, m);
                        if star_target < tt.len() && glob_from(
                            pp,
                            tt,
                            (s - 1) as nat,
                            (star_target + 1) as nat,
                        ) {
                            lemma_commit(
                                pp,
                                tt,
                                s as nat,
                                star_target as nat,
                                p as nat,
                                (star_target + 1) as nat,
                            );
                        }
                    },
                }
            }
            p = p + 1;
            star_pos = Some(p);
            star_target = t;
        } else if p < pattern.len() && pattern[p] == 63u8 {
            proof {
                match star_pos {
                    None => {},
                    Some(s) => {
                        assert forall|q: int| 0 <= q < p + 1 - s implies #[trigger] byte_matches(
                            pp[s + q],
                            tt[star_target + q],
                        ) by {
                            if q < p - s {
                                assert(byte_matches(pp[s + q], tt[star_target + q]));
                            }
                        }
                    },
                }
            }
            p = p + 1;
            t = t + 1;
        } else if p < pattern.len() && eq_ignore_ascii_case(pattern[p], target[t]) {
            proof {
                match star_pos {
                    None => {},
                    Some(s) => {
                        assert forall|q: int| 0 <= q < p + 1 - s implies #[trigger] byte_matches(
                            pp[s + q],
                            tt[star_target + q],
                        ) by {
                            if q < p - s {
                                assert(byte_matches(pp[s + q], tt[star_target + q]));
                            }
                        }
                    },
                }
            }
            p = p + 1;
            t = t + 1;
        } else {
            match star_pos {
                Some(resume) => {
                    proof {
                        lemma_segment(pp, tt, resume as nat, star_target as nat, (p - resume) as nat);
                        assert(!glob_from(pp, tt, p as nat, t as nat));
                    }
                    p = resume;
                    star_target = star_target + 1;
                    t = star_target;
                },
                None => {
                    return false;
                },
            }
        }
    }
    proof {
        match star_pos {
            None => {},
            Some(s) => {
                lemma_segment(pp, tt, s as nat, star_target as nat, (p - s) as nat);
                if star_target < tt.len() {
                    lemma_too_short(pp, tt, s as nat, p as nat, (star_target + 1) as nat);
                }
            },
        }
        lemma_end_of_target(pp, tt, p as nat);
    }
    let ghost p0 = p;
    while p < pattern.len() && pattern[p] == 42u8
        invariant
            pp == pattern@,
            p0 <= p <= pattern.len(),
            forall|q: int| p0 <= q < p ==> pp[q] == star(),
        decreases pattern.len() - p,
    {
        p = p + 1;
    }
    p == pattern.len()
}

/// OpenSSH-style glob match of a host name against a pattern, byte by
/// byte over their UTF-8 encodings.
pub fn glob_match(pattern: &str, target: &str) -> (r: bool)
    ensures
        r == glob_spec(pattern.spec_bytes(), target.spec_bytes()),
{
    glob_match_bytes(pattern.as_bytes(), target.as_bytes())
}

/// A lone `*` matches every target, the empty one included.
pub proof fn lemma_star_matches_everything(t: Seq<u8>)
    ensures
        glob_spec(seq![star()], t),
{
    lemma_lone_star_at(t, 0);
}

proof fn lemma_lone_star_at(t: Seq<u8>, k: nat)
    requires
        k <= t.len(),
    ensures
        glob_from(seq![star()], t, 0, k),
    decreases t.len() - k,
{
    let p = seq![star()];
    assert(glob_from(p, t, 1, t.len()));
    if k < t.len() {
        lemma_lone_star_at(t, k + 1);
    }
}

/// A pattern with neither `*` nor `?`.
pub open spec fn no_wildcards(p: Seq<u8>) -> bool {
    forall|i: int| 0 <= i < p.len() ==> p[i] != star() && p[i] != any_one()
}

/// Equal length and equal bytes up to ASCII case.
pub open spec fn eq_ignore_case(p: Seq<u8>, t: Seq<u8>) -> bool {
    p.len() == t.len() && forall|i: int| 0 <= i < p.len() ==> ascii_lower(p[i]) == ascii_lower(t[i])
}

proof fn lemma_literal_from(p: Seq<u8>, t: Seq<u8>, i: nat, j: nat)
    requires
        no_wildcards(p),
        i <= p.len(),
        j <= t.len(),
    ensures
        glob_from(p, t, i, j) <==> eq_ignore_case(
            p.subrange(i as int, p.len() as int),
            t.subrange(j as int, t.len() as int),
        ),
    decreases p.len() - i,
{
    let ps = p.subrange(i as int, p.len() as int);
    let ts = t.subrange(j as int, t.len() as int);
    if i < p.len() && j < t.len() {
        lemma_literal_from(p, t, i + 1, j + 1);
        let ps1 = p.subrange(i as int + 1, p.len() as int);
        let ts1 = t.subrange(j as int + 1, t.len() as int);
        assert(ps1 =~= ps.drop_first());
        assert(ts1 =~= ts.drop_first());
        if eq_ignore_case(ps, ts) {
            assert(ascii_lower(ps[0]) == ascii_lower(ts[0]));
            assert forall|q: int| 0 <= q < ps1.len() implies ascii_lower(ps1[q]) == ascii_lower(
                ts1[q],
            ) by {
                assert(ascii_lower(ps[q + 1]) == ascii_lower(ts[q + 1]));
            }
        }
        if glob_from(p, t, i, j) {
            assert forall|q: int| 0 <= q < ps.len() implies ascii_lower(ps[q]) == ascii_lower(
                ts[q],
            ) by {
                if q > 0 {
                    assert(ascii_lower(ps1[q - 1]) == ascii_lower(ts1[q - 1]));
                }
            }
        }
    }
}

/// A literal host pattern (no `*`, no `?`) matches exactly the targets
/// equal to it up to ASCII case.
pub proof fn lemma_literal_pattern(p: Seq<u8>, t: Seq<u8>)
    requires
        no_wildcards(p),
    ensures
        glob_spec(p, t) <==> eq_ignore_case(p, t),
{
    lemma_literal_from(p, t, 0, 0);
    assert(p.subrange(0, p.len() as int) =~= p);
    assert(t.subrange(0, t.len() as int) =~= t);
}

/// The UTF-8 bytes of a character other than `*` and `?` are neither
/// `*` nor `?`: an ASCII character is its own byte, every byte of any
/// other character has its high bit set.
proof fn lemma_scalar_bytes_no_wildcard(c: char)
    requires
        c != '*' && c != '?',
    ensures
        forall|i: int|
            0 <= i < vstd::utf8::encode_scalar(c as u32).len() ==> #[trigger] vstd::utf8::encode_scalar(
                c as u32,
            )[i] != star() && vstd::utf8::encode_scalar(c as u32)[i] != any_one(),
{
    let u = c as u32;
    assert(u != 42 && u != 63);
    let e = vstd::utf8::encode_scalar(u);
    assert(((u & 0x7F) as u8) == u ==> true);
    if vstd::utf8::has_width_1_encoding(u) {
        assert(u <= 0x7F);
        assert(((u & 0x7Fu32) as u8) != 42u8 && ((u & 0x7Fu32) as u8) != 63u8) by (bit_vector)
            requires
                u <= 0x7F && u != 42 && u != 63,
        ;
    } else {
        assert forall|x: u32| #![auto] (0xC0u8 | ((x >> 6u32) & 0x1Fu32) as u8) >= 0x80u8
            && (0xE0u8 | ((x >> 12u32) & 0x0Fu32) as u8) >= 0x80u8 && (0xF0u8 | ((x >> 18u32)
            & 0x7u32) as u8) >= 0x80u8 && (0x80u8 | (x & 0x3Fu32) as u8) >= 0x80u8 && (0x80u8 | ((x
            >> 6u32) & 0x3Fu32) as u8) >= 0x80u8 && (0x80u8 | ((x >> 12u32) & 0x3Fu32) as u8)
            >= 0x80u8 by {
            assert((0xC0u8 | ((x >> 6u32) & 0x1Fu32) as u8) >= 0x80u8) by (bit_vector);
            assert((0xE0u8 | ((x >> 12u32) & 0x0Fu32) as u8) >= 0x80u8) by (bit_vector);
            assert((0xF0u8 | ((x >> 18u32) & 0x7u32) as u8) >= 0x80u8) by (bit_vector);
            assert((0x80u8 | (x & 0x3Fu32) as u8) >= 0x80u8) by (bit_vector);
            assert((0x80u8 | ((x >> 6u32) & 0x3Fu32) as u8) >= 0x80u8) by (bit_vector);
            assert((0x80u8 | ((x >> 12u32) & 0x3Fu32) as u8) >= 0x80u8) by (bit_vector);
        }
    }
}

/// The UTF-8 bytes of text with neither `*` nor `?` hold neither.
proof fn lemma_bytes_no_wildcards(p: Seq<char>)
    requires
        forall|i: int| 0 <= i < p.len() ==> #[trigger] p[i] != '*' && p[i] != '?',
    ensures
        no_wildcards(vstd::utf8::encode_utf8(p)),
    decreases p.len(),
{
    if p.len() > 0 {
        lemma_scalar_bytes_no_wildcard(p[0]);
        let rest = p.drop_first();
        assert forall|i: int| 0 <= i < rest.len() implies #[trigger] rest[i] != '*' && rest[i]
            != '?' by {
            assert(rest[i] == p[i + 1]);
        }
        lemma_bytes_no_wildcards(rest);
        let e = vstd::utf8::encode_scalar(p[0] as u32);
        let r = vstd::utf8::encode_utf8(rest);
        let all = vstd::utf8::encode_utf8(p);
        assert(all == e + r);
        assert forall|i: int| 0 <= i < all.len() implies all[i] != star() && all[i] != any_one() by {
            if i < e.len() {
                assert(all[i] == e[i]);
            } else {
                assert(all[i] == r[i - e.len()]);
            }
        }
    }
}

/// For host names as strings: a pattern holding neither `*` nor `?`
/// matches exactly the targets equal to it up to ASCII case (which is
/// `str::eq_ignore_ascii_case`, byte by byte), so it matches itself;
/// and the pattern `*` matches every target.
pub proof fn lemma_literal_pattern_text(p: Seq<char>, t: Seq<char>)
    requires
        forall|i: int| 0 <= i < p.len() ==> #[trigger] p[i] != '*' && p[i] != '?',
    ensures
        glob_spec(vstd::utf8::encode_utf8(p), vstd::utf8::encode_utf8(t)) <==> eq_ignore_case(
            vstd::utf8::encode_utf8(p),
            vstd::utf8::encode_utf8(t),
        ),
        glob_spec(vstd::utf8::encode_utf8(p), vstd::utf8::encode_utf8(p)),
        glob_spec(vstd::utf8::encode_utf8(seq!['*']), vstd::utf8::encode_utf8(t)),
{
    let pb = vstd::utf8::encode_utf8(p);
    lemma_bytes_no_wildcards(p);
    lemma_literal_pattern(pb, vstd::utf8::encode_utf8(t));
    lemma_literal_pattern(pb, pb);
    let star_bytes = vstd::utf8::encode_utf8(seq!['*']);
    assert(seq!['*'].drop_first() =~= Seq::<char>::empty());
    assert(seq!['*'][0] == '*');
    assert(('*' as u32) == 42);
    assert((42u32 & 0x7Fu32) as u8 == 42u8) by (bit_vector);
    assert(vstd::utf8::has_width_1_encoding(42u32));
    assert(vstd::utf8::encode_scalar(42u32) =~= seq![42u8]);
    assert(vstd::utf8::encode_utf8(Seq::<char>::empty()) =~= Seq::<u8>::empty());
    assert(star_bytes =~= seq![star()]);
    lemma_star_matches_everything(vstd::utf8::encode_utf8(t));
}

/// The glob of a pattern against a target, by the pattern's first byte:
/// an empty pattern matches only the empty target; `*` matches when the
/// rest of the pattern matches some suffix of the target
/// (`lemma_glob_by_head_star`); `?` any first byte; any other byte a
/// first byte equal to it up to ASCII case.
pub open spec fn glob_by_head(p: Seq<u8>, t: Seq<u8>) -> bool
    decreases p.len(), 1nat, 0int,
{
    if p.len() == 0 {
        t.len() == 0
    } else if p[0] == star() {
        some_suffix_from(p.drop_first(), t, 0)
    } else if p[0] == any_one() {
        t.len() > 0 && glob_by_head(p.drop_first(), t.drop_first())
    } else {
        t.len() > 0 && ascii_lower(p[0]) == ascii_lower(t[0]) && glob_by_head(
            p.drop_first(),
            t.drop_first(),
        )
    }
}

/// Whether `q` matches `t[i..]` for some `i` from `from` on.
pub open spec fn some_suffix_from(q: Seq<u8>, t: Seq<u8>, from: int) -> bool
    decreases q.len() + 1, 0nat, t.len() - from,
{
    if from < 0 || from > t.len() {
        false
    } else {
        glob_by_head(q, t.subrange(from, t.len() as int)) || (from < t.len() && some_suffix_from(
            q,
            t,
            from + 1,
        ))
    }
}

proof fn lemma_some_suffix_from(q: Seq<u8>, t: Seq<u8>, from: int)
    requires
        0 <= from <= t.len(),
    ensures
        some_suffix_from(q, t, from) <==> exists|i: int| from <= i <= t.len() && #[trigger] glob_by_head(
            q,
            t.subrange(i, t.len() as int),
        ),
    decreases t.len() - from,
{
    assert(some_suffix_from(q, t, from) == (glob_by_head(q, t.subrange(from, t.len() as int)) || (
    from < t.len() && some_suffix_from(q, t, from + 1))));
    if glob_by_head(q, t.subrange(from, t.len() as int)) {
        assert(from <= from <= t.len());
    }
    if from < t.len() {
        lemma_some_suffix_from(q, t, from + 1);
        if some_suffix_from(q, t, from) && !glob_by_head(q, t.subrange(from, t.len() as int)) {
            let i = choose|i: int| from + 1 <= i <= t.len() && #[trigger] glob_by_head(q, t.subrange(i, t.len() as int));
            assert(from <= i <= t.len() && glob_by_head(q, t.subrange(i, t.len() as int)));
        }
        if exists|i: int| from <= i <= t.len() && #[trigger] glob_by_head(q, t.subrange(i, t.len() as int)) {
            let i = choose|i: int| from <= i <= t.len() && #[trigger] glob_by_head(q, t.subrange(i, t.len() as int));
            if i != from {
                assert(from + 1 <= i <= t.len() && glob_by_head(q, t.subrange(i, t.len() as int)));
            }
        }
    } else {
        if exists|i: int| from <= i <= t.len() && #[trigger] glob_by_head(q, t.subrange(i, t.len() as int)) {
            let i = choose|i: int| from <= i <= t.len() && #[trigger] glob_by_head(q, t.subrange(i, t.len() as int));
            assert(i == from);
        }
    }
}

/// The `*` case of `glob_by_head`: a pattern `*` followed by `q`
/// matches `t` exactly when `q` matches some suffix of `t`.
pub proof fn lemma_glob_by_head_star(p: Seq<u8>, t: Seq<u8>)
    requires
        p.len() > 0,
        p[0] == star(),
    ensures
        glob_by_head(p, t) <==> exists|i: int| 0 <= i <= t.len() && #[trigger] glob_by_head(
            p.drop_first(),
            t.subrange(i, t.len() as int),
        ),
{
    lemma_some_suffix_from(p.drop_first(), t, 0);
}

/// A `*` at `p[i]` matches from `t[j..]` exactly when the rest of the
/// pattern matches from some `t[k..]` with `k >= j`.
proof fn lemma_star_from(p: Seq<u8>, t: Seq<u8>, i: nat, j: nat)
    requires
        i < p.len(),
        p[i as int] == star(),
        j <= t.len(),
    ensures
        glob_from(p, t, i, j) <==> exists|k: nat| j <= k <= t.len() && #[trigger] glob_from(p, t, i + 1, k),
    decreases t.len() - j,
{
    if j < t.len() {
        lemma_star_from(p, t, i, j + 1);
        assert(glob_from(p, t, i, j) == (glob_from(p, t, i + 1, j) || glob_from(p, t, i, j + 1)));
        if glob_from(p, t, i, j) {
            if !glob_from(p, t, i + 1, j) {
                let k = choose|k: nat| j + 1 <= k <= t.len() && #[trigger] glob_from(p, t, i + 1, k);
                assert(j <= k <= t.len() && glob_from(p, t, i + 1, k));
            }
        }
        if exists|k: nat| j <= k <= t.len() && #[trigger] glob_from(p, t, i + 1, k) {
            let k = choose|k: nat| j <= k <= t.len() && #[trigger] glob_from(p, t, i + 1, k);
            if k != j {
                assert(j + 1 <= k <= t.len() && glob_from(p, t, i + 1, k));
            }
        }
    } else {
        assert(glob_from(p, t, i, j) == glob_from(p, t, i + 1, j));
        if exists|k: nat| j <= k <= t.len() && #[trigger] glob_from(p, t, i + 1, k) {
            let k = choose|k: nat| j <= k <= t.len() && #[trigger] glob_from(p, t, i + 1, k);
            assert(k == j);
        }
    }
}

/// The matcher's position-wise definition agrees with the definition by
/// the pattern's first byte on every pair of suffixes.
proof fn lemma_glob_by_head_from(p: Seq<u8>, t: Seq<u8>, i: nat, j: nat)
    requires
        i <= p.len(),
        j <= t.len(),
    ensures
        glob_from(p, t, i, j) == glob_by_head(p.subrange(i as int, p.len() as int), t.subrange(j as int, t.len() as int)),
    decreases p.len() - i, t.len() - j,
{
    let ps = p.subrange(i as int, p.len() as int);
    let ts = t.subrange(j as int, t.len() as int);
    if i < p.len() {
        assert(ps[0] == p[i as int]);
        let rest = ps.drop_first();
        assert(rest =~= p.subrange((i + 1) as int, p.len() as int));
        if p[i as int] == star() {
            lemma_star_from(p, t, i, j);
            assert forall|k: nat| j <= k <= t.len() implies #[trigger] glob_from(p, t, i + 1, k)
                == glob_by_head(rest, ts.subrange(k - j, ts.len() as int)) by {
                lemma_glob_by_head_from(p, t, i + 1, k);
                assert(ts.subrange(k - j, ts.len() as int) =~= t.subrange(k as int, t.len() as int));
            }
            if glob_from(p, t, i, j) {
                let k = choose|k: nat| j <= k <= t.len() && #[trigger] glob_from(p, t, i + 1, k);
                let m: int = k - j;
                assert(0 <= m <= ts.len() && glob_by_head(rest, ts.subrange(m, ts.len() as int)));
            }
            assert(ps.len() > 0 && ps[0] == star());
            lemma_glob_by_head_star(ps, ts);
            if glob_by_head(ps, ts) {
                let m = choose|m: int| 0 <= m <= ts.len() && #[trigger] glob_by_head(ps.drop_first(), ts.subrange(m, ts.len() as int));
                let k: nat = (j + m) as nat;
                assert(k - j == m);
                assert(glob_from(p, t, i + 1, k));
            }
        } else if j < t.len() {
            lemma_glob_by_head_from(p, t, i + 1, j + 1);
            assert(ts[0] == t[j as int]);
            assert(ts.drop_first() =~= t.subrange((j + 1) as int, t.len() as int));
        }
    }
}

/// The matcher's definition is the definition by the pattern's first
/// byte: `glob_spec(p, t) == glob_by_head(p, t)`.
pub proof fn lemma_glob_by_head(p: Seq<u8>, t: Seq<u8>)
    ensures
        glob_spec(p, t) == glob_by_head(p, t),
{
    lemma_glob_by_head_from(p, t, 0, 0);
    assert(p.subrange(0, p.len() as int) =~= p);
    assert(t.subrange(0, t.len() as int) =~= t);
}

} // verus!
