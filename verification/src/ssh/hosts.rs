//! `known_hosts` host matching: `[host]:port` patterns, `!` negation,
//! hashed (`|1|salt|hash`) host names, and the trust decision over the
//! lines of a `known_hosts` file.

use vstd::prelude::*;
use vstd::string::StringSliceAdditionalSpecFns;
use vstd::string::StrSliceExecFns;
use hmac::{Hmac, Mac};
use sha1::Sha1;
use ssh_key::PublicKey;
use super::glob::{glob_match, glob_spec};
use crate::text::{chars_of, is_digit, digits_value, strip_plus, all_digits, lemma_digits_prefix, lemma_dec_nat_digits};

verus! {

/// Byte-wise equality of two slices, in time that depends only on
/// their lengths.
pub fn constant_time_eq(a: &[u8], b: &[u8]) -> (r: bool)
    ensures
        r == (a@ == b@),
{
    if a.len() != b.len() {
        return false;
    }
    let mut diff: u8 = 0;
    let mut i: usize = 0;
    while i < a.len()
        invariant
            a@.len() == b@.len(),
            i <= a@.len(),
            (diff == 0) == (forall|k: int| 0 <= k < i ==> a@[k] == b@[k]),
        decreases a@.len() - i,
    {
        let x = a[i];
        let y = b[i];
        assert((diff | (x ^ y)) == 0u8 <==> (diff == 0u8 && x == y)) by (bit_vector);
        diff = diff | (x ^ y);
        i = i + 1;
    }
    proof {
        if diff == 0 {
            assert(a@ =~= b@);
        }
    }
    diff == 0
}

/// `u16::from_str`: an optional `+`, then one or more decimal digits
/// whose value fits in a `u16`.
pub open spec fn parse_u16_spec(s: Seq<char>) -> Option<u16> {
    let d = strip_plus(s);
    if d.len() > 0 && all_digits(d) && digits_value(d) <= 65535 {
        Some(digits_value(d) as u16)
    } else {
        None
    }
}

/// The first index `i >= from` where `c[i..]` starts with `]:`.
pub open spec fn first_close(c: Seq<char>, from: nat) -> Option<nat>
    decreases c.len() - from,
{
    if from + 1 >= c.len() {
        None
    } else if c[from as int] == ']' && c[from as int + 1] == ':' {
        Some(from)
    } else {
        first_close(c, from + 1)
    }
}

/// The host and port of a `[host]:port` pattern, when it is one.
pub open spec fn split_host_port(c: Seq<char>) -> Option<(Seq<char>, u16)> {
    if c.len() > 0 && c[0] == '[' {
        match first_close(c, 1) {
            Some(i) => match parse_u16_spec(c.subrange(i as int + 2, c.len() as int)) {
                Some(p) => Some((c.subrange(1, i as int), p)),
                None => None,
            },
            None => None,
        }
    } else {
        None
    }
}

/// `u16::from_str` on `cs[start..]`.
fn parse_u16_at(cs: &Vec<char>, start: usize) -> (r: Option<u16>)
    requires
        start <= cs@.len(),
    ensures
        r == parse_u16_spec(cs@.subrange(start as int, cs@.len() as int)),
{
    let ghost s = cs@.subrange(start as int, cs@.len() as int);
    let mut k = start;
    if k < cs.len() && cs[k] == '+' {
        k = k + 1;
    }
    let ghost d = cs@.subrange(k as int, cs@.len() as int);
    assert(d =~= strip_plus(s));
    if k >= cs.len() {
        return None;
    }
    let k0 = k;
    let mut v: u32 = 0;
    while k < cs.len()
        invariant
            start <= k0 <= k <= cs@.len(),
            k0 < cs@.len(),
            s == cs@.subrange(start as int, cs@.len() as int),
            d == strip_plus(s),
            d == cs@.subrange(k0 as int, cs@.len() as int),
            v <= 65535,
            v == digits_value(d.subrange(0, k - k0)),
            forall|i: int| 0 <= i < k - k0 ==> is_digit(#[trigger] d[i]),
        decreases cs@.len() - k,
    {
        let c = cs[k];
        if !('0' <= c && c <= '9') {
            assert(cs@[k as int] == d[k - k0]);
            assert(!is_digit(d[k - k0]));
            assert(!all_digits(d));
            return None;
        }
        assert(d.subrange(0, k + 1 - k0).drop_last() =~= d.subrange(0, k - k0));
        v = v * 10 + ((c as u32) - 48);
        if v > 65535 {
            proof {
                lemma_digits_prefix(d, k + 1 - k0);
            }
            return None;
        }
        k = k + 1;
    }
    assert(d.subrange(0, k - k0) =~= d);
    Some(v as u16)
}

/// Split a `[host]:port` pattern into its host and port. Anything else,
/// including a bracketed pattern whose port is not a valid `u16`, is
/// returned whole with no port.
pub fn parse_pattern_host_port(pattern: &str) -> (r: (&str, Option<u16>))
    ensures
        match split_host_port(pattern@) {
            Some((h, p)) => r.0@ == h && r.1 == Some(p),
            None => r.0@ == pattern@ && r.1 is None,
        },
{
    let cs = chars_of(pattern);
    if cs.len() > 0 && cs[0] == '[' {
        let mut i: usize = 1;
        while i < cs.len() - 1
            invariant
                cs@ == pattern@,
                1 <= i <= cs@.len(),
                cs@.len() > 0 && cs@[0] == '[',
                first_close(cs@, 1) == first_close(cs@, i as nat),
            decreases cs@.len() - i,
        {
            if cs[i] == ']' && cs[i + 1] == ':' {
                return match parse_u16_at(&cs, i + 2) {
                    Some(p) => (pattern.substring_char(1, i), Some(p)),
                    None => (pattern, None),
                };
            }
            i = i + 1;
        }
    }
    (pattern, None)
}

/// A raw pattern's negation flag and the pattern without its `!`.
pub open spec fn strip_negation(raw: Seq<char>) -> (bool, Seq<char>) {
    if raw.len() > 0 && raw[0] == '!' {
        (true, raw.drop_first())
    } else {
        (false, raw)
    }
}

/// Whether a pattern (without its `!`) applies to `host` on `port`:
/// `[host]:port` patterns name their port, bare ones match port 22 only,
/// and the host part is globbed against `host`.
pub open spec fn pattern_hits(pat: Seq<char>, host: Seq<char>, port: u16) -> bool {
    match split_host_port(pat) {
        Some((h, p)) => p == port && glob_spec(
            vstd::utf8::encode_utf8(h),
            vstd::utf8::encode_utf8(host),
        ),
        None => port == 22 && glob_spec(
            vstd::utf8::encode_utf8(pat),
            vstd::utf8::encode_utf8(host),
        ),
    }
}

/// Whether some pattern with (`negated`) or without a `!` applies.
pub open spec fn some_hit(patterns: Seq<String>, host: Seq<char>, port: u16, negated: bool) -> bool {
    exists|i: int|
        0 <= i < patterns.len() && strip_negation(#[trigger] patterns[i]@).0 == negated
            && pattern_hits(strip_negation(patterns[i]@).1, host, port)
}

/// A pattern list matches when some plain pattern applies and no
/// negated one does.
pub open spec fn patterns_match(patterns: Seq<String>, host: Seq<char>, port: u16) -> bool {
    some_hit(patterns, host, port, false) && !some_hit(patterns, host, port, true)
}

/// Match a host and port against the patterns of a `known_hosts` line:
/// literal names, `*` / `?` globs, `[host]:port` for other ports than
/// 22, and `!pattern` negation, one of which outweighs any number of
/// positive matches.
pub fn host_matches_patterns(patterns: &[String], host: &str, port: u16) -> (r: bool)
    ensures
        r == patterns_match(patterns@, host@, port),
{
    let mut positive = false;
    let mut i: usize = 0;
    while i < patterns.len()
        invariant
            i <= patterns@.len(),
            positive == (exists|j: int|
                0 <= j < i && strip_negation(#[trigger] patterns@[j]@).0 == false
                    && pattern_hits(strip_negation(patterns@[j]@).1, host@, port)),
            forall|j: int|
                0 <= j < i ==> !(strip_negation(#[trigger] patterns@[j]@).0 && pattern_hits(
                    strip_negation(patterns@[j]@).1,
                    host@,
                    port,
                )),
        decreases patterns@.len() - i,
    {
        let raw: &str = patterns[i].as_str();
        let n = raw.unicode_len();
        let negate = n > 0 && raw.get_char(0) == '!';
        let pattern = if negate {
            raw.substring_char(1, n)
        } else {
            raw
        };
        assert(strip_negation(patterns@[i as int]@) == (negate, pattern@));
        let (pat_host, pat_port) = parse_pattern_host_port(pattern);
        let port_ok = match pat_port {
            Some(p) => p == port,
            None => port == 22,
        };
        if port_ok && glob_match(pat_host, host) {
            if negate {
                assert(some_hit(patterns@, host@, port, true));
                return false;
            }
            positive = true;
        }
        i = i + 1;
    }
    positive
}

/// HMAC-SHA1 of `msg` under `key`.
pub uninterp spec fn hmac_sha1_tag(key: Seq<u8>, msg: Seq<u8>) -> Seq<u8>;

/// HMAC-SHA1 by the `hmac` and `sha1` crates
/// (`Hmac::<Sha1>::new_from_slice`, `Mac::update`, `Mac::finalize`).
/// `new_from_slice` takes a key of any length (a long key is hashed, a
/// short one padded to the block size), so the result is always there;
/// the 20-byte tag itself is left to the crates.
#[verifier::external_body]
fn hmac_sha1(key: &[u8], msg: &[u8]) -> (tag: Option<[u8; 20]>)
    ensures
        tag is Some,
        tag->0@ == hmac_sha1_tag(key@, msg@),
{
    let mut mac = match Hmac::<Sha1>::new_from_slice(key) {
        Ok(m) => m,
        Err(_) => return None,
    };
    mac.update(msg);
    Some(mac.finalize().into_bytes().into())
}

/// Whether a hashed `known_hosts` name (`|1|salt|hash`) is `host`: the
/// HMAC-SHA1 of the host name under the salt equals the stored hash,
/// compared in constant time.
pub fn host_matches_hashed(salt: &[u8], expected: &[u8; 20], host: &str) -> (r: bool)
    ensures
        r == (hmac_sha1_tag(salt@, host.spec_bytes()) == expected@),
{
    match hmac_sha1(salt, host.as_bytes()) {
        Some(computed) => constant_time_eq(&computed, expected),
        None => false,
    }
}

} // verus!

verus! {

/// An SSH public key, as the server presents it and as a `known_hosts`
/// line lists it.
#[verifier::external_type_specification]
#[verifier::external_body]
pub struct ExPublicKey(ssh_key::PublicKey);

/// `<ssh_key::PublicKey as PartialEq>::eq`. The impl is derived over the
/// key data and the comment, and every comparison under it is of bytes
/// or strings, so two keys compare equal exactly when they are the same
/// value.
#[verifier::external_body]
fn same_key(a: &PublicKey, b: &PublicKey) -> (r: bool)
    ensures
        r == (*a == *b),
{
    a.eq(b)
}

/// The marker at the start of a `known_hosts` line.
#[derive(Debug, Clone, Copy, PartialEq, Eq, Structural)]
pub enum KnownHostMarker {
    /// `@cert-authority`: the key signs host certificates.
    CertAuthority,
    /// `@revoked`: the key must never be accepted.
    Revoked,
}

/// The host part of a `known_hosts` line.
#[derive(Debug, Clone)]
pub enum KnownHostPatterns {
    /// Comma-separated patterns, each possibly `!`-negated or
    /// `[host]:port`.
    Patterns(Vec<String>),
    /// A hashed host name, `|1|salt|hash`.
    HashedName { salt: Vec<u8>, hash: [u8; 20] },
}

/// One well-formed `known_hosts` line: its marker, its host part and
/// the key it lists.
#[derive(Debug)]
pub struct KnownHostEntry {
    pub marker: Option<KnownHostMarker>,
    pub host_patterns: KnownHostPatterns,
    pub public_key: PublicKey,
}

/// Why a server's host key was refused.
#[derive(Debug, Clone, Copy, PartialEq, Eq, Structural)]
pub enum HostKeyRejection {
    /// A matching `@revoked` line lists the presented key.
    Revoked,
    /// No plain line for the host lists the presented key.
    NoMatchingEntry,
    /// The key's fingerprint could not be computed as SHA-256.
    FingerprintNotSha256,
    /// The key's SHA-256 fingerprint is not the pinned one.
    FingerprintMismatch,
}

/// Whether a `known_hosts` line is about `host` on `port`.
pub open spec fn entry_matches(e: KnownHostEntry, host: Seq<char>, port: u16) -> bool {
    match e.host_patterns {
        KnownHostPatterns::Patterns(p) => patterns_match(p@, host, port),
        KnownHostPatterns::HashedName { salt, hash } => hmac_sha1_tag(
            salt@,
            vstd::utf8::encode_utf8(host),
        ) == hash@,
    }
}

/// Whether a line of a `known_hosts` file parsed (`Some`), matches the
/// host, carries the marker `m` and lists the presented key.
pub open spec fn entry_hit(
    line: Option<KnownHostEntry>,
    host: Seq<char>,
    port: u16,
    key: PublicKey,
    m: Option<KnownHostMarker>,
) -> bool {
    match line {
        Some(e) => entry_matches(e, host, port) && e.marker == m && e.public_key == key,
        None => false,
    }
}

/// Whether some line is an `entry_hit` under the marker `m`.
pub open spec fn some_entry_hit(
    lines: Seq<Option<KnownHostEntry>>,
    host: Seq<char>,
    port: u16,
    key: PublicKey,
    m: Option<KnownHostMarker>,
) -> bool {
    exists|i: int| 0 <= i < lines.len() && entry_hit(#[trigger] lines[i], host, port, key, m)
}

/// The trust decision over the lines of a `known_hosts` file, malformed
/// ones (`None`) skipped: refused when an `@revoked` line for the host
/// lists the key; accepted when a plain line for the host lists it;
/// refused otherwise. `@cert-authority` lines never grant trust.
pub open spec fn known_hosts_verdict(
    lines: Seq<Option<KnownHostEntry>>,
    host: Seq<char>,
    port: u16,
    key: PublicKey,
) -> Result<(), HostKeyRejection> {
    if some_entry_hit(lines, host, port, key, Some(KnownHostMarker::Revoked)) {
        Err(HostKeyRejection::Revoked)
    } else if some_entry_hit(lines, host, port, key, None) {
        Ok(())
    } else {
        Err(HostKeyRejection::NoMatchingEntry)
    }
}

/// Whether a `known_hosts` line is about `host` on `port`.
pub fn host_matches_entry(entry: &KnownHostEntry, host: &str, port: u16) -> (r: bool)
    ensures
        r == entry_matches(*entry, host@, port),
{
    match &entry.host_patterns {
        KnownHostPatterns::Patterns(patterns) => host_matches_patterns(patterns.as_slice(), host, port),
        KnownHostPatterns::HashedName { salt, hash } => host_matches_hashed(salt.as_slice(), hash, host),
    }
}

/// Decide whether the lines of a `known_hosts` file, in file order,
/// trust the key the server presented for `host` on `port`. Lines that
/// did not parse (`None`) are skipped, as `ssh(1)` does.
pub fn check_known_hosts(
    lines: &[Option<KnownHostEntry>],
    host: &str,
    port: u16,
    key: &PublicKey,
) -> (r: Result<(), HostKeyRejection>)
    ensures
        r == known_hosts_verdict(lines@, host@, port, *key),
{
    let mut matched_accept = false;
    let mut i: usize = 0;
    while i < lines.len()
        invariant
            i <= lines@.len(),
            matched_accept == (exists|j: int|
                0 <= j < i && entry_hit(#[trigger] lines@[j], host@, port, *key, None)),
            forall|j: int|
                0 <= j < i ==> !entry_hit(
                    #[trigger] lines@[j],
                    host@,
                    port,
                    *key,
                    Some(KnownHostMarker::Revoked),
                ),
        decreases lines@.len() - i,
    {
        if let Some(entry) = &lines[i] {
            if host_matches_entry(entry, host, port) {
                match entry.marker {
                    Some(KnownHostMarker::Revoked) => {
                        if same_key(&entry.public_key, key) {
                            assert(entry_hit(
                                lines@[i as int],
                                host@,
                                port,
                                *key,
                                Some(KnownHostMarker::Revoked),
                            ));
                            return Err(HostKeyRejection::Revoked);
                        }
                    },
                    Some(KnownHostMarker::CertAuthority) => {},
                    None => {
                        if same_key(&entry.public_key, key) {
                            matched_accept = true;
                        }
                    },
                }
            }
        }
        i = i + 1;
    }
    if matched_accept {
        Ok(())
    } else {
        Err(HostKeyRejection::NoMatchingEntry)
    }
}

/// Check a key's SHA-256 fingerprint, when it has one, against the
/// pinned value, in constant time.
pub fn check_pinned(actual: Option<[u8; 32]>, expected: &[u8; 32]) -> (r: Result<(), HostKeyRejection>)
    ensures
        r == (match actual {
            None => Err(HostKeyRejection::FingerprintNotSha256),
            Some(a) => if a@ == expected@ {
                Ok(())
            } else {
                Err(HostKeyRejection::FingerprintMismatch)
            },
        }),
{
    match actual {
        None => Err(HostKeyRejection::FingerprintNotSha256),
        Some(a) => {
            if constant_time_eq(&a, expected) {
                Ok(())
            } else {
                Err(HostKeyRejection::FingerprintMismatch)
            }
        },
    }
}

} // verus!

verus! {

/// A `!` pattern that applies to the host outweighs any number of
/// positive patterns that apply too.
pub proof fn lemma_negation_wins(patterns: Seq<String>, host: Seq<char>, port: u16)
    requires
        some_hit(patterns, host, port, true),
    ensures
        !patterns_match(patterns, host, port),
{
}

/// A matching `@revoked` line that lists the presented key refuses the
/// key, whatever the other lines say.
pub proof fn lemma_revoked_refuses(
    lines: Seq<Option<KnownHostEntry>>,
    host: Seq<char>,
    port: u16,
    key: PublicKey,
)
    requires
        some_entry_hit(lines, host, port, key, Some(KnownHostMarker::Revoked)),
    ensures
        known_hosts_verdict(lines, host, port, key) == Err::<(), HostKeyRejection>(
            HostKeyRejection::Revoked,
        ),
{
}

/// Adding a line leaves alone whether the other lines hit under a
/// marker other than its own.
proof fn lemma_push_other_marker(
    lines: Seq<Option<KnownHostEntry>>,
    line: Option<KnownHostEntry>,
    host: Seq<char>,
    port: u16,
    key: PublicKey,
    m: Option<KnownHostMarker>,
)
    requires
        !entry_hit(line, host, port, key, m),
    ensures
        some_entry_hit(lines.push(line), host, port, key, m) == some_entry_hit(
            lines,
            host,
            port,
            key,
            m,
        ),
{
    let all = lines.push(line);
    if some_entry_hit(all, host, port, key, m) {
        let i = choose|i: int| 0 <= i < all.len() && entry_hit(#[trigger] all[i], host, port, key, m);
        assert(i < lines.len());
        assert(lines[i] == all[i]);
    }
    if some_entry_hit(lines, host, port, key, m) {
        let i = choose|i: int| 0 <= i < lines.len() && entry_hit(#[trigger] lines[i], host, port, key, m);
        assert(all[i] == lines[i]);
    }
}

/// An `@cert-authority` line never changes the trust decision: adding
/// one to a file leaves the verdict as it was. Neither does a line that
/// did not parse.
pub proof fn lemma_cert_authority_grants_nothing(
    lines: Seq<Option<KnownHostEntry>>,
    line: Option<KnownHostEntry>,
    host: Seq<char>,
    port: u16,
    key: PublicKey,
)
    requires
        line matches Some(e) ==> e.marker == Some(KnownHostMarker::CertAuthority),
    ensures
        known_hosts_verdict(lines.push(line), host, port, key) == known_hosts_verdict(
            lines,
            host,
            port,
            key,
        ),
{
    lemma_push_other_marker(lines, line, host, port, key, Some(KnownHostMarker::Revoked));
    lemma_push_other_marker(lines, line, host, port, key, None);
}

} // verus!

verus! {

/// A `[host]:port` pattern splits back into its host and port, for any
/// host in which no `]` is followed by `:`.
pub proof fn lemma_host_port_roundtrip(h: Seq<char>, p: u16)
    requires
        forall|i: int| 0 <= i < h.len() - 1 ==> !(#[trigger] h[i] == ']' && h[i + 1] == ':'),
    ensures
        split_host_port(seq!['['] + h + seq![']', ':'] + crate::text::dec_nat(p as nat)) == Some(
            (h, p),
        ),
{
    let d = crate::text::dec_nat(p as nat);
    let c = seq!['['] + h + seq![']', ':'] + d;
    lemma_dec_nat_digits(p as nat);
    let n = h.len() as int;
    assert(c[n + 1] == ']' && c[n + 2] == ':');
    assert forall|m: int| 1 <= m < n + 1 implies !(#[trigger] c[m] == ']' && c[m + 1] == ':') by {
        assert(c[m] == h[m - 1]);
        if m < n {
            assert(c[m + 1] == h[m]);
        }
    }
    lemma_first_close_from(c, 1, (n + 1) as nat);
    assert(c.subrange(n + 3, c.len() as int) =~= d);
    assert(strip_plus(d) == d);
    assert(c.subrange(1, n + 1) =~= h);
}

proof fn lemma_first_close_from(c: Seq<char>, i: nat, j: nat)
    requires
        1 <= i <= j,
        j + 1 < c.len(),
        c[j as int] == ']' && c[j as int + 1] == ':',
        forall|m: int| i <= m < j ==> !(#[trigger] c[m] == ']' && c[m + 1] == ':'),
    ensures
        first_close(c, i) == Some(j),
    decreases j - i,
{
    if i < j {
        lemma_first_close_from(c, i + 1, j);
    }
}

} // verus!
