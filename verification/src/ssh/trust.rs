//! Whether to trust the host key a server presents: against a pinned
//! SHA-256 fingerprint, or against the text of a `known_hosts` file.

use vstd::prelude::*;
use vstd::string::StringExecFns;
use ssh_key::known_hosts::{HostPatterns, KnownHosts, Marker};
use ssh_key::{HashAlg, PublicKey};
use super::hosts::{
    check_known_hosts, check_pinned, known_hosts_verdict, HostKeyRejection, KnownHostEntry,
    KnownHostMarker, KnownHostPatterns,
};
use crate::text::{dec_nat, push_decimal_u64};
use super::config::HostKeyPolicy;

verus! {

/// The lines that `ssh_key::known_hosts::KnownHosts` reads from a file's
/// text: one item per line that is not blank once its `#` comment is
/// cut, `None` for a line that does not parse.
pub uninterp spec fn known_hosts_lines(contents: Seq<char>) -> Seq<Option<KnownHostEntry>>;

/// `ssh_key::known_hosts::KnownHosts::new(contents)`, walked to its end:
/// each `Entry` taken apart into a `KnownHostEntry`, each parse error
/// into `None`. The parser reads nothing but `contents`.
#[verifier::external_body]
fn parse_known_hosts(contents: &str) -> (r: Vec<Option<KnownHostEntry>>)
    ensures
        r@ == known_hosts_lines(contents@),
{
    let mut lines = Vec::new();
    for line in KnownHosts::new(contents) {
        lines.push(line.ok().map(|e| KnownHostEntry {
            marker: e.marker().map(|m| match m {
                Marker::CertAuthority => KnownHostMarker::CertAuthority,
                Marker::Revoked => KnownHostMarker::Revoked,
            }),
            host_patterns: match e.host_patterns() {
                HostPatterns::Patterns(p) => KnownHostPatterns::Patterns(p.clone()),
                HostPatterns::HashedName { salt, hash } => KnownHostPatterns::HashedName { salt: salt.clone(), hash: *hash },
            },
            public_key: e.public_key().clone(),
        }));
    }
    lines
}

/// The SHA-256 fingerprint of a key: the digest of its encoded key data.
pub uninterp spec fn key_sha256(key: PublicKey) -> Seq<u8>;

/// `PublicKey::fingerprint(HashAlg::Sha256)`, then `Fingerprint::sha256`.
/// Asked for with SHA-256, the fingerprint is the `Sha256` variant, so
/// `sha256` always hands back its 32 bytes; which bytes is left to the
/// crate. (Hashing the key panics only if its encoding fails, which
/// writing a key that was decoded into a digest does not.)
#[verifier::external_body]
fn sha256_fingerprint(key: &PublicKey) -> (r: Option<[u8; 32]>)
    ensures
        r is Some,
        r->0@ == key_sha256(*key),
{
    key.fingerprint(HashAlg::Sha256).sha256()
}

/// Accept the presented key only if its SHA-256 fingerprint is the
/// pinned one; the fingerprints are compared in constant time.
pub fn verify_pinned(expected: &[u8; 32], key: &PublicKey) -> (r: Result<(), String>)
    ensures
        r is Ok <==> key_sha256(*key) == expected@,
        r matches Err(m) ==> m@ == "pinned SHA-256 fingerprint does not match"@,
{
    let actual = sha256_fingerprint(key);
    match check_pinned(actual, expected) {
        Ok(()) => Ok(()),
        Err(HostKeyRejection::FingerprintNotSha256) => Err(
            "computed fingerprint was not SHA-256".to_owned(),
        ),
        Err(_) => Err("pinned SHA-256 fingerprint does not match".to_owned()),
    }
}

/// Why a `known_hosts` file at `path` refuses a key that an `@revoked`
/// line for `host` lists.
pub open spec fn revoked_message(host: Seq<char>, path: Seq<char>) -> Seq<char> {
    "host key for "@ + host + " explicitly revoked in "@ + path
}

/// Why a `known_hosts` file at `path` does not trust a key for `host` on
/// `port`.
pub open spec fn untrusted_message(host: Seq<char>, port: u16, path: Seq<char>) -> Seq<char> {
    "no matching entry for "@ + host + ":"@ + dec_nat(port as nat) + " in "@ + path
        + " — host key not trusted"@
}

/// The answer, with its reason, of a verdict over the `known_hosts`
/// file at `path`.
pub open spec fn verdict_answer(
    verdict: Result<(), HostKeyRejection>,
    r: Result<(), String>,
    host: Seq<char>,
    port: u16,
    path: Seq<char>,
) -> bool {
    match verdict {
        Ok(()) => r is Ok,
        Err(HostKeyRejection::Revoked) => r matches Err(m) && m@ == revoked_message(host, path),
        Err(_) => r matches Err(m) && m@ == untrusted_message(host, port, path),
    }
}

/// Decide, over the parsed lines of the `known_hosts` file at `path`,
/// whether the key the server presented for `host` on `port` is trusted,
/// and say why not when it is not.
pub fn verify_parsed_known_hosts(
    path: &str,
    lines: &[Option<KnownHostEntry>],
    host: &str,
    port: u16,
    key: &PublicKey,
) -> (r: Result<(), String>)
    ensures
        verdict_answer(known_hosts_verdict(lines@, host@, port, *key), r, host@, port, path@),
{
    match check_known_hosts(lines, host, port, key) {
        Ok(()) => Ok(()),
        Err(HostKeyRejection::Revoked) => {
            let mut m = "host key for ".to_owned();
            m.append(host);
            m.append(" explicitly revoked in ");
            m.append(path);
            Err(m)
        },
        Err(_) => {
            let mut m = "no matching entry for ".to_owned();
            m.append(host);
            m.append(":");
            push_decimal_u64(&mut m, port as u64);
            m.append(" in ");
            m.append(path);
            m.append(" — host key not trusted");
            Err(m)
        },
    }
}

/// Decide whether the `known_hosts` file at `path`, whose text is
/// `contents`, trusts the key the server presented for `host` on
/// `port`. Lines that do not parse are skipped, as `ssh(1)` does.
pub fn verify_known_hosts(
    path: &str,
    contents: &str,
    host: &str,
    port: u16,
    key: &PublicKey,
) -> (r: Result<(), String>)
    ensures
        verdict_answer(
            known_hosts_verdict(known_hosts_lines(contents@), host@, port, *key),
            r,
            host@,
            port,
            path@,
        ),
{
    let lines = parse_known_hosts(contents);
    verify_parsed_known_hosts(path, lines.as_slice(), host, port, key)
}

/// Whether to accept a host *certificate* the server presents in place
/// of a bare key. There is no store of trusted certificate authorities,
/// so a certificate cannot be validated: it is refused unless the policy
/// switches host-key checking off altogether.
pub fn host_certificate_accepted(policy: &HostKeyPolicy) -> (r: bool)
    ensures
        r <==> policy is AcceptAny,
{
    match policy {
        HostKeyPolicy::AcceptAny => true,
        _ => false,
    }
}

/// Apply a host-key policy to the key the server presented for `host`
/// on `port`: accept any key, accept only the pinned fingerprint, or
/// decide by the `known_hosts` file of the policy. `known_hosts` is what
/// reading that file gave: its text, or the reason it could not be read
/// (which refuses the key); other policies ignore it.
pub fn verify_host_key(
    policy: &HostKeyPolicy,
    host: &str,
    port: u16,
    key: &PublicKey,
    known_hosts: Result<&str, &str>,
) -> (r: Result<(), String>)
    ensures
        match policy {
            HostKeyPolicy::AcceptAny => r is Ok,
            HostKeyPolicy::Pinned(expected) => (r is Ok <==> key_sha256(*key) == expected@) && (
            r matches Err(m) ==> m@ == "pinned SHA-256 fingerprint does not match"@),
            HostKeyPolicy::KnownHosts(path) => match known_hosts {
                Ok(contents) => verdict_answer(
                    known_hosts_verdict(known_hosts_lines(contents@), host@, port, *key),
                    r,
                    host@,
                    port,
                    path@,
                ),
                Err(e) => r matches Err(m) && m@ == "cannot read known_hosts file "@ + path@
                    + ": "@ + e@,
            },
        },
{
    match policy {
        HostKeyPolicy::AcceptAny => Ok(()),
        HostKeyPolicy::Pinned(expected) => verify_pinned(expected, key),
        HostKeyPolicy::KnownHosts(path) => match known_hosts {
            Ok(contents) => verify_known_hosts(path.as_str(), contents, host, port, key),
            Err(e) => {
                let mut m = "cannot read known_hosts file ".to_owned();
                m.append(path.as_str());
                m.append(": ");
                m.append(e);
                Err(m)
            },
        },
    }
}

} // verus!
