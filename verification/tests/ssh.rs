use std::time::Duration;

use hmac::{Hmac, Mac};
use psrp_rs::internal::ssh::{constant_time_eq, glob_match, host_matches_hashed, host_matches_patterns};
use psrp_rs::ssh::config::{HostKeyPolicy, SshAuth, SshConfig};
use psrp_rs::ssh::hosts::{
    check_known_hosts, check_pinned, parse_pattern_host_port, HostKeyRejection, KnownHostEntry,
    KnownHostMarker, KnownHostPatterns,
};
use psrp_rs::ssh::trust::{host_certificate_accepted, verify_host_key, verify_known_hosts, verify_pinned};
use sha1::Sha1;
use ssh_key::known_hosts::{Entry, HostPatterns};
use ssh_key::HashAlg;

#[test]
fn ssh_config_builder_sets_every_field() {
    let cfg = SshConfig::new("host.example", "admin", SshAuth::Agent, Some("/home/admin"))
        .with_port(2222)
        .with_subsystem("pwsh")
        .with_connect_timeout(Duration::from_secs(5))
        .with_host_key_policy(HostKeyPolicy::AcceptAny);

    assert_eq!(cfg.host, "host.example");
    assert_eq!(cfg.username, "admin");
    assert!(matches!(cfg.auth, SshAuth::Agent));
    assert_eq!(cfg.port, 2222);
    assert_eq!(cfg.subsystem, "pwsh");
    assert_eq!(cfg.connect_timeout, Duration::from_secs(5));
    assert!(matches!(cfg.host_key_policy, HostKeyPolicy::AcceptAny));
}

#[test]
fn ssh_config_new_keeps_the_safe_defaults() {
    let cfg = SshConfig::new("h", "u", SshAuth::Agent, Some("/home/u"));
    let defaults = SshConfig::defaults(Some("/home/u"));
    assert_eq!(cfg.port, defaults.port);
    assert_eq!(cfg.subsystem, defaults.subsystem);
    assert_eq!(cfg.connect_timeout, defaults.connect_timeout);
    assert!(matches!(cfg.host_key_policy, HostKeyPolicy::KnownHosts(_)));
}

#[test]
fn ssh_config_defaults() {
    let cfg = SshConfig::defaults(Some("/home/u"));
    assert_eq!(cfg.port, 22);
    assert_eq!(cfg.subsystem, "powershell");
    assert_eq!(cfg.connect_timeout, Duration::from_secs(30));
    assert!(matches!(cfg.host_key_policy, HostKeyPolicy::KnownHosts(_)));
}

#[test]
fn ssh_auth_variants() {
    let _pw = SshAuth::Password("secret".into());
    let _key = SshAuth::PrivateKey { path: "/home/user/.ssh/id_rsa".into(), passphrase: None };
    let _agent = SshAuth::Agent;
}

#[test]
fn debug_format() {
    let mut cfg = SshConfig::defaults(None);
    cfg.host = "test".into();
    let s = format!("{:?}", cfg);
    assert!(s.contains("test"));
}

#[test]
fn glob_matches_literal_and_wildcards() {
    assert!(glob_match("example.com", "example.com"));
    assert!(glob_match("EXAMPLE.com", "example.com"));
    assert!(!glob_match("example.com", "other.com"));
    assert!(glob_match("*.example.com", "host.example.com"));
    assert!(!glob_match("*.example.com", "example.com"));
    assert!(glob_match("h?st", "host"));
    assert!(!glob_match("h?st", "hoost"));
}

#[test]
fn glob_matches_star_edge_cases() {
    assert!(glob_match("*", ""));
    assert!(glob_match("*", "anything"));
    assert!(glob_match("**", "anything"));
    assert!(glob_match("a*", "a"));
    assert!(glob_match("*a", "a"));
    assert!(glob_match("a*b*c", "abc"));
    assert!(glob_match("a*b*c", "axxbyyc"));
    assert!(!glob_match("a*b*c", "axxbyy"));
    assert!(!glob_match("*?", ""));
    assert!(glob_match("", ""));
    assert!(!glob_match("", "x"));
    assert!(glob_match("host*", "host"));
}

#[test]
fn glob_match_is_not_exponential() {
    let pattern = "*a*a*a*a*a*a*a*a*a*a*a*a*a*a*a*a*b";
    let target = "a".repeat(256);
    let start = std::time::Instant::now();
    assert!(!glob_match(pattern, &target));
    assert!(
        start.elapsed() < Duration::from_secs(1),
        "glob_match took {:?} — backtracking blew up again",
        start.elapsed()
    );
}

#[test]
fn pattern_match_respects_port_brackets() {
    assert!(host_matches_patterns(&["[example.com]:2222".to_string()], "example.com", 2222));
    assert!(!host_matches_patterns(&["[example.com]:2222".to_string()], "example.com", 22));
    assert!(host_matches_patterns(&["example.com".to_string()], "example.com", 22));
    assert!(!host_matches_patterns(&["example.com".to_string()], "example.com", 2222));
}

#[test]
fn pattern_negation_overrides_positive_match() {
    let patterns = vec!["*.example.com".to_string(), "!evil.example.com".to_string()];
    assert!(host_matches_patterns(&patterns, "good.example.com", 22));
    assert!(!host_matches_patterns(&patterns, "evil.example.com", 22));
}

#[test]
fn hashed_host_match_via_hmac_sha1() {
    let host = "host.example.com";
    let salt = b"\x01\x02\x03\x04\x05\x06\x07\x08\x09\x0a\x0b\x0c\x0d\x0e\x0f\x10\x11\x12\x13\x14";
    let mut mac = Hmac::<Sha1>::new_from_slice(salt).unwrap();
    mac.update(host.as_bytes());
    let expected: [u8; 20] = mac.finalize().into_bytes().into();
    assert!(host_matches_hashed(salt, &expected, host));
    assert!(!host_matches_hashed(salt, &expected, "other.example.com"));
}

#[test]
fn constant_time_eq_basic() {
    assert!(constant_time_eq(b"abc", b"abc"));
    assert!(!constant_time_eq(b"abc", b"abd"));
    assert!(!constant_time_eq(b"abc", b"abcd"));
}

const KEY_A: &str =
    "ssh-ed25519 AAAAC3NzaC1lZDI1NTE5AAAAIB9dG4kjRhQTtWTVzd2t27+t0DEHBPW7iOD23TUiYLio";
const KEY_B: &str =
    "ssh-ed25519 AAAAC3NzaC1lZDI1NTE5AAAAILRzpKj+f5Lzt8O6XsBRSJZNwZpRm9rA0kRNH4yp1ZxN";
const PATH: &str = "/home/u/.ssh/known_hosts";

fn key(s: &str) -> ssh_key::PublicKey {
    s.parse().unwrap()
}

#[test]
fn known_hosts_accepts_matching_plain_entry() {
    let key = key(KEY_A);
    let contents = format!("example.com {KEY_A}\n");
    verify_known_hosts(PATH, &contents, "example.com", 22, &key).unwrap();
}

#[test]
fn known_hosts_rejects_non_matching_host() {
    let key = key(KEY_A);
    let contents = format!("example.com {KEY_A}\n");
    let err = verify_known_hosts(PATH, &contents, "different.com", 22, &key).unwrap_err();
    assert!(err.contains("no matching entry"));
}

#[test]
fn pinned_fingerprint_matches() {
    let key = key(KEY_A);
    let raw = key.fingerprint(HashAlg::Sha256).sha256().unwrap();
    verify_pinned(&raw, &key).unwrap();
    let mut bad = raw;
    bad[0] ^= 0xff;
    assert!(verify_pinned(&bad, &key).is_err());
}

#[test]
fn known_hosts_revoked_entry_blocks_matching_key() {
    let key = key(KEY_A);
    let contents = format!("@revoked example.com {KEY_A}\n");
    let err = verify_known_hosts(PATH, &contents, "example.com", 22, &key).unwrap_err();
    assert!(err.contains("revoked"), "expected revoked rejection, got: {err}");
}

#[test]
fn known_hosts_revoked_entry_with_different_key_does_not_falsely_block() {
    let trusted = key(KEY_B);
    let contents = format!("@revoked example.com {KEY_A}\nexample.com {KEY_B}\n");
    verify_known_hosts(PATH, &contents, "example.com", 22, &trusted).unwrap();
}

#[test]
fn known_hosts_cert_authority_entry_does_not_grant_trust() {
    let key = key(KEY_A);
    let contents = format!("@cert-authority *.example.com {KEY_A}\n");
    let err = verify_known_hosts(PATH, &contents, "host.example.com", 22, &key).unwrap_err();
    assert!(
        err.contains("no matching entry"),
        "@cert-authority must not grant direct trust, got: {err}"
    );
}

#[test]
fn known_hosts_hashed_entry_full_file_roundtrip() {
    let host = "secret.example.com";
    let salt: Vec<u8> =
        b"\x21\x22\x23\x24\x25\x26\x27\x28\x29\x2a\x2b\x2c\x2d\x2e\x2f\x30\x31\x32\x33\x34".to_vec();
    let mut mac = Hmac::<Sha1>::new_from_slice(&salt).unwrap();
    mac.update(host.as_bytes());
    let hash: [u8; 20] = mac.finalize().into_bytes().into();
    let patterns = HostPatterns::HashedName { salt: salt.clone(), hash };
    let key = key(KEY_A);
    let line = format!("{} {KEY_A}", patterns.to_string());
    line.parse::<Entry>().unwrap();
    let contents = format!("{line}\n");
    verify_known_hosts(PATH, &contents, host, 22, &key).unwrap();
    let err = verify_known_hosts(PATH, &contents, "other.example.com", 22, &key).unwrap_err();
    assert!(err.contains("no matching entry"));
}

#[test]
fn known_hosts_iterates_through_multiple_entries() {
    let trusted = key(KEY_A);
    let contents = format!(
        "github.com {KEY_B}\n\
         gitlab.example {KEY_B}\n\
         # comment line followed by blank\n\
         \n\
         example.com {KEY_A}\n\
         backup.example.com {KEY_B}\n",
    );
    verify_known_hosts(PATH, &contents, "example.com", 22, &trusted).unwrap();
}

#[test]
fn known_hosts_skips_malformed_lines_and_still_accepts_valid_entry() {
    let key = key(KEY_A);
    let contents = format!(
        "this is not a valid known_hosts entry at all\n\
         |1|incomplete-hashed-host-line\n\
         example.com {KEY_A}\n\
         @nonsense-marker example.com {KEY_A}\n",
    );
    verify_known_hosts(PATH, &contents, "example.com", 22, &key).unwrap();
}

fn line(marker: Option<KnownHostMarker>, patterns: &[&str], k: &str) -> Option<KnownHostEntry> {
    Some(KnownHostEntry {
        marker,
        host_patterns: KnownHostPatterns::Patterns(patterns.iter().map(|p| p.to_string()).collect()),
        public_key: key(k),
    })
}

#[test]
fn known_hosts_messages_name_the_host_port_and_file() {
    let key = key(KEY_A);
    let err = verify_known_hosts(PATH, "", "example.com", 2222, &key).unwrap_err();
    assert_eq!(
        err,
        "no matching entry for example.com:2222 in /home/u/.ssh/known_hosts — host key not trusted"
    );
    let contents = format!("@revoked [example.com]:2222 {KEY_A}\n");
    let err = verify_known_hosts(PATH, &contents, "example.com", 2222, &key).unwrap_err();
    assert_eq!(err, "host key for example.com explicitly revoked in /home/u/.ssh/known_hosts");
}

#[test]
fn revoked_line_refuses_wherever_it_stands() {
    let k = key(KEY_A);
    let lines = [
        line(None, &["example.com"], KEY_A),
        None,
        line(Some(KnownHostMarker::Revoked), &["*.com"], KEY_A),
    ];
    assert_eq!(check_known_hosts(&lines, "example.com", 22, &k), Err(HostKeyRejection::Revoked));
    let other = key(KEY_B);
    assert_eq!(
        check_known_hosts(&lines, "example.com", 22, &other),
        Err(HostKeyRejection::NoMatchingEntry)
    );
}

#[test]
fn cert_authority_and_malformed_lines_change_nothing() {
    let k = key(KEY_A);
    let base = [line(None, &["example.com"], KEY_A)];
    let more = [
        line(None, &["example.com"], KEY_A),
        line(Some(KnownHostMarker::CertAuthority), &["example.com"], KEY_A),
        None,
    ];
    assert_eq!(check_known_hosts(&base, "example.com", 22, &k), Ok(()));
    assert_eq!(check_known_hosts(&more, "example.com", 22, &k), Ok(()));
    let ca_only = [line(Some(KnownHostMarker::CertAuthority), &["example.com"], KEY_A), None];
    assert_eq!(
        check_known_hosts(&ca_only, "example.com", 22, &k),
        Err(HostKeyRejection::NoMatchingEntry)
    );
}

#[test]
fn check_pinned_reports_each_outcome() {
    let raw = [7u8; 32];
    assert_eq!(check_pinned(Some(raw), &raw), Ok(()));
    let mut bad = raw;
    bad[0] ^= 0xff;
    assert_eq!(check_pinned(Some(raw), &bad), Err(HostKeyRejection::FingerprintMismatch));
    assert_eq!(check_pinned(None, &raw), Err(HostKeyRejection::FingerprintNotSha256));
}

#[test]
fn parse_pattern_host_port_cases() {
    assert_eq!(parse_pattern_host_port("[example.com]:2222"), ("example.com", Some(2222)));
    assert_eq!(parse_pattern_host_port("[example.com]:+22"), ("example.com", Some(22)));
    assert_eq!(parse_pattern_host_port("[example.com]:99999"), ("[example.com]:99999", None));
    assert_eq!(parse_pattern_host_port("[example.com]:"), ("[example.com]:", None));
    assert_eq!(parse_pattern_host_port("example.com"), ("example.com", None));
    assert_eq!(parse_pattern_host_port("[a]:b]:22"), ("[a]:b]:22", None));
}

#[test]
fn known_hosts_default_path() {
    match HostKeyPolicy::default_in_home(Some("/home/u")) {
        HostKeyPolicy::KnownHosts(p) => assert_eq!(p, "/home/u/.ssh/known_hosts"),
        _ => panic!("expected KnownHosts"),
    }
    match HostKeyPolicy::default_in_home(Some("/root/")) {
        HostKeyPolicy::KnownHosts(p) => assert_eq!(p, "/root/.ssh/known_hosts"),
        _ => panic!("expected KnownHosts"),
    }
    match HostKeyPolicy::default_in_home(None) {
        HostKeyPolicy::KnownHosts(p) => assert_eq!(p, ".ssh/known_hosts"),
        _ => panic!("expected KnownHosts"),
    }
}

#[test]
fn host_certificates_only_pass_when_checking_is_off() {
    assert!(host_certificate_accepted(&HostKeyPolicy::AcceptAny));
    assert!(!host_certificate_accepted(&HostKeyPolicy::Pinned([0u8; 32])));
    assert!(!host_certificate_accepted(&HostKeyPolicy::KnownHosts("/x".into())));
}

#[test]
fn accept_any_returns_ok() {
    let key = key(KEY_A);
    verify_host_key(&HostKeyPolicy::AcceptAny, "x", 22, &key, Ok("")).unwrap();
}

#[test]
fn known_hosts_rejects_when_file_missing() {
    let dummy_key = key(KEY_A);
    let policy = HostKeyPolicy::KnownHosts("/this/path/does/not/exist".into());
    let err = verify_host_key(
        &policy,
        "example.com",
        22,
        &dummy_key,
        Err("No such file or directory (os error 2)"),
    )
    .unwrap_err();
    assert!(err.contains("known_hosts"));
    assert_eq!(
        err,
        "cannot read known_hosts file /this/path/does/not/exist: No such file or directory (os error 2)"
    );
}

#[test]
fn host_key_policies_dispatch() {
    let key = key(KEY_A);
    let raw = key.fingerprint(HashAlg::Sha256).sha256().unwrap();
    verify_host_key(&HostKeyPolicy::Pinned(raw), "h", 22, &key, Err("unused")).unwrap();
    assert!(verify_host_key(&HostKeyPolicy::Pinned([0; 32]), "h", 22, &key, Ok("")).is_err());
    let policy = HostKeyPolicy::KnownHosts(PATH.into());
    let contents = format!("example.com {KEY_A}\n");
    verify_host_key(&policy, "example.com", 22, &key, Ok(&contents)).unwrap();
    assert!(verify_host_key(&policy, "other.com", 22, &key, Ok(&contents)).is_err());
}

#[test]
fn literal_patterns_match_their_case_folds() {
    for (p, t) in [("Host.Example", "host.example"), ("héllo", "HéLLO"), ("abc", "abd"), ("", "")] {
        assert_eq!(glob_match(p, t), p.eq_ignore_ascii_case(t), "{p} {t}");
        assert!(glob_match(p, p));
        assert!(glob_match("*", p));
    }
}
