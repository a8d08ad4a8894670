//! SSH connection settings: where to connect, how to authenticate, and
//! how the server's host key is validated.

use vstd::prelude::*;
use vstd::string::StrSliceExecFns;
use std::time::Duration;
use crate::clixml::encode::string_of;

verus! {

/// `Duration::from_secs(secs)`.
pub uninterp spec fn duration_secs(secs: u64) -> Duration;

/// `std::time::Duration::from_secs`: a duration of `secs` whole
/// seconds, the same for the same `secs`.
#[verifier::external_body]
fn duration_from_secs(secs: u64) -> (d: Duration)
    ensures
        d == duration_secs(secs),
{
    Duration::from_secs(secs)
}

/// `Duration` is `Copy`: its `clone` returns the same duration.
pub assume_specification[ <std::time::Duration as std::clone::Clone>::clone ](
    d: &std::time::Duration,
) -> (r: std::time::Duration)
    ensures
        r == *d,
;

/// Host-key validation policy of the SSH transport.
///
/// The default, [`HostKeyPolicy::default_in_home`], consults
/// `~/.ssh/known_hosts`. Validation is only ever switched off by
/// choosing [`HostKeyPolicy::AcceptAny`] explicitly, so that a
/// misconfiguration cannot silently become a MITM hole.
#[derive(Clone, Debug)]
pub enum HostKeyPolicy {
    /// Accept only a key whose SHA-256 fingerprint is this 32-byte hash.
    Pinned([u8; 32]),
    /// Validate against an OpenSSH `known_hosts` file at this path.
    /// Plain and hashed (`|1|`) lines are supported; `@cert-authority`
    /// lines are ignored and a matching `@revoked` line always refuses.
    KnownHosts(String),
    /// Accept any host key. **Disables MITM protection.**
    AcceptAny,
}

/// The view of an optional home directory; unset reads as empty.
pub open spec fn home_view(home: Option<&str>) -> Seq<char> {
    match home {
        Some(h) => h@,
        None => Seq::empty(),
    }
}

/// `$HOME/.ssh/known_hosts`, joined as a path: no separator is added
/// after an empty home or one that already ends in `/`.
pub open spec fn known_hosts_path(home: Seq<char>) -> Seq<char> {
    if home.len() == 0 || home.last() == '/' {
        home + ".ssh/known_hosts"@
    } else {
        home + seq!['/'] + ".ssh/known_hosts"@
    }
}

/// Whether a policy is `KnownHosts` at exactly the path `path`.
pub open spec fn is_known_hosts_at(policy: HostKeyPolicy, path: Seq<char>) -> bool {
    match policy {
        HostKeyPolicy::KnownHosts(p) => p@ == path,
        _ => false,
    }
}

impl HostKeyPolicy {
    /// The default policy for a user whose home directory is `home`:
    /// validate against `home/.ssh/known_hosts`, refusing unknown hosts.
    pub fn default_in_home(home: Option<&str>) -> (r: HostKeyPolicy)
        ensures
            is_known_hosts_at(r, known_hosts_path(home_view(home))),
    {
        proof {
            reveal_strlit("/");
            assert("/"@ =~= seq!['/']);
        }
        let mut path = String::new();
        if let Some(h) = home {
            path.append(h);
            let n = h.unicode_len();
            if n > 0 && h.get_char(n - 1) != '/' {
                path.append("/");
            }
        }
        path.append(".ssh/known_hosts");
        assert(path@ =~= known_hosts_path(home_view(home)));
        HostKeyPolicy::KnownHosts(path)
    }
}

/// SSH authentication method.
#[derive(Debug, Clone)]
pub enum SshAuth {
    /// Password authentication.
    Password(String),
    /// A private key file, with an optional passphrase.
    PrivateKey { path: String, passphrase: Option<String> },
    /// The running SSH agent.
    Agent,
}

/// SSH connection parameters.
///
/// Marked `#[non_exhaustive]`: build one with [`SshConfig::new`] and the
/// `with_*` methods. The fields stay public, so an existing value can be
/// read and changed directly.
#[derive(Debug, Clone)]
#[non_exhaustive]
pub struct SshConfig {
    /// Remote host name or IP.
    pub host: String,
    /// SSH port (default 22).
    pub port: u16,
    /// User name for SSH authentication.
    pub username: String,
    /// Authentication method.
    pub auth: SshAuth,
    /// SSH subsystem to request (default `powershell`).
    pub subsystem: String,
    /// TCP connect timeout (default 30 s).
    pub connect_timeout: Duration,
    /// Host-key validation policy (default: the user's `known_hosts`).
    pub host_key_policy: HostKeyPolicy,
}

/// The defaults: empty host and user, port 22, agent authentication,
/// the `powershell` subsystem, a 30-second connect timeout, and the
/// user's `known_hosts`.
pub open spec fn is_default_config(c: SshConfig, home: Seq<char>) -> bool {
    &&& c.host@ == Seq::<char>::empty()
    &&& c.port == 22
    &&& c.username@ == Seq::<char>::empty()
    &&& c.auth is Agent
    &&& c.subsystem@ == "powershell"@
    &&& c.connect_timeout == duration_secs(30)
    &&& is_known_hosts_at(c.host_key_policy, known_hosts_path(home))
}

impl SshConfig {
    /// The default settings for a user whose home directory is `home`.
    pub fn defaults(home: Option<&str>) -> (r: SshConfig)
        ensures
            is_default_config(r, home_view(home)),
    {
        SshConfig {
            host: String::new(),
            port: 22,
            username: String::new(),
            auth: SshAuth::Agent,
            subsystem: string_of("powershell"),
            connect_timeout: duration_from_secs(30),
            host_key_policy: HostKeyPolicy::default_in_home(home),
        }
    }

    /// Start from the defaults, supplying the three values that have no
    /// sensible default; everything else keeps its default, host-key
    /// checking against `home/.ssh/known_hosts` included.
    pub fn new(host: &str, username: &str, auth: SshAuth, home: Option<&str>) -> (r: SshConfig)
        ensures
            r.host@ == host@,
            r.username@ == username@,
            r.auth == auth,
            r.port == 22,
            r.subsystem@ == "powershell"@,
            r.connect_timeout == duration_secs(30),
            is_known_hosts_at(r.host_key_policy, known_hosts_path(home_view(home))),
    {
        let d = SshConfig::defaults(home);
        SshConfig { host: string_of(host), username: string_of(username), auth, ..d }
    }

    /// Override the TCP port.
    pub fn with_port(self, port: u16) -> (r: SshConfig)
        ensures
            r == (SshConfig { port, ..self }),
    {
        SshConfig { port, ..self }
    }

    /// Override the SSH subsystem to request.
    pub fn with_subsystem(self, subsystem: &str) -> (r: SshConfig)
        ensures
            r.subsystem@ == subsystem@,
            r == (SshConfig { subsystem: r.subsystem, ..self }),
    {
        SshConfig { subsystem: string_of(subsystem), ..self }
    }

    /// Override the connect timeout.
    pub fn with_connect_timeout(self, timeout: Duration) -> (r: SshConfig)
        ensures
            r == (SshConfig { connect_timeout: timeout, ..self }),
    {
        SshConfig { connect_timeout: timeout, ..self }
    }

    /// Override how the server's host key is validated. Only
    /// [`HostKeyPolicy::AcceptAny`] switches validation off.
    pub fn with_host_key_policy(self, policy: HostKeyPolicy) -> (r: SshConfig)
        ensures
            r == (SshConfig { host_key_policy: policy, ..self }),
    {
        SshConfig { host_key_policy: policy, ..self }
    }
}

} // verus!
