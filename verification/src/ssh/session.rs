//! Opening an SSH session for PSRP, step by step: connect and run the
//! handshake (in which the server's host key is checked against the
//! policy), authenticate, open a session channel, and request the
//! PowerShell subsystem. The caller performs each step and reports how
//! it went; this module decides the next step, or the error to give up
//! with.

use vstd::prelude::*;
use vstd::string::StringExecFns;
use std::time::Duration;
use super::config::{SshAuth, SshConfig};
use crate::text::{dec_nat, push_decimal_u64};

verus! {

/// Where the session setup stands.
#[derive(Debug, Clone, Copy, PartialEq, Eq, Structural)]
pub enum ConnectState {
    /// Connecting and running the SSH handshake.
    Connecting,
    /// Loading the private key to authenticate with.
    LoadingKey,
    /// Authenticating with a password.
    AuthenticatingPassword,
    /// Authenticating with the loaded private key.
    AuthenticatingKey,
    /// Opening a session channel.
    OpeningChannel,
    /// Requesting the subsystem on the channel.
    RequestingSubsystem,
    /// The session is ready for PSRP.
    Ready,
    /// The setup gave up.
    Failed,
}

/// How the step the caller performed went.
pub enum ConnectEvent {
    /// It succeeded.
    Succeeded,
    /// The server answered the authentication attempt: accepted or not.
    Authenticated(bool),
    /// The connection did not come up within the connect timeout.
    TimedOut,
    /// It failed, with this error text.
    Failed(String),
}

/// The next step for the caller.
pub enum ConnectAction {
    /// Connect to `addr` and run the handshake, within `timeout`.
    Connect { addr: String, timeout: Duration },
    /// Load the private key at `path`, decrypting it with `passphrase`.
    LoadKey { path: String, passphrase: Option<String> },
    /// Authenticate `username` with `password`.
    AuthenticatePassword { username: String, password: String },
    /// Authenticate `username` with the loaded private key.
    AuthenticateKey { username: String },
    /// Open a session channel.
    OpenChannel,
    /// Request the subsystem `subsystem` on the channel.
    RequestSubsystem { subsystem: String },
    /// Nothing more to do: the session is ready.
    Ready,
    /// Give up with this error text.
    Fail(String),
}

/// The model of a [`ConnectEvent`].
pub enum EventView {
    Succeeded,
    Authenticated(bool),
    TimedOut,
    Failed(Seq<char>),
}

/// The model of a [`ConnectAction`].
pub enum ActionView {
    Connect { addr: Seq<char>, timeout: Duration },
    LoadKey { path: Seq<char>, passphrase: Option<Seq<char>> },
    AuthenticatePassword { username: Seq<char>, password: Seq<char> },
    AuthenticateKey { username: Seq<char> },
    OpenChannel,
    RequestSubsystem { subsystem: Seq<char> },
    Ready,
    Fail(Seq<char>),
}

pub open spec fn event_view(e: ConnectEvent) -> EventView {
    match e {
        ConnectEvent::Succeeded => EventView::Succeeded,
        ConnectEvent::Authenticated(ok) => EventView::Authenticated(ok),
        ConnectEvent::TimedOut => EventView::TimedOut,
        ConnectEvent::Failed(m) => EventView::Failed(m@),
    }
}

pub open spec fn opt_string_view(s: Option<String>) -> Option<Seq<char>> {
    match s {
        Some(s) => Some(s@),
        None => None,
    }
}

pub open spec fn action_view(a: ConnectAction) -> ActionView {
    match a {
        ConnectAction::Connect { addr, timeout } => ActionView::Connect { addr: addr@, timeout },
        ConnectAction::LoadKey { path, passphrase } => ActionView::LoadKey {
            path: path@,
            passphrase: opt_string_view(passphrase),
        },
        ConnectAction::AuthenticatePassword { username, password } =>
            ActionView::AuthenticatePassword { username: username@, password: password@ },
        ConnectAction::AuthenticateKey { username } => ActionView::AuthenticateKey {
            username: username@,
        },
        ConnectAction::OpenChannel => ActionView::OpenChannel,
        ConnectAction::RequestSubsystem { subsystem } => ActionView::RequestSubsystem {
            subsystem: subsystem@,
        },
        ConnectAction::Ready => ActionView::Ready,
        ConnectAction::Fail(m) => ActionView::Fail(m@),
    }
}

/// The address connected to: `host:port`.
pub open spec fn connect_addr(c: SshConfig) -> Seq<char> {
    c.host@ + ":"@ + dec_nat(c.port as nat)
}

/// The answers each step can give: only the connection can time out,
/// only an authentication attempt is accepted or not, and the setup
/// takes no answer once it is ready or has given up.
pub open spec fn event_fits(s: ConnectState, e: EventView) -> bool {
    match s {
        ConnectState::Connecting => e is Succeeded || e is TimedOut || e is Failed,
        ConnectState::LoadingKey | ConnectState::OpeningChannel | ConnectState::RequestingSubsystem =>
            e is Succeeded || e is Failed,
        ConnectState::AuthenticatingPassword | ConnectState::AuthenticatingKey => e is Authenticated
            || e is Failed,
        ConnectState::Ready | ConnectState::Failed => false,
    }
}

/// The first step: connect to `host:port` within the connect timeout.
pub open spec fn connect_begin(c: SshConfig) -> (ConnectState, ActionView) {
    (ConnectState::Connecting, ActionView::Connect { addr: connect_addr(c), timeout: c.connect_timeout })
}

/// The step after the handshake, by authentication method: a password
/// is sent, a private key is loaded first, and agent authentication is
/// refused before anything is sent.
pub open spec fn after_handshake(c: SshConfig) -> (ConnectState, ActionView) {
    match c.auth {
        SshAuth::Password(pw) => (
            ConnectState::AuthenticatingPassword,
            ActionView::AuthenticatePassword { username: c.username@, password: pw@ },
        ),
        SshAuth::PrivateKey { path, passphrase } => (
            ConnectState::LoadingKey,
            ActionView::LoadKey { path: path@, passphrase: opt_string_view(passphrase) },
        ),
        SshAuth::Agent => (
            ConnectState::Failed,
            ActionView::Fail("SSH agent auth not yet implemented — use Password or PrivateKey"@),
        ),
    }
}

/// The next state and step after a step's answer.
pub open spec fn connect_transition(s: ConnectState, c: SshConfig, e: EventView) -> (
    ConnectState,
    ActionView,
) {
    match s {
        ConnectState::Connecting => match e {
            EventView::TimedOut => (
                ConnectState::Failed,
                ActionView::Fail("SSH connect timeout to "@ + connect_addr(c)),
            ),
            EventView::Failed(m) => (ConnectState::Failed, ActionView::Fail("SSH connect: "@ + m)),
            _ => after_handshake(c),
        },
        ConnectState::LoadingKey => match e {
            EventView::Failed(m) => (ConnectState::Failed, ActionView::Fail("SSH key load: "@ + m)),
            _ => (ConnectState::AuthenticatingKey, ActionView::AuthenticateKey { username: c.username@ }),
        },
        ConnectState::AuthenticatingPassword | ConnectState::AuthenticatingKey => match e {
            EventView::Failed(m) => (
                ConnectState::Failed,
                ActionView::Fail(
                    if s == ConnectState::AuthenticatingPassword {
                        "SSH password auth: "@
                    } else {
                        "SSH pubkey auth: "@
                    } + m,
                ),
            ),
            EventView::Authenticated(true) => (ConnectState::OpeningChannel, ActionView::OpenChannel),
            _ => (ConnectState::Failed, ActionView::Fail("SSH authentication failed"@)),
        },
        ConnectState::OpeningChannel => match e {
            EventView::Failed(m) => (ConnectState::Failed, ActionView::Fail("SSH channel open: "@ + m)),
            _ => (
                ConnectState::RequestingSubsystem,
                ActionView::RequestSubsystem { subsystem: c.subsystem@ },
            ),
        },
        ConnectState::RequestingSubsystem => match e {
            EventView::Failed(m) => (
                ConnectState::Failed,
                ActionView::Fail("SSH subsystem request: "@ + m),
            ),
            _ => (ConnectState::Ready, ActionView::Ready),
        },
        _ => (s, ActionView::Ready),
    }
}

/// `s` followed by `m`.
fn concat(s: &str, m: &str) -> (r: String)
    ensures
        r@ == s@ + m@,
{
    let mut r = s.to_owned();
    r.append(m);
    r
}

fn clone_opt_string(s: &Option<String>) -> (r: Option<String>)
    ensures
        opt_string_view(r) == opt_string_view(*s),
{
    match s {
        Some(s) => Some(s.clone()),
        None => None,
    }
}

/// The first step of opening a session: connect to `host:port` within
/// the connect timeout.
pub fn connect_start(config: &SshConfig) -> (r: (ConnectState, ConnectAction))
    ensures
        (r.0, action_view(r.1)) == connect_begin(*config),
{
    let mut addr = config.host.clone();
    addr.append(":");
    push_decimal_u64(&mut addr, config.port as u64);
    (ConnectState::Connecting, ConnectAction::Connect { addr, timeout: config.connect_timeout.clone() })
}

/// The next state and step of opening a session, after the answer to
/// the step taken in `state`.
pub fn connect_step(state: ConnectState, config: &SshConfig, event: ConnectEvent) -> (r: (
    ConnectState,
    ConnectAction,
))
    requires
        event_fits(state, event_view(event)),
    ensures
        (r.0, action_view(r.1)) == connect_transition(state, *config, event_view(event)),
{
    match state {
        ConnectState::Connecting => match event {
            ConnectEvent::TimedOut => {
                let mut m = "SSH connect timeout to ".to_owned();
                m.append(config.host.as_str());
                m.append(":");
                push_decimal_u64(&mut m, config.port as u64);
                assert(m@ =~= "SSH connect timeout to "@ + connect_addr(*config));
                (ConnectState::Failed, ConnectAction::Fail(m))
            },
            ConnectEvent::Failed(e) => (
                ConnectState::Failed,
                ConnectAction::Fail(concat("SSH connect: ", e.as_str())),
            ),
            _ => match &config.auth {
                SshAuth::Password(pw) => (
                    ConnectState::AuthenticatingPassword,
                    ConnectAction::AuthenticatePassword {
                        username: config.username.clone(),
                        password: pw.clone(),
                    },
                ),
                SshAuth::PrivateKey { path, passphrase } => (
                    ConnectState::LoadingKey,
                    ConnectAction::LoadKey {
                        path: path.clone(),
                        passphrase: clone_opt_string(passphrase),
                    },
                ),
                SshAuth::Agent => (
                    ConnectState::Failed,
                    ConnectAction::Fail(
                        "SSH agent auth not yet implemented — use Password or PrivateKey".to_owned(),
                    ),
                ),
            },
        },
        ConnectState::LoadingKey => match event {
            ConnectEvent::Failed(e) => (
                ConnectState::Failed,
                ConnectAction::Fail(concat("SSH key load: ", e.as_str())),
            ),
            _ => (
                ConnectState::AuthenticatingKey,
                ConnectAction::AuthenticateKey { username: config.username.clone() },
            ),
        },
        ConnectState::AuthenticatingPassword | ConnectState::AuthenticatingKey => match event {
            ConnectEvent::Failed(e) => {
                let prefix = if state == ConnectState::AuthenticatingPassword {
                    "SSH password auth: "
                } else {
                    "SSH pubkey auth: "
                };
                (ConnectState::Failed, ConnectAction::Fail(concat(prefix, e.as_str())))
            },
            ConnectEvent::Authenticated(true) => (ConnectState::OpeningChannel, ConnectAction::OpenChannel),
            _ => (ConnectState::Failed, ConnectAction::Fail("SSH authentication failed".to_owned())),
        },
        ConnectState::OpeningChannel => match event {
            ConnectEvent::Failed(e) => (
                ConnectState::Failed,
                ConnectAction::Fail(concat("SSH channel open: ", e.as_str())),
            ),
            _ => (
                ConnectState::RequestingSubsystem,
                ConnectAction::RequestSubsystem { subsystem: config.subsystem.clone() },
            ),
        },
        ConnectState::RequestingSubsystem => match event {
            ConnectEvent::Failed(e) => (
                ConnectState::Failed,
                ConnectAction::Fail(concat("SSH subsystem request: ", e.as_str())),
            ),
            _ => (ConnectState::Ready, ConnectAction::Ready),
        },
        _ => (state, ConnectAction::Ready),
    }
}

/// How far the setup has come: connecting, loading a key, authenticating,
/// opening the channel, requesting the subsystem, finished.
pub open spec fn stage(s: ConnectState) -> nat {
    match s {
        ConnectState::Connecting => 0,
        ConnectState::LoadingKey => 1,
        ConnectState::AuthenticatingPassword | ConnectState::AuthenticatingKey => 2,
        ConnectState::OpeningChannel => 3,
        ConnectState::RequestingSubsystem => 4,
        ConnectState::Ready | ConnectState::Failed => 5,
    }
}

/// Credentials leave only after the handshake, in which the server's
/// host key is checked, has succeeded: a password is sent, or a private
/// key loaded, only as the step right after connecting succeeded, and
/// the loaded key is used only right after it loaded. A failed or timed
/// out handshake ends the setup with nothing sent.
pub proof fn lemma_credentials_follow_handshake(s: ConnectState, c: SshConfig, e: EventView)
    requires
        event_fits(s, e),
    ensures
        (connect_transition(s, c, e).1 is AuthenticatePassword || connect_transition(s, c, e).1 is LoadKey)
            ==> s == ConnectState::Connecting && e is Succeeded,
        connect_transition(s, c, e).1 is AuthenticateKey ==> s == ConnectState::LoadingKey
            && e is Succeeded,
        s == ConnectState::Connecting && !(e is Succeeded) ==> connect_transition(s, c, e).0
            == ConnectState::Failed,
{
}

/// Every answer moves the setup forward, so it finishes after at most
/// five answers; it is ready exactly when its next step says so, and has
/// failed exactly when that step is to give up.
pub proof fn lemma_connect_progress(s: ConnectState, c: SshConfig, e: EventView)
    requires
        event_fits(s, e),
    ensures
        stage(connect_transition(s, c, e).0) > stage(s),
        (connect_transition(s, c, e).0 == ConnectState::Ready) <==> (connect_transition(s, c, e).1 is Ready),
        (connect_transition(s, c, e).0 == ConnectState::Failed) <==> (connect_transition(s, c, e).1 is Fail),
{
}

/// A session channel is opened only after the server accepted the
/// authentication attempt: the setup moves to `OpeningChannel` from no
/// other state than an authenticating one and on no other answer than
/// `Authenticated(true)`; an attempt the server rejected ends the setup.
pub proof fn lemma_channel_needs_authentication(s: ConnectState, c: SshConfig, e: EventView)
    requires
        event_fits(s, e),
    ensures
        connect_transition(s, c, e).0 == ConnectState::OpeningChannel ==> (s
            == ConnectState::AuthenticatingPassword || s == ConnectState::AuthenticatingKey) && e
            == EventView::Authenticated(true),
        connect_transition(s, c, e).1 is OpenChannel ==> e == EventView::Authenticated(true),
        e == EventView::Authenticated(false) ==> connect_transition(s, c, e).0
            == ConnectState::Failed && connect_transition(s, c, e).1 is Fail,
{
}

} // verus!
