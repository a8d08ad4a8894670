use std::time::Duration;

use psrp_rs::ssh::config::{SshAuth, SshConfig};
use psrp_rs::ssh::session::{connect_start, connect_step, ConnectAction, ConnectEvent, ConnectState};

fn config(auth: SshAuth) -> SshConfig {
    SshConfig::new("linux-host", "admin", auth, Some("/home/admin")).with_port(2222)
}

fn fail_text(a: ConnectAction) -> String {
    match a {
        ConnectAction::Fail(m) => m,
        _ => panic!("expected a failure"),
    }
}

#[test]
fn password_session_runs_every_step() {
    let cfg = config(SshAuth::Password("s3cret".into()));
    let (s, a) = connect_start(&cfg);
    assert_eq!(s, ConnectState::Connecting);
    match a {
        ConnectAction::Connect { addr, timeout } => {
            assert_eq!(addr, "linux-host:2222");
            assert_eq!(timeout, Duration::from_secs(30));
        }
        _ => panic!("expected Connect"),
    }
    let (s, a) = connect_step(s, &cfg, ConnectEvent::Succeeded);
    assert_eq!(s, ConnectState::AuthenticatingPassword);
    assert!(matches!(a, ConnectAction::AuthenticatePassword { ref username, ref password }
        if username == "admin" && password == "s3cret"));
    let (s, a) = connect_step(s, &cfg, ConnectEvent::Authenticated(true));
    assert_eq!(s, ConnectState::OpeningChannel);
    assert!(matches!(a, ConnectAction::OpenChannel));
    let (s, a) = connect_step(s, &cfg, ConnectEvent::Succeeded);
    assert_eq!(s, ConnectState::RequestingSubsystem);
    assert!(matches!(a, ConnectAction::RequestSubsystem { ref subsystem } if subsystem == "powershell"));
    let (s, a) = connect_step(s, &cfg, ConnectEvent::Succeeded);
    assert_eq!(s, ConnectState::Ready);
    assert!(matches!(a, ConnectAction::Ready));
}

#[test]
fn key_session_loads_the_key_before_authenticating() {
    let cfg = config(SshAuth::PrivateKey {
        path: "/home/admin/.ssh/id_ed25519".into(),
        passphrase: Some("pp".into()),
    });
    let (s, _) = connect_start(&cfg);
    let (s, a) = connect_step(s, &cfg, ConnectEvent::Succeeded);
    assert_eq!(s, ConnectState::LoadingKey);
    assert!(matches!(a, ConnectAction::LoadKey { ref path, ref passphrase }
        if path == "/home/admin/.ssh/id_ed25519" && passphrase.as_deref() == Some("pp")));
    let (s, a) = connect_step(s, &cfg, ConnectEvent::Succeeded);
    assert_eq!(s, ConnectState::AuthenticatingKey);
    assert!(matches!(a, ConnectAction::AuthenticateKey { ref username } if username == "admin"));
    let (_, a) = connect_step(s, &cfg, ConnectEvent::Failed("agent refused".into()));
    assert_eq!(fail_text(a), "SSH pubkey auth: agent refused");
}

#[test]
fn agent_auth_is_refused_before_anything_is_sent() {
    let cfg = config(SshAuth::Agent);
    let (s, _) = connect_start(&cfg);
    let (s, a) = connect_step(s, &cfg, ConnectEvent::Succeeded);
    assert_eq!(s, ConnectState::Failed);
    assert_eq!(
        fail_text(a),
        "SSH agent auth not yet implemented — use Password or PrivateKey"
    );
}

#[test]
fn each_failure_names_its_step() {
    let cfg = config(SshAuth::Password("pw".into()));
    let (_, a) = connect_step(ConnectState::Connecting, &cfg, ConnectEvent::TimedOut);
    assert_eq!(fail_text(a), "SSH connect timeout to linux-host:2222");
    let (_, a) = connect_step(ConnectState::Connecting, &cfg, ConnectEvent::Failed("host key rejected".into()));
    assert_eq!(fail_text(a), "SSH connect: host key rejected");
    let (_, a) = connect_step(ConnectState::LoadingKey, &cfg, ConnectEvent::Failed("bad key".into()));
    assert_eq!(fail_text(a), "SSH key load: bad key");
    let (_, a) =
        connect_step(ConnectState::AuthenticatingPassword, &cfg, ConnectEvent::Failed("io".into()));
    assert_eq!(fail_text(a), "SSH password auth: io");
    let (s, a) = connect_step(ConnectState::AuthenticatingPassword, &cfg, ConnectEvent::Authenticated(false));
    assert_eq!(s, ConnectState::Failed);
    assert_eq!(fail_text(a), "SSH authentication failed");
    let (_, a) = connect_step(ConnectState::OpeningChannel, &cfg, ConnectEvent::Failed("x".into()));
    assert_eq!(fail_text(a), "SSH channel open: x");
    let (_, a) = connect_step(ConnectState::RequestingSubsystem, &cfg, ConnectEvent::Failed("y".into()));
    assert_eq!(fail_text(a), "SSH subsystem request: y");
}
