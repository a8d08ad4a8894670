use psrp_rs::transport::{channel_step, contains_str, receive_step, ChannelEvent, ReceiveOutcome, ReceiveStep};

#[test]
fn receive_delivers_output() {
    let (done, step) = receive_step(false, ReceiveOutcome::Output { stdout: b"abc".to_vec(), done: false });
    assert!(!done);
    assert!(matches!(step, ReceiveStep::Deliver(b) if b == b"abc"));
}

#[test]
fn receive_polls_past_empty_output_of_a_running_command() {
    let (done, step) = receive_step(false, ReceiveOutcome::Output { stdout: Vec::new(), done: false });
    assert!(!done);
    assert!(matches!(step, ReceiveStep::Retry));
}

#[test]
fn receive_delivers_empty_output_once_done() {
    let (done, step) = receive_step(false, ReceiveOutcome::Output { stdout: Vec::new(), done: true });
    assert!(done);
    assert!(matches!(step, ReceiveStep::Deliver(b) if b.is_empty()));
    let (done, step) = receive_step(true, ReceiveOutcome::Output { stdout: Vec::new(), done: false });
    assert!(done);
    assert!(matches!(step, ReceiveStep::Deliver(b) if b.is_empty()));
}

#[test]
fn receive_retries_timeouts() {
    let (done, step) = receive_step(false, ReceiveOutcome::Timeout);
    assert!(!done);
    assert!(matches!(step, ReceiveStep::Retry));
    let (_, step) = receive_step(false, ReceiveOutcome::SoapFault { code: "w:TimedOut".to_string() });
    assert!(matches!(step, ReceiveStep::Retry));
}

#[test]
fn receive_gives_up_on_other_faults_and_errors() {
    let (_, step) = receive_step(false, ReceiveOutcome::SoapFault { code: "s:Receiver".to_string() });
    assert!(matches!(step, ReceiveStep::Fail));
    let (_, step) = receive_step(true, ReceiveOutcome::OtherError);
    assert!(matches!(step, ReceiveStep::Fail));
}

#[test]
fn contains_str_cases() {
    assert!(contains_str("w:TimedOut", "TimedOut"));
    assert!(contains_str("TimedOut", "TimedOut"));
    assert!(contains_str("abc", ""));
    assert!(!contains_str("", "a"));
    assert!(!contains_str("w:Timed", "TimedOut"));
    assert!(!contains_str("timedout", "TimedOut"));
    assert!(contains_str("ééTimedOutéé", "TimedOut"));
}

#[test]
fn channel_delivers_data_and_end() {
    assert!(matches!(channel_step(ChannelEvent::Data(vec![1, 2])), ReceiveStep::Deliver(b) if b == vec![1, 2]));
    assert!(matches!(channel_step(ChannelEvent::Data(Vec::new())), ReceiveStep::Retry));
    assert!(matches!(channel_step(ChannelEvent::Eof), ReceiveStep::Deliver(b) if b.is_empty()));
    assert!(matches!(channel_step(ChannelEvent::Other), ReceiveStep::Retry));
}
