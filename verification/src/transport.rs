//! The decisions of the PSRP transports' receive loops. Over a WinRM
//! shell, receives are long polls: the loop asks the shell for output
//! again and again, and after each answer decides whether to poll
//! again, hand bytes to the caller, or give up. Over an SSH channel the
//! loop waits for channel messages and decides, after each, whether to
//! wait again or hand bytes to the caller.

use vstd::prelude::*;
use crate::text::chars_of;

verus! {

/// What one receive call on the shell brought back, reduced to what the
/// receive loop decides on.
pub enum ReceiveOutcome {
    /// Output: the bytes the command wrote and whether it has finished.
    Output { stdout: Vec<u8>, done: bool },
    /// The call timed out on the client side.
    Timeout,
    /// The server answered with a SOAP fault of this code.
    SoapFault { code: String },
    /// Any other transport error.
    OtherError,
}

/// What the receive loop does next.
pub enum ReceiveStep {
    /// Ask the shell again.
    Retry,
    /// Return these bytes to the caller.
    Deliver(Vec<u8>),
    /// Give up, returning the error that came back.
    Fail,
}

/// Whether `sub` occurs in `s`.
pub open spec fn contains_seq(s: Seq<char>, sub: Seq<char>) -> bool {
    exists|i: int| 0 <= i && i + sub.len() <= s.len() && #[trigger] s.subrange(i, i + sub.len()) == sub
}

/// `str::contains` with a string pattern: whether `sub` occurs in `s`.
pub fn contains_str(s: &str, sub: &str) -> (r: bool)
    ensures
        r == contains_seq(s@, sub@),
{
    let hay = chars_of(s);
    let needle = chars_of(sub);
    if needle.len() > hay.len() {
        return false;
    }
    let mut i: usize = 0;
    while i <= hay.len() - needle.len()
        invariant
            hay@ == s@,
            needle@ == sub@,
            needle.len() <= hay.len(),
            i <= hay.len() - needle.len() + 1,
            forall|k: int| 0 <= k < i ==> #[trigger] s@.subrange(k, k + sub@.len()) != sub@,
        decreases hay.len() - needle.len() + 1 - i,
    {
        let mut j: usize = 0;
        while j < needle.len() && hay[i + j] == needle[j]
            invariant
                hay@ == s@,
                needle@ == sub@,
                i + needle.len() <= hay.len(),
                j <= needle.len(),
                forall|m: int| 0 <= m < j ==> hay@[i + m] == needle@[m],
            decreases needle.len() - j,
        {
            j = j + 1;
        }
        if j == needle.len() {
            assert(s@.subrange(i as int, i + sub@.len()) =~= sub@);
            return true;
        }
        assert(s@.subrange(i as int, i + sub@.len())[j as int] != sub@[j as int]);
        i = i + 1;
    }
    assert forall|k: int| 0 <= k && k + sub@.len() <= s@.len() implies #[trigger] s@.subrange(
        k,
        k + sub@.len(),
    ) != sub@ by {
        assert(k < i);
    }
    false
}

/// The receive loop's decision after one answer, given whether the
/// command had already finished: the new `done` flag and the step.
/// Output of a finished command is delivered even when empty; empty
/// output of a running one is polled past. A client-side timeout, and
/// a SOAP fault whose code says `TimedOut` (the server's normal answer
/// to a long poll with nothing to read), are polled past too. Every
/// other fault or error ends the loop.
pub open spec fn receive_decision(done: bool, outcome: ReceiveOutcome) -> (bool, ReceiveStep) {
    match outcome {
        ReceiveOutcome::Output { stdout, done: finished } => {
            let now_done = done || finished;
            if stdout@.len() == 0 && !now_done {
                (now_done, ReceiveStep::Retry)
            } else {
                (now_done, ReceiveStep::Deliver(stdout))
            }
        },
        ReceiveOutcome::Timeout => (done, ReceiveStep::Retry),
        ReceiveOutcome::SoapFault { code } => if contains_seq(code@, "TimedOut"@) {
            (done, ReceiveStep::Retry)
        } else {
            (done, ReceiveStep::Fail)
        },
        ReceiveOutcome::OtherError => (done, ReceiveStep::Fail),
    }
}

/// Decide what the receive loop does after one answer from the shell.
/// Bytes are only ever delivered non-empty or once the command is done.
pub fn receive_step(done: bool, outcome: ReceiveOutcome) -> (r: (bool, ReceiveStep))
    ensures
        r == receive_decision(done, outcome),
        r.1 matches ReceiveStep::Deliver(b) ==> b@.len() > 0 || r.0,
{
    match outcome {
        ReceiveOutcome::Output { stdout, done: finished } => {
            let now_done = done || finished;
            if stdout.len() == 0 && !now_done {
                (now_done, ReceiveStep::Retry)
            } else {
                (now_done, ReceiveStep::Deliver(stdout))
            }
        },
        ReceiveOutcome::Timeout => (done, ReceiveStep::Retry),
        ReceiveOutcome::SoapFault { code } => {
            if contains_str(code.as_str(), "TimedOut") {
                (done, ReceiveStep::Retry)
            } else {
                (done, ReceiveStep::Fail)
            }
        },
        ReceiveOutcome::OtherError => (done, ReceiveStep::Fail),
    }
}

/// What one wait on an SSH channel brought back, reduced to what the
/// receive loop decides on.
pub enum ChannelEvent {
    /// Bytes on the channel's standard output.
    Data(Vec<u8>),
    /// The channel reached its end, or closed.
    Eof,
    /// Anything else: standard error, window adjustments, requests.
    Other,
}

/// Decide what the SSH receive loop does after one channel message:
/// output is delivered unless empty, the end of the channel is delivered
/// as no bytes, and everything else is waited past. The loop never gives
/// up on its own.
pub fn channel_step(event: ChannelEvent) -> (r: ReceiveStep)
    ensures
        match event {
            ChannelEvent::Data(b) => if b@.len() == 0 {
                r is Retry
            } else {
                r == ReceiveStep::Deliver(b)
            },
            ChannelEvent::Eof => r matches ReceiveStep::Deliver(b) && b@.len() == 0,
            ChannelEvent::Other => r is Retry,
        },
{
    match event {
        ChannelEvent::Data(b) => {
            if b.len() == 0 {
                ReceiveStep::Retry
            } else {
                ReceiveStep::Deliver(b)
            }
        },
        ChannelEvent::Eof => ReceiveStep::Deliver(Vec::new()),
        ChannelEvent::Other => ReceiveStep::Retry,
    }
}

/// The receive loop's `done` flag: once the command has finished it
/// stays finished, and an answer sets it exactly when it is output of a
/// finished command, whatever that output holds. Output is handed on as
/// it came, and only output is handed on.
pub proof fn lemma_receive_done_flag(done: bool, outcome: ReceiveOutcome)
    ensures
        receive_decision(done, outcome).0 == (done || (outcome matches ReceiveOutcome::Output {
            done: finished,
            ..
        } && finished)),
        receive_decision(done, outcome).1 matches ReceiveStep::Deliver(b) ==> (
        outcome matches ReceiveOutcome::Output { stdout, .. } && b == stdout),
        (outcome matches ReceiveOutcome::Output { stdout, done: finished } && (stdout@.len() > 0
            || done || finished)) ==> receive_decision(done, outcome).1 is Deliver,
{
}

} // verus!
