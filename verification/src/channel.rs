//! Decision logic of the privileged handle channel: an elevated helper
//! process opens devices and sends each one's path plus an open descriptor
//! over a local datagram socket pair; the unprivileged side receives them.
//! The I/O itself lives outside the library; these functions decide, for
//! every possible outcome of a system call, what the caller must do next.

use vstd::prelude::*;

verus! {

/// A system error as the channel's decision logic distinguishes them; any
/// errno other than an interrupted call or a broken pipe is `Other`.
#[derive(Debug, Clone, Copy, PartialEq, Eq, Structural)]
pub enum SysError {
    Interrupted,
    BrokenPipe,
    Other(i32),
}

/// What the consumer does after its blocking read for the readiness line.
#[derive(Debug, Clone, Copy, PartialEq, Eq, Structural)]
pub enum HandshakeAction {
    /// Treat the helper as ready and start receiving handles.
    Proceed,
    /// The read was interrupted; read again.
    Retry,
    /// The helper exited before becoming ready; report its exit status.
    FailChildExit,
    /// Some other OS-level error: fatal to the channel; surface it.
    Fail(i32),
}

pub open spec fn spec_handshake_step(r: Result<usize, SysError>) -> HandshakeAction {
    match r {
        Ok(_) => HandshakeAction::Proceed,
        Err(SysError::Interrupted) => HandshakeAction::Retry,
        Err(SysError::BrokenPipe) => HandshakeAction::FailChildExit,
        Err(SysError::Other(e)) => HandshakeAction::Fail(e),
    }
}

/// Decide the consumer's next move after one handshake read. An interrupted
/// call is retried; a broken pipe means the helper exited and its status is
/// the error; any other OS-level error is fatal to the channel; a completed
/// read counts as readiness.
pub fn handshake_step(r: &Result<usize, SysError>) -> (a: HandshakeAction)
    ensures
        a == spec_handshake_step(*r),
{
    match r {
        Ok(_) => HandshakeAction::Proceed,
        Err(SysError::Interrupted) => HandshakeAction::Retry,
        Err(SysError::BrokenPipe) => HandshakeAction::FailChildExit,
        Err(SysError::Other(e)) => HandshakeAction::Fail(*e),
    }
}

/// One receive attempt on the consumer's socket, reduced to plain values:
/// the datagram bytes are the device path, the ancillary data is a list of
/// descriptors.
pub enum RecvOutcome {
    /// A datagram carrying descriptor rights arrived.
    Message { path: Vec<u8>, fds: Vec<i32> },
    /// A datagram arrived without descriptor rights attached.
    NoDescriptor,
    Interrupted,
    Failed(i32),
}

/// What the consumer does with one receive outcome.
pub enum RecvAction {
    /// Exactly one handle arrived: yield this (path, descriptor) pair.
    Accept { path: Vec<u8>, fd: i32 },
    /// Nothing usable arrived; receive again.
    Retry,
    /// A rights message with more or fewer than one descriptor breaks the
    /// protocol; the caller must fail loudly.
    Violation,
    /// The receive failed for good; the iteration ends with this error.
    Fail(i32),
}

/// The receive decision, stated for every outcome.
pub open spec fn spec_recv_step_ok(outcome: RecvOutcome, a: RecvAction) -> bool {
    match outcome {
        RecvOutcome::Message { path, fds } => if fds@.len() == 1 {
            a matches RecvAction::Accept { path: p2, fd } && p2@ == path@ && fd == fds@[0]
        } else {
            a is Violation
        },
        RecvOutcome::NoDescriptor => a is Retry,
        RecvOutcome::Interrupted => a is Retry,
        RecvOutcome::Failed(e) => a == RecvAction::Fail(e),
    }
}

/// Decide what one receive outcome yields. A datagram with exactly one
/// attached descriptor is exactly one (path, handle) pair; interrupted calls
/// and rights-free datagrams are retried; any other error is fatal.
pub fn recv_step(outcome: RecvOutcome) -> (a: RecvAction)
    ensures
        spec_recv_step_ok(outcome, a),
{
    match outcome {
        RecvOutcome::Message { path, fds } => {
            if fds.len() == 1 {
                let fd = fds[0];
                RecvAction::Accept { path, fd }
            } else {
                RecvAction::Violation
            }
        },
        RecvOutcome::NoDescriptor => RecvAction::Retry,
        RecvOutcome::Interrupted => RecvAction::Retry,
        RecvOutcome::Failed(e) => RecvAction::Fail(e),
    }
}

/// What the helper does after one attempt to send a handle.
#[derive(Debug, Clone, Copy, PartialEq, Eq, Structural)]
pub enum SendAction {
    /// The datagram went out; move on to the next device.
    Sent,
    /// The call was interrupted; send the same datagram again.
    Retry,
    /// The consumer is gone; stop the helper silently.
    Stop,
    /// Some other error: log it and skip this device.
    Skip,
}

pub open spec fn spec_send_step(r: Result<usize, SysError>) -> SendAction {
    match r {
        Ok(_) => SendAction::Sent,
        Err(SysError::Interrupted) => SendAction::Retry,
        Err(SysError::BrokenPipe) => SendAction::Stop,
        Err(SysError::Other(_)) => SendAction::Skip,
    }
}

/// Decide the helper's next move after one `sendmsg` attempt.
pub fn send_step(r: &Result<usize, SysError>) -> (a: SendAction)
    ensures
        a == spec_send_step(*r),
{
    match r {
        Ok(_) => SendAction::Sent,
        Err(SysError::Interrupted) => SendAction::Retry,
        Err(SysError::BrokenPipe) => SendAction::Stop,
        Err(SysError::Other(_)) => SendAction::Skip,
    }
}

/// What a device reader thread does after one bounded wait for readiness.
#[derive(Debug, Clone, Copy, PartialEq, Eq, Structural)]
pub enum WaitAction {
    /// The descriptor is ready; perform one read.
    Read,
    /// The wait timed out or was interrupted; check for cancellation and
    /// wait again.
    Again,
    /// The wait failed; the reader cannot continue.
    Fail,
}

pub open spec fn spec_wait_step(r: Result<i32, SysError>) -> WaitAction {
    match r {
        Ok(n) => if n == 0 {
            WaitAction::Again
        } else {
            WaitAction::Read
        },
        Err(SysError::Interrupted) => WaitAction::Again,
        Err(SysError::BrokenPipe) => WaitAction::Fail,
        Err(SysError::Other(_)) => WaitAction::Fail,
    }
}

/// Decide a reader thread's next move after one bounded poll.
pub fn wait_step(r: &Result<i32, SysError>) -> (a: WaitAction)
    ensures
        a == spec_wait_step(*r),
{
    match r {
        Ok(n) => if *n == 0 {
            WaitAction::Again
        } else {
            WaitAction::Read
        },
        Err(SysError::Interrupted) => WaitAction::Again,
        Err(SysError::BrokenPipe) => WaitAction::Fail,
        Err(SysError::Other(_)) => WaitAction::Fail,
    }
}

} // verus!
