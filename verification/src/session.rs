//! The decision core of the interactive session loop.
//!
//! The surrounding event loop multiplexes transport messages, local input,
//! terminal geometry and the presence signal; every decision it takes is a
//! call of [`session_step`], a pure function from the observed event to the
//! action to perform. The loop itself only performs actions and hands back
//! events.
//!
//! Two decisions carry the session's safety story: a local-input chunk
//! containing the end-of-transmission byte (4) ends the loop without
//! forwarding anything from that chunk, and an observed cancellation ends
//! the loop with the distinguished `DeviceRemoved` outcome before any
//! event is acted on.

use vstd::prelude::*;

use crate::error::SecureSshError;

verus! {

/// The byte that ends the session when it appears in local input.
pub const EOT_BYTE: u8 = 4;

/// One event the session loop can observe.
pub enum SessionEvent {
    /// Data from the transport, bound for standard output.
    RemoteData(Vec<u8>),
    /// Extended data from the transport, bound for standard error.
    RemoteExtendedData(Vec<u8>),
    /// The remote side sent end-of-stream.
    RemoteEof,
    /// The remote shell exited with a status.
    RemoteExitStatus(u32),
    /// The remote process was ended by a signal.
    RemoteExitSignal,
    /// The transport channel closed.
    RemoteClosed,
    /// A chunk of bytes read from local standard input.
    LocalInput(Vec<u8>),
    /// The local terminal geometry changed to the given columns and rows.
    Resize(u16, u16),
}

/// What the loop performs before the next wait.
pub enum SessionAction {
    /// Write the bytes to local standard output.
    WriteStdout(Vec<u8>),
    /// Write the bytes to local standard error.
    WriteStderr(Vec<u8>),
    /// Forward the bytes to the transport's input channel.
    SendData(Vec<u8>),
    /// Ask the transport for a window resize.
    SendWindowChange(u16, u16),
    /// Nothing to do.
    DoNothing,
}

/// The loop's verdict on one iteration.
pub enum SessionStep {
    /// Perform the action and wait for the next event.
    Continue(SessionAction),
    /// The session is over; tear down and report a normal disconnect.
    EndNormal,
    /// The presence signal went away; tear down and report `DeviceRemoved`.
    EndDeviceRemoved,
}

/// Whether a chunk contains the end-of-transmission byte anywhere.
pub open spec fn contains_eot(data: Seq<u8>) -> bool {
    exists|i: int| 0 <= i < data.len() && data[i] == EOT_BYTE
}

/// Scan a chunk for the end-of-transmission byte.
pub fn chunk_has_eot(data: &[u8]) -> (r: bool)
    ensures
        r == contains_eot(data@),
{
    let n = data.len();
    let mut i: usize = 0;
    while i < n
        invariant
            i <= n,
            n == data@.len(),
            forall|j: int| 0 <= j < i ==> data@[j] != EOT_BYTE,
        decreases n - i,
    {
        if data[i] == EOT_BYTE {
            return true;
        }
        i = i + 1;
    }
    false
}

/// Decide one iteration of the session loop.
///
/// The cancellation flag is consulted first: once it is observed set, the
/// step is `EndDeviceRemoved` whatever the event was, and nothing is
/// forwarded. Otherwise transport data goes to the local streams,
/// end-of-stream, exit status, exit signal and close all end the session
/// normally, a resize is forwarded, and local input is forwarded verbatim
/// — unless the chunk contains the end-of-transmission byte anywhere, in
/// which case the session ends normally and no byte of that chunk is
/// forwarded.
pub fn session_step(cancelled: bool, event: SessionEvent) -> (r: SessionStep)
    ensures
        cancelled ==> r == SessionStep::EndDeviceRemoved,
        !cancelled ==> r == (match event {
            SessionEvent::RemoteData(d) => SessionStep::Continue(SessionAction::WriteStdout(d)),
            SessionEvent::RemoteExtendedData(d) => SessionStep::Continue(
                SessionAction::WriteStderr(d),
            ),
            SessionEvent::RemoteEof => SessionStep::EndNormal,
            SessionEvent::RemoteExitStatus(_) => SessionStep::EndNormal,
            SessionEvent::RemoteExitSignal => SessionStep::EndNormal,
            SessionEvent::RemoteClosed => SessionStep::EndNormal,
            SessionEvent::LocalInput(d) => if contains_eot(d@) {
                SessionStep::EndNormal
            } else {
                SessionStep::Continue(SessionAction::SendData(d))
            },
            SessionEvent::Resize(cols, rows) => SessionStep::Continue(
                SessionAction::SendWindowChange(cols, rows),
            ),
        }),
{
    if cancelled {
        return SessionStep::EndDeviceRemoved;
    }
    match event {
        SessionEvent::RemoteData(d) => SessionStep::Continue(SessionAction::WriteStdout(d)),
        SessionEvent::RemoteExtendedData(d) => SessionStep::Continue(
            SessionAction::WriteStderr(d),
        ),
        SessionEvent::RemoteEof => SessionStep::EndNormal,
        SessionEvent::RemoteExitStatus(_) => SessionStep::EndNormal,
        SessionEvent::RemoteExitSignal => SessionStep::EndNormal,
        SessionEvent::RemoteClosed => SessionStep::EndNormal,
        SessionEvent::LocalInput(d) => {
            if chunk_has_eot(d.as_slice()) {
                SessionStep::EndNormal
            } else {
                SessionStep::Continue(SessionAction::SendData(d))
            }
        },
        SessionEvent::Resize(cols, rows) => SessionStep::Continue(
            SessionAction::SendWindowChange(cols, rows),
        ),
    }
}

/// The verdict a finished session reports: `DeviceRemoved` is surfaced as
/// the distinguished error, a normal end as success.
pub fn session_outcome(step: &SessionStep) -> (r: Result<(), SecureSshError>)
    requires
        !(step is Continue),
    ensures
        r is Ok <==> step is EndNormal,
        r matches Err(e) ==> e is UsbRemoved && step is EndDeviceRemoved,
{
    match step {
        SessionStep::EndNormal => Ok(()),
        SessionStep::EndDeviceRemoved => Err(SecureSshError::UsbRemoved),
        SessionStep::Continue(_) => Ok(()),
    }
}

/// Whether a newly sampled terminal geometry differs from the last seen
/// one: only then is a resize event delivered.
pub fn geometry_changed(old_cols: u16, old_rows: u16, new_cols: u16, new_rows: u16) -> (r: bool)
    ensures
        r == (old_cols != new_cols || old_rows != new_rows),
{
    new_cols != old_cols || new_rows != old_rows
}

} // verus!
