//! The session loop's decisions: one step per observed event.

use secure_ssh::error::SecureSshError;
use secure_ssh::session::{
    chunk_has_eot, geometry_changed, session_outcome, session_step, SessionAction, SessionEvent,
    SessionStep,
};

#[test]
fn test_eot_in_input_ends_session_without_forwarding() {
    // A local-input chunk with byte 4 anywhere in it ends the loop, and no
    // byte of the chunk is forwarded.
    let chunk = vec![b'l', b's', 4, b'\n'];
    let step = session_step(false, SessionEvent::LocalInput(chunk));
    assert!(matches!(step, SessionStep::EndNormal));
}

#[test]
fn test_eot_alone_ends_session() {
    let step = session_step(false, SessionEvent::LocalInput(vec![4]));
    assert!(matches!(step, SessionStep::EndNormal));
}

#[test]
fn test_plain_input_is_forwarded_verbatim() {
    let chunk = vec![b'l', b's', b'\n'];
    let step = session_step(false, SessionEvent::LocalInput(chunk.clone()));
    match step {
        SessionStep::Continue(SessionAction::SendData(d)) => assert_eq!(d, chunk),
        _ => panic!("plain input must be forwarded"),
    }
}

#[test]
fn test_cancellation_wins_over_any_event() {
    // Once the presence flag is observed set, the step is the
    // distinguished DeviceRemoved outcome, whatever arrived.
    let step = session_step(true, SessionEvent::RemoteData(vec![1, 2, 3]));
    assert!(matches!(step, SessionStep::EndDeviceRemoved));

    let step = session_step(true, SessionEvent::LocalInput(vec![b'x']));
    assert!(matches!(step, SessionStep::EndDeviceRemoved));
}

#[test]
fn test_device_removed_outcome() {
    let outcome = session_outcome(&SessionStep::EndDeviceRemoved);
    assert!(matches!(outcome, Err(SecureSshError::UsbRemoved)));

    let outcome = session_outcome(&SessionStep::EndNormal);
    assert!(outcome.is_ok());
}

#[test]
fn test_remote_data_goes_to_stdout() {
    let step = session_step(false, SessionEvent::RemoteData(vec![7, 8]));
    match step {
        SessionStep::Continue(SessionAction::WriteStdout(d)) => assert_eq!(d, vec![7, 8]),
        _ => panic!("remote data must go to standard output"),
    }
}

#[test]
fn test_remote_extended_data_goes_to_stderr() {
    let step = session_step(false, SessionEvent::RemoteExtendedData(vec![9]));
    assert!(matches!(
        step,
        SessionStep::Continue(SessionAction::WriteStderr(_))
    ));
}

#[test]
fn test_remote_end_events_end_normally() {
    assert!(matches!(session_step(false, SessionEvent::RemoteEof), SessionStep::EndNormal));
    assert!(matches!(
        session_step(false, SessionEvent::RemoteExitStatus(0)),
        SessionStep::EndNormal
    ));
    assert!(matches!(
        session_step(false, SessionEvent::RemoteExitSignal),
        SessionStep::EndNormal
    ));
    assert!(matches!(session_step(false, SessionEvent::RemoteClosed), SessionStep::EndNormal));
}

#[test]
fn test_resize_is_forwarded() {
    let step = session_step(false, SessionEvent::Resize(120, 40));
    assert!(matches!(
        step,
        SessionStep::Continue(SessionAction::SendWindowChange(120, 40))
    ));
}

#[test]
fn test_chunk_has_eot() {
    assert!(chunk_has_eot(&[4]));
    assert!(chunk_has_eot(&[1, 2, 4, 3]));
    assert!(!chunk_has_eot(&[]));
    assert!(!chunk_has_eot(&[1, 2, 3]));
}

#[test]
fn test_geometry_changed() {
    assert!(!geometry_changed(80, 24, 80, 24));
    assert!(geometry_changed(80, 24, 81, 24));
    assert!(geometry_changed(80, 24, 80, 25));
}
