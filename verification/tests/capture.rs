use pinnacle::capture_globals::ImageCaptureSourceState;
use pinnacle::screencopy::ScreencopyManagerState;
use pinnacle::gamma_control::{grant_gamma_control, split_gamma, GammaControlGrant, GammaControlState};
use pinnacle::geometry::{Point, Rectangle, Size};
use pinnacle::image_copy_capture::{
    FailureReason, FrameAnswer, FrameData, FrameRequest, FrameState, PendingFrame,
};

fn requested_frame() -> FrameData {
    let mut frame = FrameData::new();
    assert_eq!(frame.request(FrameRequest::AttachBuffer { buffer: 3 }), FrameAnswer::Nothing);
    assert_eq!(
        frame.request(FrameRequest::Capture { buffer_supported: true, in_session: true }),
        FrameAnswer::Nothing
    );
    assert_eq!(frame.frame_state, FrameState::CaptureRequested);
    frame
}

#[test]
fn frame_state_defaults_to_idle_and_orders() {
    assert_eq!(FrameState::default(), FrameState::Idle);
    assert!(FrameState::Failed.rank() < FrameState::Idle.rank());
    assert!(FrameState::Capturing.rank() < FrameState::Submitted.rank());
    assert!(FrameState::Failed < FrameState::CaptureRequested);
}

#[test]
fn damage_is_checked_and_recorded() {
    let mut frame = FrameData::new();
    assert_eq!(
        frame.request(FrameRequest::DamageBuffer { x: -1, y: 0, width: 5, height: 5 }),
        FrameAnswer::InvalidBufferDamage
    );
    assert_eq!(
        frame.request(FrameRequest::DamageBuffer { x: 1, y: 2, width: 3, height: 4 }),
        FrameAnswer::Nothing
    );
    assert_eq!(frame.client_buffer_damage, vec![Rectangle { loc: Point { x: 1, y: 2 }, size: Size { w: 3, h: 4 } }]);
}

#[test]
fn capture_needs_a_buffer() {
    let mut frame = FrameData::new();
    assert_eq!(
        frame.request(FrameRequest::Capture { buffer_supported: true, in_session: true }),
        FrameAnswer::NoBuffer
    );
    frame.request(FrameRequest::AttachBuffer { buffer: 1 });
    assert_eq!(
        frame.request(FrameRequest::Capture { buffer_supported: false, in_session: true }),
        FrameAnswer::Failed(FailureReason::BufferConstraints)
    );
    assert_eq!(frame.frame_state, FrameState::Failed);
    assert_eq!(
        frame.request(FrameRequest::Capture { buffer_supported: false, in_session: true }),
        FrameAnswer::Nothing
    );
    assert_eq!(
        frame.request(FrameRequest::Capture { buffer_supported: true, in_session: false }),
        FrameAnswer::Nothing
    );
}

#[test]
fn stopped_session_fails_capture() {
    let mut frame = FrameData::new();
    frame.request(FrameRequest::AttachBuffer { buffer: 1 });
    assert_eq!(
        frame.request(FrameRequest::Capture { buffer_supported: true, in_session: false }),
        FrameAnswer::Failed(FailureReason::Stopped)
    );
}

#[test]
fn captured_frame_refuses_changes() {
    let mut frame = requested_frame();
    assert_eq!(frame.request(FrameRequest::AttachBuffer { buffer: 9 }), FrameAnswer::AlreadyCaptured);
    assert_eq!(frame.buffer, Some(3));
    assert_eq!(
        frame.request(FrameRequest::DamageBuffer { x: 0, y: 0, width: 1, height: 1 }),
        FrameAnswer::AlreadyCaptured
    );
    assert_eq!(
        frame.request(FrameRequest::Capture { buffer_supported: true, in_session: true }),
        FrameAnswer::AlreadyCaptured
    );
}

#[test]
fn frame_lifecycle() {
    let mut frame = requested_frame();
    assert_eq!(frame.take_pending(true, true), PendingFrame::NotReady);
    assert_eq!(frame.take_pending(false, true), PendingFrame::Ready);
    assert_eq!(frame.frame_state, FrameState::Capturing);
    assert!(!frame.submit(false));
    assert_eq!(frame.frame_state, FrameState::CaptureRequested);
    assert_eq!(frame.release(), None);
    frame.begin_capture();
    assert!(frame.submit(true));
    assert_eq!(frame.frame_state, FrameState::Submitted);
    assert_eq!(frame.release(), None);
    assert_eq!(frame.constraints_changed(), None);
}

#[test]
fn released_capturing_frame_fails() {
    let mut frame = requested_frame();
    frame.begin_capture();
    assert_eq!(frame.release(), Some(FailureReason::Unknown));
    assert_eq!(frame.frame_state, FrameState::Failed);
}

#[test]
fn wrong_size_or_new_constraints_fail_frame() {
    let mut frame = requested_frame();
    assert_eq!(frame.take_pending(false, false), PendingFrame::Failed);
    assert_eq!(frame.frame_state, FrameState::Failed);
    let mut other = requested_frame();
    assert_eq!(other.constraints_changed(), Some(FailureReason::BufferConstraints));
    assert_eq!(other.frame_state, FrameState::Failed);
}

#[test]
fn gamma_control_is_exclusive() {
    assert_eq!(grant_gamma_control(true, false, Some(256)), GammaControlGrant::Granted { gamma_size: 256 });
    assert_eq!(grant_gamma_control(true, true, Some(256)), GammaControlGrant::Failed);
    assert_eq!(grant_gamma_control(false, false, Some(256)), GammaControlGrant::Failed);
    assert_eq!(grant_gamma_control(true, false, None), GammaControlGrant::Failed);
    let state = GammaControlState::of_grant(GammaControlGrant::Granted { gamma_size: 4 });
    assert_eq!(state.table_len(), 12);
    assert_eq!(GammaControlState::of_grant(GammaControlGrant::Failed).gamma_size, 0);
}

#[test]
fn gamma_table_splits_into_channels() {
    let table: Vec<u16> = (0..6).collect();
    let (r, g, b) = split_gamma(&table, 2);
    assert_eq!(r, vec![0, 1]);
    assert_eq!(g, vec![2, 3]);
    assert_eq!(b, vec![4, 5]);
}

#[test]
fn capture_globals_exist() {
    assert_eq!(ImageCaptureSourceState, ImageCaptureSourceState);
    assert_eq!(ScreencopyManagerState, ScreencopyManagerState);
}

use pinnacle::image_copy_capture::{
    session_cursor, Cursor, CursorEvent, CursorSessionData, SessionError, SessionFrameSlot,
};

#[test]
fn session_options_choose_cursor() {
    assert_eq!(session_cursor(0), Ok(Cursor::Hidden));
    assert_eq!(session_cursor(1), Ok(Cursor::Composited));
    assert_eq!(session_cursor(2), Err(SessionError::InvalidOption));
    assert_eq!(session_cursor(3), Err(SessionError::InvalidOption));
}

#[test]
fn session_has_one_frame_at_a_time() {
    let mut slot = SessionFrameSlot { frame: None };
    assert_eq!(slot.create_frame(5), Ok(()));
    assert_eq!(slot.create_frame(6), Err(SessionError::DuplicateFrame));
    assert!(!slot.frame_destroyed(6));
    assert!(slot.frame_destroyed(5));
    assert_eq!(slot.frame, None);
    assert_eq!(slot.create_frame(6), Ok(()));
}

#[test]
fn cursor_session_events() {
    let mut data = CursorSessionData::new();
    assert_eq!(data.get_capture_session(), Ok(()));
    assert_eq!(data.get_capture_session(), Err(SessionError::DuplicateSession));
    assert_eq!(data.set_hotspot(Point { x: 2, y: 3 }), None);
    assert_eq!(
        data.set_position(Some(Point { x: 10, y: 20 })),
        vec![CursorEvent::Enter, CursorEvent::Hotspot { x: 2, y: 3 }, CursorEvent::Position { x: 10, y: 20 }]
    );
    assert_eq!(data.set_position(Some(Point { x: 11, y: 20 })), vec![CursorEvent::Position { x: 11, y: 20 }]);
    assert_eq!(data.set_hotspot(Point { x: 2, y: 3 }), None);
    assert_eq!(data.set_hotspot(Point { x: 4, y: 4 }), Some(CursorEvent::Hotspot { x: 4, y: 4 }));
    assert_eq!(data.set_position(None), vec![CursorEvent::Leave]);
    assert_eq!(data.set_position(None), vec![]);
}

use pinnacle::gamma_control::GammaControlManagerState;

#[test]
fn gamma_controls_are_tracked_per_output() {
    let mut state = GammaControlManagerState::new();
    assert!(!state.controls_output(1));
    state.insert(1, 100);
    assert!(state.controls_output(1));
    assert_eq!(grant_gamma_control(true, state.controls_output(1), Some(256)), GammaControlGrant::Failed);
    assert_eq!(state.output_of(100), Some(1));
    assert_eq!(state.output_of(7), None);
    assert_eq!(state.remove_output(1), Some(100));
    assert_eq!(state.remove_output(1), None);
    assert!(!state.controls_output(1));
}
