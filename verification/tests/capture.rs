use inkvoice_shell::capture::{capture_command, capture_poll, CaptureCmd, CaptureState, RETRY_INTERVAL_MS};

const IDLE: CaptureState = CaptureState { want_recording: false, stream_open: false };

#[test]
fn start_opens_at_once_and_stop_never_retries() {
    let s = capture_command(IDLE, CaptureCmd::Start);
    assert_eq!(s, CaptureState { want_recording: true, stream_open: false });
    let (s, open_now) = capture_poll(s, false, None);
    assert!(open_now);
    let s = CaptureState { stream_open: true, ..s };
    let s = capture_command(s, CaptureCmd::Stop);
    assert_eq!(s, IDLE);
    let (s, open_now) = capture_poll(s, false, Some(10_000));
    assert!(!open_now);
    assert_eq!(s, IDLE);
}

#[test]
fn a_dead_stream_is_retried_after_the_interval() {
    assert_eq!(RETRY_INTERVAL_MS, 400);
    let open = CaptureState { want_recording: true, stream_open: true };
    let s = capture_command(open, CaptureCmd::Idle);
    assert_eq!(s, open);
    let (s, open_now) = capture_poll(s, false, Some(5_000));
    assert_eq!((s, open_now), (open, false));
    let (s, open_now) = capture_poll(s, true, Some(100));
    assert_eq!(s, CaptureState { want_recording: true, stream_open: false });
    assert!(!open_now);
    let (_, open_now) = capture_poll(s, false, Some(399));
    assert!(!open_now);
    let (_, open_now) = capture_poll(s, false, Some(400));
    assert!(open_now);
}

#[test]
fn a_start_drops_the_open_stream_to_reopen_it() {
    let open = CaptureState { want_recording: true, stream_open: true };
    let s = capture_command(open, CaptureCmd::Start);
    assert_eq!(s, CaptureState { want_recording: true, stream_open: false });
    let (_, open_now) = capture_poll(s, false, None);
    assert!(open_now);
}
