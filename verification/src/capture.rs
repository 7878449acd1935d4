//! The microphone thread's decisions: which stream to drop and when to try
//! opening the microphone again. A recording that is wanted but has no open
//! stream (the first open failed, or the device vanished mid-recording) is
//! retried at most once per retry interval; a fresh start is tried at once.

use vstd::prelude::*;

verus! {

/// The shortest wait, in milliseconds, between two attempts to open the
/// microphone.
pub const RETRY_INTERVAL_MS: u64 = 400;

/// What one wait on the command channel brought.
#[derive(Clone, Copy, PartialEq, Eq, Debug, Structural)]
pub enum CaptureCmd {
    /// A recording starts.
    Start,
    /// The recording stops.
    Stop,
    /// The wait timed out with no command.
    Idle,
}

/// The capture thread's state: whether a recording is wanted and whether a
/// stream is open.
#[derive(Clone, Copy, PartialEq, Eq, Debug, Structural)]
pub struct CaptureState {
    pub want_recording: bool,
    pub stream_open: bool,
}

/// A command's effect: a start or a stop drops any open stream (a start
/// so that it is opened afresh), and sets whether a recording is wanted.
pub open spec fn after_command(s: CaptureState, cmd: CaptureCmd) -> CaptureState {
    match cmd {
        CaptureCmd::Start => CaptureState { want_recording: true, stream_open: false },
        CaptureCmd::Stop => CaptureState { want_recording: false, stream_open: false },
        CaptureCmd::Idle => s,
    }
}

/// Whether an open attempt is due: a recording is wanted, no stream is
/// open, and either nothing was attempted since the recording started
/// (`None`) or the last attempt is at least the retry interval old.
pub open spec fn open_due(s: CaptureState, since_attempt_ms: Option<u64>) -> bool {
    s.want_recording && !s.stream_open && match since_attempt_ms {
        None => true,
        Some(ms) => ms >= RETRY_INTERVAL_MS,
    }
}

/// The state once a command (or a timeout) has been taken in.
pub fn capture_command(s: CaptureState, cmd: CaptureCmd) -> (r: CaptureState)
    ensures
        r == after_command(s, cmd),
{
    match cmd {
        CaptureCmd::Start => CaptureState { want_recording: true, stream_open: false },
        CaptureCmd::Stop => CaptureState { want_recording: false, stream_open: false },
        CaptureCmd::Idle => s,
    }
}

/// After a command: an open stream that reported its death is dropped, and
/// the result says whether to try opening the microphone now.
pub fn capture_poll(s: CaptureState, stream_died: bool, since_attempt_ms: Option<u64>) -> (r: (
    CaptureState,
    bool,
))
    ensures
        r.0 == (CaptureState {
            want_recording: s.want_recording,
            stream_open: s.stream_open && !stream_died,
        }),
        r.1 == open_due(r.0, since_attempt_ms),
{
    let next = CaptureState {
        want_recording: s.want_recording,
        stream_open: s.stream_open && !stream_died,
    };
    let due = next.want_recording && !next.stream_open && match since_attempt_ms {
        None => true,
        Some(ms) => ms >= RETRY_INTERVAL_MS,
    };
    (next, due)
}

/// A stop ends capture until the next start: no stream stays open, a
/// timeout with no command changes nothing, and whatever the stream
/// reports and however long since the last attempt, no open is attempted.
pub proof fn lemma_stop_ends_capture(s: CaptureState, stream_died: bool, since_attempt_ms: Option<u64>)
    ensures
        !after_command(s, CaptureCmd::Stop).stream_open,
        after_command(after_command(s, CaptureCmd::Stop), CaptureCmd::Idle) == after_command(
            s,
            CaptureCmd::Stop,
        ),
        !open_due(
            CaptureState {
                want_recording: after_command(s, CaptureCmd::Stop).want_recording,
                stream_open: after_command(s, CaptureCmd::Stop).stream_open && !stream_died,
            },
            since_attempt_ms,
        ),
{
}

/// A start always drops the old stream and tries to open a fresh one at
/// once, whatever stream was open before.
pub proof fn lemma_start_opens_at_once(s: CaptureState, stream_died: bool)
    ensures
        !after_command(s, CaptureCmd::Start).stream_open,
        open_due(
            CaptureState {
                want_recording: after_command(s, CaptureCmd::Start).want_recording,
                stream_open: after_command(s, CaptureCmd::Start).stream_open && !stream_died,
            },
            None,
        ),
{
}

/// While a recording is wanted and its stream is open, no open is
/// attempted; once that stream dies, the next attempt waits for the retry
/// interval.
pub proof fn lemma_open_stream_is_kept(s: CaptureState, since_attempt_ms: u64)
    requires
        s.want_recording,
    ensures
        s.stream_open ==> !open_due(s, Some(since_attempt_ms)),
        !s.stream_open ==> (open_due(s, Some(since_attempt_ms)) <==> since_attempt_ms >= RETRY_INTERVAL_MS),
{
}

} // verus!
