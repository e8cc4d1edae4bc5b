//! The microphone's state and the decisions taken on it: initialising once, starting and
//! stopping recording, what a frame read leaves in the caller's buffer, when a read error
//! is worth reporting, and which audio device a device index names. The audio device is
//! driven elsewhere; each function takes the outcome of that work as an argument.
use vstd::prelude::*;
use vstd::slice::SliceAdditionalExecFns;

verus! {

/// The state of the microphone.
pub struct RecorderState {
    /// A recorder was built.
    pub initialized: bool,
    /// Recording was started and not stopped since.
    pub recording: bool,
    /// When a failed read was last reported, in milliseconds since the Unix epoch.
    pub last_read_err_log_ms: u64,
}

/// Reports of failed reads are at least this far apart, in milliseconds.
pub const READ_ERROR_REPORT_INTERVAL_MS: u64 = 1000;

impl RecorderState {
    /// No recorder, not recording, nothing reported yet.
    pub fn new() -> (s: RecorderState)
        ensures
            !s.initialized,
            !s.recording,
            s.last_read_err_log_ms == 0,
    {
        RecorderState { initialized: false, recording: false, last_read_err_log_ms: 0 }
    }
}

/// Whether a recorder has to be built: none was yet.
pub fn init_needed(state: &RecorderState) -> (r: bool)
    ensures
        r == !state.initialized,
{
    !state.initialized
}

/// The state after an attempt to initialise: `built` is whether building a recorder
/// succeeded, `None` when none was needed.
pub open spec fn after_init(s: RecorderState, built: Option<bool>) -> RecorderState {
    match built {
        Some(b) => RecorderState { initialized: b, ..s },
        None => s,
    }
}

/// Initialises the microphone once. `built` is whether building the recorder succeeded,
/// given exactly when one was needed. Returns whether a recorder is there.
pub fn init_microphone(state: &mut RecorderState, built: Option<bool>) -> (r: bool)
    requires
        built is Some <==> !old(state).initialized,
    ensures
        *final(state) == after_init(*old(state), built),
        r == final(state).initialized,
        old(state).initialized ==> r,
{
    match built {
        Some(b) => {
            state.initialized = b;
            b
        },
        None => true,
    }
}

/// The state after a request to start recording: `started` is whether the recorder started.
pub open spec fn after_start(s: RecorderState, started: bool) -> RecorderState {
    if started {
        RecorderState { recording: true, ..s }
    } else {
        s
    }
}

/// Records the outcome of starting the (initialised) recorder: `Ok` and recording when it
/// started, `Err` and no change otherwise.
pub fn start_recording(state: &mut RecorderState, started: bool) -> (r: Result<(), ()>)
    requires
        old(state).initialized,
    ensures
        *final(state) == after_start(*old(state), started),
        r is Ok <==> started,
{
    if started {
        state.recording = true;
        Ok(())
    } else {
        Err(())
    }
}

/// Whether the recorder has to be stopped: it was built and is recording.
pub open spec fn must_stop(s: RecorderState) -> bool {
    s.initialized && s.recording
}

pub fn stop_needed(state: &RecorderState) -> (r: bool)
    ensures
        r == must_stop(*state),
{
    state.initialized && state.recording
}

/// The state after a request to stop recording: `stopped` is whether the recorder stopped,
/// `None` when there was nothing to stop.
pub open spec fn after_stop(s: RecorderState, stopped: Option<bool>) -> RecorderState {
    match stopped {
        Some(true) => RecorderState { recording: false, ..s },
        _ => s,
    }
}

/// Records the outcome of a request to stop recording. With nothing to stop it is `Ok`
/// and changes nothing; otherwise `stopped` tells whether the recorder stopped: `Ok` and
/// no longer recording, or `Err` and no change.
pub fn stop_recording(state: &mut RecorderState, stopped: Option<bool>) -> (r: Result<(), ()>)
    requires
        stopped is Some <==> must_stop(*old(state)),
    ensures
        *final(state) == after_stop(*old(state), stopped),
        r is Err <==> stopped == Some(false),
{
    match stopped {
        Some(true) => {
            state.recording = false;
            Ok(())
        },
        Some(false) => Err(()),
        None => Ok(()),
    }
}

/// A failed read at `now` is reported: at least the interval has passed since the last
/// report (time going backwards counts as none passing).
pub open spec fn report_due(last: u64, now: u64) -> bool {
    now >= last && now - last >= READ_ERROR_REPORT_INTERVAL_MS
}

/// What reading a frame does. `read` is the recorder's answer (a frame, or `Err` when the
/// read failed), given exactly when a recorder is there; `now_ms` is the time of the read.
/// A frame is copied into `frame_buffer`; a failed read zeroes it, so that no stale audio
/// is kept, and the result tells whether the failure is to be reported, which it is at
/// most once per interval. Without a recorder nothing happens.
pub fn read_microphone(
    state: &mut RecorderState,
    read: Option<Result<Vec<i16>, ()>>,
    frame_buffer: &mut [i16],
    now_ms: u64,
) -> (report: bool)
    requires
        read is Some <==> old(state).initialized,
        read matches Some(Ok(f)) ==> f@.len() == old(frame_buffer)@.len(),
    ensures
        read is None ==> final(frame_buffer)@ == old(frame_buffer)@,
        read matches Some(Ok(f)) ==> final(frame_buffer)@ == f@,
        read matches Some(Err(_)) ==> final(frame_buffer)@ == Seq::new(
            old(frame_buffer)@.len(),
            |i: int| 0i16,
        ),
        report == (read matches Some(Err(_)) && report_due(
            old(state).last_read_err_log_ms,
            now_ms,
        )),
        final(state).initialized == old(state).initialized,
        final(state).recording == old(state).recording,
        final(state).last_read_err_log_ms == if report {
            now_ms
        } else {
            old(state).last_read_err_log_ms
        },
{
    match read {
        None => false,
        Some(Ok(f)) => {
            let mut i: usize = 0;
            while i < frame_buffer.len()
                invariant
                    f@.len() == frame_buffer@.len(),
                    frame_buffer@.len() == old(frame_buffer)@.len(),
                    i <= frame_buffer@.len(),
                    forall|k: int| 0 <= k < i ==> frame_buffer@[k] == f@[k],
                decreases frame_buffer@.len() - i,
            {
                frame_buffer.set(i, f[i]);
                i += 1;
            }
            assert(frame_buffer@ =~= f@);
            false
        },
        Some(Err(())) => {
            let mut i: usize = 0;
            while i < frame_buffer.len()
                invariant
                    frame_buffer@.len() == old(frame_buffer)@.len(),
                    i <= frame_buffer@.len(),
                    forall|k: int| 0 <= k < i ==> frame_buffer@[k] == 0i16,
                decreases frame_buffer@.len() - i,
            {
                frame_buffer.set(i, 0);
                i += 1;
            }
            assert(frame_buffer@ =~= Seq::new(old(frame_buffer)@.len(), |i: int| 0i16));
            let last = state.last_read_err_log_ms;
            if now_ms >= last && now_ms - last >= READ_ERROR_REPORT_INTERVAL_MS {
                state.last_read_err_log_ms = now_ms;
                true
            } else {
                false
            }
        },
    }
}

/// The name of the audio device with index `idx` among `devices`: the system default for
/// `-1`, the device at that position when there is one, and otherwise the first device
/// (nothing when there is none).
pub open spec fn device_name(idx: i32, devices: Seq<Seq<char>>) -> Seq<char> {
    if idx == -1 {
        "System Default"@
    } else if 0 <= idx < devices.len() {
        devices[idx as int]
    } else if devices.len() > 0 {
        devices[0]
    } else {
        Seq::empty()
    }
}

/// The name of the audio device `idx`, given the available devices in order.
pub fn get_audio_device_name(idx: i32, devices: &Vec<String>) -> (r: String)
    ensures
        r@ == device_name(idx, devices@.map_values(|d: String| d@)),
{
    if idx == -1 {
        return "System Default".to_owned();
    }
    if idx >= 0 && (idx as usize) < devices.len() {
        return devices[idx as usize].clone();
    }
    if devices.len() > 0 {
        devices[0].clone()
    } else {
        String::new()
    }
}

/// Recording goes on from a successful start until a successful stop, and a successful
/// stop returns to where the start began.
pub proof fn law_start_then_stop(s: RecorderState)
    requires
        s.initialized,
        !s.recording,
    ensures
        must_stop(after_start(s, true)),
        after_stop(after_start(s, true), Some(true)) == s,
        after_stop(after_start(s, true), Some(false)) == after_start(s, true),
{
}

/// Stopping what is not recording needs nothing and changes nothing; a failed start changes
/// nothing.
pub proof fn law_idle_requests(s: RecorderState)
    ensures
        !s.recording ==> !must_stop(s) && after_stop(s, None) == s,
        after_start(s, false) == s,
        s.initialized ==> after_init(s, None) == s,
{
}

/// A failed read is reported exactly when a full second or more has passed since the last
/// report, so that reports of failed reads come at least a second apart.
pub proof fn law_read_error_reports(last: u64, now: u64)
    ensures
        report_due(last, now) <==> now as int >= last as int + 1000,
{
}

} // verus!
