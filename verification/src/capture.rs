//! The capture session: which state the user interface sees, and which
//! requests are refused, as capture starts, records, stops, imports and
//! clears.
use vstd::prelude::*;

use crate::error::{error_message, CoreError};
use crate::types::{CaptureState, CaptureStatus};

verus! {

/// A capture is running while it connects, records or stops.
pub open spec fn status_running(s: CaptureStatus) -> bool {
    s == CaptureStatus::Connecting || s == CaptureStatus::Capturing || s == CaptureStatus::Stopping
}

fn copy_opt(o: &Option<String>) -> (r: Option<String>)
    ensures
        r == *o,
{
    match o {
        Some(s) => Some(s.clone()),
        None => None,
    }
}

/// An exact copy of a capture state.
pub fn copy_state(s: &CaptureState) -> (r: CaptureState)
    ensures
        r == *s,
{
    CaptureState {
        status: s.status,
        device_id: copy_opt(&s.device_id),
        record_path: copy_opt(&s.record_path),
        error: copy_opt(&s.error),
    }
}

/// Where the statistics of a request come from.
pub enum SummarySource {
    /// The running capture's live totals.
    Live,
    /// The recording at this path.
    Recording(String),
}

/// The capture session.
pub struct CaptureSession {
    pub state: CaptureState,
    /// The recording the session shows, once there is one.
    pub record_path: Option<String>,
}

impl CaptureSession {
    /// An idle session with no recording.
    pub fn new() -> (s: CaptureSession)
        ensures
            s.state.status == CaptureStatus::Idle,
            s.state.device_id is None,
            s.state.record_path is None,
            s.state.error is None,
            s.record_path is None,
    {
        CaptureSession { state: CaptureState::default(), record_path: None }
    }

    pub fn state(&self) -> (r: CaptureState)
        ensures
            r == self.state,
    {
        copy_state(&self.state)
    }

    pub fn is_running(&self) -> (r: bool)
        ensures
            r == status_running(self.state.status),
    {
        match self.state.status {
            CaptureStatus::Connecting | CaptureStatus::Capturing | CaptureStatus::Stopping => true,
            _ => false,
        }
    }

    /// The recording shown, or `NoRecording`.
    pub fn record_path(&self) -> (r: Result<String, CoreError>)
        ensures
            match self.record_path {
                Some(p) => r == Ok::<String, CoreError>(p),
                None => r matches Err(CoreError::NoRecording),
            },
    {
        match &self.record_path {
            Some(p) => Ok(p.clone()),
            None => Err(CoreError::NoRecording),
        }
    }

    /// Statistics over the whole capture come live while it records;
    /// otherwise they are computed from the recording.
    pub fn summary_source(&self, whole: bool) -> (r: Result<SummarySource, CoreError>)
        ensures
            whole && self.state.status == CaptureStatus::Capturing ==> r matches Ok(SummarySource::Live),
            !(whole && self.state.status == CaptureStatus::Capturing) ==> match self.record_path {
                Some(p) => r matches Ok(SummarySource::Recording(q)) && q == p,
                None => r matches Err(CoreError::NoRecording),
            },
    {
        if whole && self.state.status == CaptureStatus::Capturing {
            return Ok(SummarySource::Live);
        }
        match self.record_path() {
            Ok(p) => Ok(SummarySource::Recording(p)),
            Err(e) => Err(e),
        }
    }

    /// A capture, an import or a clear is refused while a capture runs.
    pub fn ensure_idle(&self) -> (r: Result<(), CoreError>)
        ensures
            status_running(self.state.status) ==> r matches Err(CoreError::DeviceBusy),
            !status_running(self.state.status) ==> r is Ok,
    {
        if self.is_running() {
            Err(CoreError::DeviceBusy)
        } else {
            Ok(())
        }
    }

    /// The capture of `device_id` begins connecting.
    pub fn begin_capture(&mut self, device_id: String) -> (r: CaptureState)
        requires
            !status_running(old(self).state.status),
        ensures
            r == final(self).state,
            r.status == CaptureStatus::Connecting,
            r.device_id == Some(device_id),
            r.record_path is None,
            r.error is None,
            final(self).record_path == old(self).record_path,
    {
        self.state = CaptureState {
            status: CaptureStatus::Connecting,
            device_id: Some(device_id),
            record_path: None,
            error: None,
        };
        copy_state(&self.state)
    }

    /// The port is open and the recording at `path` has been created.
    pub fn recording_started(&mut self, device_id: String, path: String) -> (r: CaptureState)
        ensures
            r == final(self).state,
            r.status == CaptureStatus::Capturing,
            r.device_id == Some(device_id),
            r.record_path == Some(path),
            r.error is None,
            final(self).record_path == Some(path),
    {
        self.record_path = Some(path.clone());
        self.state = CaptureState {
            status: CaptureStatus::Capturing,
            device_id: Some(device_id),
            record_path: Some(path),
            error: None,
        };
        copy_state(&self.state)
    }

    /// The capture ended: idle when it ended cleanly, in error otherwise. The
    /// recording stays shown either way.
    pub fn capture_finished(&mut self, device_id: String, result: Result<(), CoreError>) -> (r: CaptureState)
        ensures
            r == final(self).state,
            r.record_path == old(self).record_path,
            final(self).record_path == old(self).record_path,
            result is Ok ==> r.status == CaptureStatus::Idle && r.device_id is None && r.error is None,
            result is Err ==> r.status == CaptureStatus::Error && r.device_id == Some(device_id) && (
            r.error matches Some(m) && m@ == error_message(result->Err_0)),
    {
        let path = copy_opt(&self.record_path);
        self.state = match result {
            Ok(()) => CaptureState { status: CaptureStatus::Idle, device_id: None, record_path: path, error: None },
            Err(e) => CaptureState {
                status: CaptureStatus::Error,
                device_id: Some(device_id),
                record_path: path,
                error: Some(e.message()),
            },
        };
        copy_state(&self.state)
    }

    /// A stop request: a running capture turns to stopping (the caller then
    /// waits for it to end); otherwise nothing changes. Returns whether the
    /// capture was running, and the state to report.
    pub fn begin_stop(&mut self) -> (r: (bool, CaptureState))
        ensures
            r.0 == status_running(old(self).state.status),
            !r.0 ==> *final(self) == *old(self) && r.1 == old(self).state,
            r.0 ==> final(self).state == (CaptureState { status: CaptureStatus::Stopping, ..old(self).state })
                && final(self).record_path == old(self).record_path && r.1 == final(self).state,
    {
        if !self.is_running() {
            return (false, copy_state(&self.state));
        }
        self.state.status = CaptureStatus::Stopping;
        (true, copy_state(&self.state))
    }

    /// The recording at `path`, already checked, becomes the one shown.
    pub fn set_imported_recording(&mut self, path: String)
        requires
            !status_running(old(self).state.status),
        ensures
            final(self).record_path == Some(path),
            final(self).state == old(self).state,
    {
        self.record_path = Some(path);
    }

    /// The import completed: the session is idle and shows `path`.
    pub fn import_finished(&mut self, path: String) -> (r: CaptureState)
        ensures
            r == final(self).state,
            r.status == CaptureStatus::Idle,
            r.device_id is None,
            r.record_path == Some(path),
            r.error is None,
            final(self).record_path == old(self).record_path,
    {
        self.state = CaptureState {
            status: CaptureStatus::Idle,
            device_id: None,
            record_path: Some(path),
            error: None,
        };
        copy_state(&self.state)
    }

    /// Forgets the recording and returns to the initial state. Returns the
    /// recording's path, for the caller to delete its files when they lie in
    /// the records directory.
    pub fn clear(&mut self) -> (r: Option<String>)
        requires
            !status_running(old(self).state.status),
        ensures
            r == old(self).record_path,
            final(self).record_path is None,
            final(self).state.status == CaptureStatus::Idle,
            final(self).state.device_id is None,
            final(self).state.record_path is None,
            final(self).state.error is None,
    {
        let path = self.record_path.take();
        self.state = CaptureState::default();
        path
    }
}

} // verus!
