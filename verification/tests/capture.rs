use powerpico_client::capture::{CaptureSession, SummarySource};
use powerpico_client::error::CoreError;
use powerpico_client::types::CaptureStatus;
use powerpico_client::{command_error, ensure_maintenance_idle};

#[test]
fn a_capture_runs_through_its_states() {
    let mut session = CaptureSession::new();
    assert!(!session.is_running());
    assert_eq!(session.record_path(), Err(CoreError::NoRecording));
    assert_eq!(session.ensure_idle(), Ok(()));
    let connecting = session.begin_capture("usb:1209:0001:x".into());
    assert_eq!(connecting.status, CaptureStatus::Connecting);
    assert_eq!(session.ensure_idle(), Err(CoreError::DeviceBusy));
    let active = session.recording_started("usb:1209:0001:x".into(), "/c/record_1.bin".into());
    assert_eq!(active.status, CaptureStatus::Capturing);
    assert!(matches!(session.summary_source(true), Ok(SummarySource::Live)));
    assert!(matches!(session.summary_source(false), Ok(SummarySource::Recording(p)) if p == "/c/record_1.bin"));
    let (was_running, stopping) = session.begin_stop();
    assert!(was_running);
    assert_eq!(stopping.status, CaptureStatus::Stopping);
    let idle = session.capture_finished("usb:1209:0001:x".into(), Ok(()));
    assert_eq!(idle.status, CaptureStatus::Idle);
    assert_eq!(idle.device_id, None);
    assert_eq!(idle.record_path.as_deref(), Some("/c/record_1.bin"));
    let (was_running, same) = session.begin_stop();
    assert!(!was_running);
    assert_eq!(same, idle);
}

#[test]
fn a_failed_capture_keeps_its_device_and_error() {
    let mut session = CaptureSession::new();
    session.begin_capture("dev".into());
    let failed = session.capture_finished("dev".into(), Err(CoreError::Serial("unplugged".into())));
    assert_eq!(failed.status, CaptureStatus::Error);
    assert_eq!(failed.device_id.as_deref(), Some("dev"));
    assert_eq!(failed.error.as_deref(), Some("serial error: unplugged"));
    assert_eq!(session.summary_source(true).err(), Some(CoreError::NoRecording));
}

#[test]
fn import_and_clear() {
    let mut session = CaptureSession::new();
    session.set_imported_recording("/x/r.bin".into());
    let state = session.import_finished("/x/r.bin".into());
    assert_eq!(state.record_path.as_deref(), Some("/x/r.bin"));
    assert_eq!(session.record_path(), Ok("/x/r.bin".to_string()));
    assert_eq!(session.clear(), Some("/x/r.bin".to_string()));
    assert_eq!(session.state().status, CaptureStatus::Idle);
    assert_eq!(session.record_path(), Err(CoreError::NoRecording));
}

#[test]
fn maintenance_waits_for_every_activity() {
    assert_eq!(ensure_maintenance_idle(false, false, false, false), Ok(()));
    assert_eq!(ensure_maintenance_idle(false, false, false, true), Err(CoreError::DeviceBusy));
    assert_eq!(ensure_maintenance_idle(true, false, false, false), Err(CoreError::DeviceBusy));
    assert_eq!(command_error(CoreError::DeviceBusy).code, "DEVICE_BUSY");
}
