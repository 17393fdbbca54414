use powerpico_client::error::{AppError, CoreError};

#[test]
fn every_error_has_its_code_and_text() {
    let cases = [
        (CoreError::DeviceNotFound("d".into()), "DEVICE_NOT_FOUND", "serial device not found: d"),
        (CoreError::DeviceBusy, "DEVICE_BUSY", "serial device is busy"),
        (CoreError::NoRecording, "NO_RECORDING", "no recording is available"),
        (CoreError::InvalidRecording("r".into()), "INVALID_RECORDING", "invalid recording: r"),
        (CoreError::Cancelled, "CANCELLED", "operation cancelled"),
        (CoreError::Timeout("t".into()), "TIMEOUT", "timeout while t"),
        (CoreError::Serial("s".into()), "SERIAL_ERROR", "serial error: s"),
        (CoreError::Io("i".into()), "IO_ERROR", "I/O error: i"),
        (CoreError::Config("c".into()), "CONFIG_ERROR", "configuration error: c"),
        (CoreError::Other("o".into()), "INTERNAL_ERROR", "o"),
    ];
    for (error, code, message) in cases {
        assert_eq!(error.message(), message);
        assert_eq!(
            AppError::from(error),
            AppError { code: code.into(), message: message.into() }
        );
    }
}
