//! Errors of the client core and the code/message pair the user interface receives.
use vstd::prelude::*;

use crate::text::{push_str, string_from_chars};

verus! {

/// Errors of the client core.
#[derive(Debug, Clone, PartialEq, Eq)]
pub enum CoreError {
    DeviceNotFound(String),
    DeviceBusy,
    NoRecording,
    InvalidRecording(String),
    Cancelled,
    Timeout(String),
    Serial(String),
    /// An operating-system I/O failure, carried by its message.
    Io(String),
    Config(String),
    Other(String),
}

/// What the user interface receives for a failed command.
#[derive(Debug, Clone, PartialEq, Eq)]
pub struct AppError {
    pub code: String,
    pub message: String,
}

/// The text shown for an error.
pub open spec fn error_message(e: CoreError) -> Seq<char> {
    match e {
        CoreError::DeviceNotFound(s) => "serial device not found: "@ + s@,
        CoreError::DeviceBusy => "serial device is busy"@,
        CoreError::NoRecording => "no recording is available"@,
        CoreError::InvalidRecording(s) => "invalid recording: "@ + s@,
        CoreError::Cancelled => "operation cancelled"@,
        CoreError::Timeout(s) => "timeout while "@ + s@,
        CoreError::Serial(s) => "serial error: "@ + s@,
        CoreError::Io(s) => "I/O error: "@ + s@,
        CoreError::Config(s) => "configuration error: "@ + s@,
        CoreError::Other(s) => s@,
    }
}

/// The stable code of an error kind.
pub open spec fn error_code(e: CoreError) -> Seq<char> {
    match e {
        CoreError::DeviceNotFound(_) => "DEVICE_NOT_FOUND"@,
        CoreError::DeviceBusy => "DEVICE_BUSY"@,
        CoreError::NoRecording => "NO_RECORDING"@,
        CoreError::InvalidRecording(_) => "INVALID_RECORDING"@,
        CoreError::Cancelled => "CANCELLED"@,
        CoreError::Timeout(_) => "TIMEOUT"@,
        CoreError::Serial(_) => "SERIAL_ERROR"@,
        CoreError::Io(_) => "IO_ERROR"@,
        CoreError::Config(_) => "CONFIG_ERROR"@,
        CoreError::Other(_) => "INTERNAL_ERROR"@,
    }
}

impl CoreError {
    /// The text shown for this error.
    pub fn message(&self) -> (r: String)
        ensures
            r@ == error_message(*self),
    {
        let mut out: Vec<char> = Vec::new();
        match self {
            CoreError::DeviceNotFound(s) => {
                push_str(&mut out, "serial device not found: ");
                push_str(&mut out, s.as_str());
            },
            CoreError::DeviceBusy => push_str(&mut out, "serial device is busy"),
            CoreError::NoRecording => push_str(&mut out, "no recording is available"),
            CoreError::InvalidRecording(s) => {
                push_str(&mut out, "invalid recording: ");
                push_str(&mut out, s.as_str());
            },
            CoreError::Cancelled => push_str(&mut out, "operation cancelled"),
            CoreError::Timeout(s) => {
                push_str(&mut out, "timeout while ");
                push_str(&mut out, s.as_str());
            },
            CoreError::Serial(s) => {
                push_str(&mut out, "serial error: ");
                push_str(&mut out, s.as_str());
            },
            CoreError::Io(s) => {
                push_str(&mut out, "I/O error: ");
                push_str(&mut out, s.as_str());
            },
            CoreError::Config(s) => {
                push_str(&mut out, "configuration error: ");
                push_str(&mut out, s.as_str());
            },
            CoreError::Other(s) => push_str(&mut out, s.as_str()),
        }
        string_from_chars(&out)
    }

    /// The stable code of this error's kind.
    pub fn code(&self) -> (r: String)
        ensures
            r@ == error_code(*self),
    {
        let code = match self {
            CoreError::DeviceNotFound(_) => "DEVICE_NOT_FOUND",
            CoreError::DeviceBusy => "DEVICE_BUSY",
            CoreError::NoRecording => "NO_RECORDING",
            CoreError::InvalidRecording(_) => "INVALID_RECORDING",
            CoreError::Cancelled => "CANCELLED",
            CoreError::Timeout(_) => "TIMEOUT",
            CoreError::Serial(_) => "SERIAL_ERROR",
            CoreError::Io(_) => "IO_ERROR",
            CoreError::Config(_) => "CONFIG_ERROR",
            CoreError::Other(_) => "INTERNAL_ERROR",
        };
        String::from_str(code)
    }

    /// An error whose whole text is `s`.
    pub fn other(s: &str) -> (r: CoreError)
        ensures
            r matches CoreError::Other(m) && m@ == s@,
    {
        CoreError::Other(String::from_str(s))
    }

    /// A timeout error while doing `what`.
    pub fn timeout(what: &str) -> (r: CoreError)
        ensures
            r matches CoreError::Timeout(m) && m@ == what@,
    {
        CoreError::Timeout(String::from_str(what))
    }
}

impl AppError {
    /// The code and message the user interface receives for `error`.
    pub fn from(error: CoreError) -> (r: AppError)
        ensures
            r.code@ == error_code(error),
            r.message@ == error_message(error),
    {
        AppError { code: error.code(), message: error.message() }
    }
}

/// Which kind of error `e` is, numbered in declaration order.
pub open spec fn error_kind(e: CoreError) -> int {
    match e {
        CoreError::DeviceNotFound(_) => 0,
        CoreError::DeviceBusy => 1,
        CoreError::NoRecording => 2,
        CoreError::InvalidRecording(_) => 3,
        CoreError::Cancelled => 4,
        CoreError::Timeout(_) => 5,
        CoreError::Serial(_) => 6,
        CoreError::Io(_) => 7,
        CoreError::Config(_) => 8,
        CoreError::Other(_) => 9,
    }
}

/// Each kind of error has a code of its own.
pub proof fn lemma_codes_identify_kinds(a: CoreError, b: CoreError)
    ensures
        error_code(a) == error_code(b) <==> error_kind(a) == error_kind(b),
{
    reveal_strlit("DEVICE_NOT_FOUND");
    reveal_strlit("DEVICE_BUSY");
    reveal_strlit("NO_RECORDING");
    reveal_strlit("INVALID_RECORDING");
    reveal_strlit("CANCELLED");
    reveal_strlit("TIMEOUT");
    reveal_strlit("SERIAL_ERROR");
    reveal_strlit("IO_ERROR");
    reveal_strlit("CONFIG_ERROR");
    reveal_strlit("INTERNAL_ERROR");
    if error_code(a) == error_code(b) {
        assert(error_code(a).len() == error_code(b).len());
        assert(error_code(a)[0] == error_code(b)[0]);
    }
}

} // verus!
