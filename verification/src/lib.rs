//! Verified core of the PowerPico client: the device wire protocol, the YMODEM
//! firmware uploader, bootloader and device rediscovery, settings rules, the
//! recording file layout, and the decisions of the capture, firmware and
//! download sessions.
use vstd::prelude::*;

pub mod text;
pub mod error;
pub mod ymodem;
pub mod protocol;
pub mod types;
pub mod device;
pub mod firmware;
pub mod capture;
pub mod paths;
pub mod maintenance;
pub mod storage;
pub mod network;

use crate::error::{error_code, error_message, AppError, CoreError};

verus! {

/// Maintenance (clearing the cache, uninstalling) waits until no capture,
/// flash, download or update check runs.
pub fn ensure_maintenance_idle(
    capture_running: bool,
    firmware_running: bool,
    download_running: bool,
    update_busy: bool,
) -> (r: Result<(), CoreError>)
    ensures
        (capture_running || firmware_running || download_running || update_busy) ==> r matches Err(
            CoreError::DeviceBusy,
        ),
        !(capture_running || firmware_running || download_running || update_busy) ==> r is Ok,
{
    if capture_running || firmware_running || download_running || update_busy {
        return Err(CoreError::DeviceBusy);
    }
    Ok(())
}

/// The error a command reports to the user interface.
pub fn command_error(error: CoreError) -> (r: AppError)
    ensures
        r.code@ == error_code(error),
        r.message@ == error_message(error),
{
    AppError::from(error)
}

} // verus!
