use powerpico_client::error::CoreError;
use powerpico_client::firmware::{
    final_progress, observe_bootloader, search_step, selection_steps, stage_progress, start_check,
    BootloaderState, Handshake, SearchDecision, SelectionStep,
};
use powerpico_client::types::FirmwareStage;

#[test]
fn detects_an_already_active_ymodem_receiver() {
    let mut consecutive_crc = 0;
    assert_eq!(observe_bootloader(b"C", b"C", &mut consecutive_crc), None);
    assert_eq!(
        observe_bootloader(b"CC", b"C", &mut consecutive_crc),
        Some(BootloaderState::Ymodem)
    );
}

#[test]
fn log_text_does_not_look_like_an_active_ymodem_receiver() {
    let log = b"Erase Complete.\r\nStarting Ymodem Receive\r\n";
    let mut consecutive_crc = 0;
    assert_eq!(observe_bootloader(log, log, &mut consecutive_crc), None);
}

#[test]
fn detects_bootloader_markers_across_the_accumulated_transcript() {
    let transcript = b"booting... ##PICO_BOOT##";
    let mut consecutive_crc = 0;
    assert_eq!(
        observe_bootloader(transcript, b"BOOT##", &mut consecutive_crc),
        Some(BootloaderState::Prompt)
    );
}

#[test]
fn main_menu_takes_priority_over_an_earlier_prompt_marker() {
    let transcript = b"##PICO_BOOT##\r\nMain Menu";
    let mut consecutive_crc = 0;
    assert_eq!(
        observe_bootloader(transcript, b"Main Menu", &mut consecutive_crc),
        Some(BootloaderState::Menu)
    );
}

#[test]
fn a_lone_c_resets_when_other_bytes_follow() {
    let mut consecutive_crc = 0;
    assert_eq!(observe_bootloader(b"CxC", b"CxC", &mut consecutive_crc), None);
    assert_eq!(consecutive_crc, 1);
}

#[test]
fn handshake_accumulates_the_transcript_and_probes_once() {
    let mut handshake = Handshake::new();
    assert_eq!(handshake.on_data(b"##PICO"), None);
    assert!(!handshake.on_idle(2499));
    assert!(handshake.on_idle(2500));
    assert!(!handshake.on_idle(4000));
    assert_eq!(handshake.on_data(b"_BOOT##"), Some(BootloaderState::Prompt));
    assert_eq!(handshake.transcript, b"##PICO_BOOT##".to_vec());
    assert_eq!(
        Handshake::timeout_error(),
        CoreError::Timeout("waiting for bootloader menu or YMODEM receiver".into())
    );
}

#[test]
fn handshake_does_not_probe_a_receiver_that_asks() {
    let mut handshake = Handshake::new();
    assert_eq!(handshake.on_data(b"C"), None);
    assert!(!handshake.on_idle(3000));
}

#[test]
fn selection_keys_depend_on_the_bootloader_state() {
    let prompt = selection_steps(BootloaderState::Prompt);
    assert_eq!(prompt.len(), 3);
    assert!(matches!(prompt[0], SelectionStep::Key(b'0')));
    assert!(matches!(prompt[1], SelectionStep::Pause(200)));
    assert!(matches!(prompt[2], SelectionStep::Key(b'1')));
    let menu = selection_steps(BootloaderState::Menu);
    assert_eq!(menu.len(), 1);
    assert!(matches!(menu[0], SelectionStep::Key(b'1')));
    assert!(selection_steps(BootloaderState::Ymodem).is_empty());
}

#[test]
fn search_gives_up_after_the_deadline() {
    assert!(matches!(search_step(true, None, 0), SearchDecision::Fail(CoreError::Cancelled)));
    assert!(matches!(search_step(false, None, 8000), SearchDecision::Retry));
    match search_step(false, None, 8001) {
        SearchDecision::Fail(CoreError::Timeout(m)) => assert_eq!(m, "searching for bootloader"),
        _ => panic!("expected a timeout"),
    }
}

#[test]
fn flash_start_checks() {
    assert_eq!(start_check(true, true), Err(CoreError::DeviceBusy));
    assert_eq!(
        start_check(false, false),
        Err(CoreError::Other("firmware file does not exist".into()))
    );
    assert_eq!(start_check(false, true), Ok(()));
}

#[test]
fn stage_and_final_progress() {
    let p = stage_progress(FirmwareStage::SearchingBootloader);
    assert_eq!((p.percent, p.message_key.as_str()), (4, "searchingBootloader"));
    let p = stage_progress(FirmwareStage::Finishing);
    assert_eq!((p.percent, p.message_key.as_str()), (98, "finishing"));
    let done = final_progress(Ok(()));
    assert_eq!((done.stage, done.percent, done.message_key.as_str()), (FirmwareStage::Completed, 100, "completed"));
    let cancelled = final_progress(Err(CoreError::Cancelled));
    assert_eq!((cancelled.stage, cancelled.percent), (FirmwareStage::Cancelled, 0));
    let failed = final_progress(Err(CoreError::Timeout("waiting for 0x06".into())));
    assert_eq!(failed.stage, FirmwareStage::Failed);
    assert_eq!(failed.detail.as_deref(), Some("timeout while waiting for 0x06"));
}
