use powerpico_client::error::CoreError;
use powerpico_client::network::{
    check_download_size, client_update_info, download_final_progress, download_percent,
    download_start_check, official_firmware_info, release_tag, require_https, with_local_firmware,
    FirmwareRelease,
};
use powerpico_client::types::AppSettings;

#[test]
fn semantic_versions_ignore_v_prefix() {
    let current = semver::Version::parse("0.1.1").unwrap();
    let latest = semver::Version::parse("v0.2.0".trim_start_matches('v')).unwrap();
    assert!(latest > current);
}

#[test]
fn update_check_reads_the_tag_and_compares_versions() {
    let info = client_update_info(
        "0.1.1",
        "https://github.com/haoyn231/power_pico_client/releases/tag/v0.2.0".into(),
        "/haoyn231/power_pico_client/releases/tag/v0.2.0",
    )
    .unwrap();
    assert_eq!(info.current_version, "0.1.1");
    assert_eq!(info.latest_version, "0.2.0");
    assert!(info.update_available);
    let same = client_update_info("v0.2.0", String::new(), "/r/releases/tag/vv0.2.0").unwrap();
    assert!(!same.update_available);
    let older = client_update_info("1.0.0", String::new(), "/r/releases/tag/1.0.0-rc.1").unwrap();
    assert!(!older.update_available);
    assert_eq!(older.latest_version, "1.0.0-rc.1");
}

#[test]
fn update_check_errors() {
    assert_eq!(
        client_update_info("0.1.1", String::new(), "/r/releases/latest"),
        Err(CoreError::Other("GitHub did not return a release tag".into()))
    );
    assert_eq!(
        client_update_info("0.1.1", String::new(), "/r/releases/"),
        Err(CoreError::Other("GitHub did not return a release tag".into()))
    );
    assert!(matches!(
        client_update_info("0.1.1", String::new(), "/r/releases/tag/not-a-version"),
        Err(CoreError::Other(m)) if !m.is_empty()
    ));
    assert!(matches!(
        client_update_info("banana", String::new(), "/r/releases/tag/v1.0.0"),
        Err(CoreError::Other(_))
    ));
}

#[test]
fn release_tags() {
    assert_eq!(release_tag("/a/b/v1.2.3"), Some("v1.2.3".into()));
    assert_eq!(release_tag("/a/b/latest"), None);
    assert_eq!(release_tag("no-leading-slash"), None);
    assert_eq!(release_tag("/"), None);
}

#[test]
fn downloads_need_https_and_an_idle_manager() {
    assert_eq!(require_https("https://example.com/fw.bin"), Ok(()));
    let refused = Err(CoreError::Other("official firmware URL must use HTTPS".into()));
    assert_eq!(require_https("http://example.com/fw.bin"), refused);
    assert_eq!(require_https("https:/"), refused);
    assert_eq!(download_start_check(true, "https://x"), Err(CoreError::DeviceBusy));
    assert_eq!(download_start_check(false, "ftp://x"), refused);
    assert_eq!(download_start_check(false, "https://x"), Ok(()));
}

#[test]
fn download_percent_never_reaches_100_early() {
    assert_eq!(download_percent(10, 0), 0);
    assert_eq!(download_percent(50, 200), 25);
    assert_eq!(download_percent(200, 200), 99);
    assert_eq!(download_percent(u64::MAX, u64::MAX), 1);
    assert_eq!(download_percent(u64::MAX, 1), 99);
    assert_eq!(check_download_size(0), Err(CoreError::Other("downloaded firmware is empty".into())));
    assert_eq!(check_download_size(1), Ok(()));
}

#[test]
fn download_outcomes() {
    let done = download_final_progress(Ok(()));
    assert_eq!((done.percent, done.stage.as_str(), done.detail), (100, "completed", None));
    let cancelled = download_final_progress(Err(CoreError::Cancelled));
    assert_eq!((cancelled.percent, cancelled.stage.as_str()), (0, "cancelled"));
    let failed = download_final_progress(Err(CoreError::Io("disk full".into())));
    assert_eq!(failed.stage, "failed");
    assert_eq!(failed.detail.as_deref(), Some("I/O error: disk full"));
}

#[test]
fn a_download_records_the_local_firmware_version() {
    let s = with_local_firmware(AppSettings::default(), "1.2.3".into(), "2026-01-01".into());
    assert_eq!(s.local_firmware_version, "1.2.3");
    assert_eq!(s.local_firmware_release_date, "2026-01-01");
    assert_eq!(s.waveform_metrics, AppSettings::default().waveform_metrics);
}

#[test]
fn official_firmware_information() {
    let release = FirmwareRelease {
        version: "1.2.3".into(),
        release_date: "2026-01-01".into(),
        url: "https://example.com/fw.bin".into(),
    };
    let info = official_firmware_info(Ok(release.clone()), "/data/PowerPico_Firmware.bin".into(), true, String::new(), String::new()).unwrap();
    assert_eq!(info.version, "1.2.3");
    assert_eq!(info.local_path.as_deref(), Some("/data/PowerPico_Firmware.bin"));
    assert!(info.downloaded);
    let info = official_firmware_info(Ok(release), "/p".into(), false, String::new(), String::new()).unwrap();
    assert_eq!(info.local_path, None);
    assert!(!info.downloaded);
    let offline = official_firmware_info(Err("offline".into()), "/p".into(), true, "1.0.0".into(), "2025-01-01".into()).unwrap();
    assert_eq!((offline.version.as_str(), offline.url.as_str(), offline.downloaded), ("1.0.0", "", true));
    assert_eq!(
        official_firmware_info(Err("offline".into()), "/p".into(), false, String::new(), String::new()),
        Err(CoreError::Other("offline".into()))
    );
    let insecure = FirmwareRelease { version: "1".into(), release_date: "d".into(), url: "http://x".into() };
    assert_eq!(
        official_firmware_info(Ok(insecure), "/p".into(), true, String::new(), String::new()),
        Err(CoreError::Other("official firmware URL must use HTTPS".into()))
    );
}

#[test]
fn download_progress_never_goes_backwards() {
    for total in [0u64, 1, 7, 1000, u64::MAX / 50, u64::MAX] {
        let mut shown = 0u8;
        for received in [0u64, 1, 6, 7, 500, 999, 1000, 1001, u64::MAX / 100, u64::MAX / 100 + 1, u64::MAX] {
            let percent = download_percent(received, total);
            assert!(percent >= shown, "{received} of {total}");
            shown = percent;
        }
    }
}

#[test]
fn version_errors_carry_the_parsers_message() {
    let expected = semver::Version::parse("banana").unwrap_err().to_string();
    assert_eq!(
        client_update_info("vbanana", String::new(), "/r/releases/tag/v1.0.0"),
        Err(CoreError::Other(expected))
    );
    let tag_error = semver::Version::parse("1.0").unwrap_err().to_string();
    assert_eq!(
        client_update_info("1.0.0", String::new(), "/r/releases/tag/v1.0"),
        Err(CoreError::Other(tag_error))
    );
    let canonical = client_update_info("v1.2.3+build.5", String::new(), "/r/releases/tag/v1.2.4").unwrap();
    assert_eq!(canonical.current_version, "1.2.3+build.5");
    assert!(canonical.update_available);
}
