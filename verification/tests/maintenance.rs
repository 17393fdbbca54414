use powerpico_client::maintenance::{
    begin_uninstall, current_app_bundle, mount_points_from_hdiutil, mounted_product_volumes,
    saturating_total, storage_usage, uninstall_info, MaintenancePaths, BUNDLE_ID,
};
use powerpico_client::error::CoreError;

#[test]
fn maintenance_paths_only_include_exact_bundle_identifier() {
    let paths = MaintenancePaths {
        app_data: "/data/app".into(),
        cache: "/cache/app".into(),
        logs: "/logs/app".into(),
        home: "/home/user".into(),
    };
    for path in paths.all_data().into_iter().skip(3) {
        assert!(path.contains(BUNDLE_ID));
    }
}

#[test]
fn parses_duplicate_disk_image_volume_names() {
    let output = "/dev/disk5s1 APFS /Volumes/PowerPico Client\n/dev/disk6s1 HFS /Volumes/PowerPico Client 1\n/dev/disk7s1 HFS /Volumes/Other\n";
    assert_eq!(
        mount_points_from_hdiutil(output),
        vec![
            "/Volumes/Other".to_string(),
            "/Volumes/PowerPico Client".to_string(),
            "/Volumes/PowerPico Client 1".to_string(),
        ]
    );
}

#[test]
fn mount_points_are_trimmed_and_deduplicated() {
    let output = "x /Volumes/B  \r\nnothing here\n/Volumes/A\n/Volumes/B\n\t/Volumes/A";
    assert_eq!(
        mount_points_from_hdiutil(output),
        vec!["/Volumes/A".to_string(), "/Volumes/B".to_string()]
    );
    assert!(mount_points_from_hdiutil("").is_empty());
}

#[test]
fn system_data_paths_are_under_the_library() {
    let paths = MaintenancePaths {
        app_data: "/data/app".into(),
        cache: "/cache/app".into(),
        logs: "/logs/app".into(),
        home: "/home/user".into(),
    };
    let all = paths.all_data();
    assert_eq!(all.len(), 7);
    assert_eq!(all[0], "/data/app");
    assert_eq!(
        all[3],
        "/home/user/Library/Preferences/com.openfeasttech.powerpico-client.plist"
    );
    assert_eq!(
        all[4],
        "/home/user/Library/Saved Application State/com.openfeasttech.powerpico-client.savedState"
    );
    assert_eq!(all[6], "/home/user/Library/HTTPStorages/com.openfeasttech.powerpico-client");
}

#[test]
fn usage_totals_saturate() {
    let u = storage_usage(1, 2, 3);
    assert_eq!(u.total_bytes, 6);
    assert_eq!(storage_usage(u64::MAX, 5, 0).total_bytes, u64::MAX);
    assert_eq!(saturating_total(&[4, 5, u64::MAX]), u64::MAX);
    assert_eq!(saturating_total(&[]), 0);
}

#[test]
fn uninstall_needs_a_packaged_app_on_a_supported_platform() {
    let usage = storage_usage(10, 20, 30);
    let info = uninstall_info(Some("/Applications/PowerPico Client.app".into()), 100, usage, 7, vec![], true);
    assert!(info.supported);
    assert_eq!(info.total_bytes, 167);
    let info = uninstall_info(None, 0, usage, 0, vec!["/Volumes/X".into()], true);
    assert!(!info.supported);
    assert_eq!(info.mounted_volumes, vec!["/Volumes/X".to_string()]);
    assert!(!uninstall_info(Some("a".into()), 0, usage, 0, vec![], false).supported);
}

#[test]
fn portable_platform_answers() {
    assert_eq!(current_app_bundle(), Ok(None));
    assert_eq!(mounted_product_volumes(), Ok(vec![]));
    let paths = MaintenancePaths {
        app_data: String::new(),
        cache: String::new(),
        logs: String::new(),
        home: String::new(),
    };
    assert_eq!(
        begin_uninstall(&paths),
        Err(CoreError::Other("application uninstall is only supported on macOS".into()))
    );
}

/// Mount points as the standard library's paths order and merge them.
fn as_std_paths(output: &str) -> Vec<String> {
    let mut volumes: Vec<std::path::PathBuf> = Vec::new();
    for line in output.lines() {
        if let Some(index) = line.find("/Volumes/") {
            volumes.push(std::path::PathBuf::from(line[index..].trim()));
        }
    }
    volumes.sort();
    volumes.dedup();
    volumes.into_iter().map(|path| path.to_string_lossy().into_owned()).collect()
}

#[test]
fn mount_points_are_ordered_and_merged_as_paths() {
    let output = "disk1 /Volumes/a b\ndisk2 /Volumes/a/x\r\ndisk3 /Volumes/X/\ndisk4 /Volumes/X\n\
                  disk5 /Volumes//X\ndisk6 /Volumes/./Y\ndisk7 /Volumes/Y\ndisk8 /Volumes/../b\n\
                  no volume here\ndisk9   /Volumes/Z  \t";
    let listed = mount_points_from_hdiutil(output);
    assert_eq!(
        listed,
        vec![
            "/Volumes/../b".to_string(),
            "/Volumes/X/".to_string(),
            "/Volumes/./Y".to_string(),
            "/Volumes/Z".to_string(),
            "/Volumes/a/x".to_string(),
            "/Volumes/a b".to_string(),
        ]
    );
    assert_eq!(listed, as_std_paths(output));
    for sample in [
        "",
        "\n\n",
        "x /Volumes/b\nx /Volumes/a\nx /Volumes/b/\n",
        "/Volumes/A/..\n/Volumes/A\n/Volumes/A/./\n/Volumes/ A\n",
    ] {
        assert_eq!(mount_points_from_hdiutil(sample), as_std_paths(sample), "{sample:?}");
    }
}
