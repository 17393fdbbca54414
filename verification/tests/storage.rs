use powerpico_client::error::CoreError;
use powerpico_client::paths::{file_extension, file_stem, join_path, sibling_level_path};
use powerpico_client::storage::{
    export_names, level_buffered, levels_filled_by, record_file_name, render_chunk_size,
    select_render_level, validate_l0_name, validate_l0_size, L0_SIZE, LN_SIZE, MAX_LEVELS,
};

#[test]
fn level_files_sit_beside_the_recording() {
    assert_eq!(
        sibling_level_path("/cache/records/record_1700000000.bin", 1),
        "/cache/records/record_1700000000.L1.bin"
    );
    assert_eq!(sibling_level_path("rec.v2.bin", 5), "rec.v2.L5.bin");
    assert_eq!(sibling_level_path("/x/.hidden", 3), "/x/.hidden.L3.bin");
}

#[test]
fn recordings_must_be_bin_files_of_whole_samples() {
    assert_eq!(validate_l0_name("/a/record.bin"), Ok(()));
    assert_eq!(validate_l0_name("/a/record.BiN"), Ok(()));
    let wrong = Err(CoreError::InvalidRecording("expected a .bin file".into()));
    assert_eq!(validate_l0_name("/a/record.csv"), wrong);
    assert_eq!(validate_l0_name("/a/.bin"), wrong);
    assert_eq!(validate_l0_name("/a/record"), wrong);
    assert_eq!(validate_l0_size(L0_SIZE * 3), Ok(()));
    assert_eq!(
        validate_l0_size(0),
        Err(CoreError::InvalidRecording("file size 0 is not a multiple of 16".into()))
    );
    assert_eq!(
        validate_l0_size(17),
        Err(CoreError::InvalidRecording("file size 17 is not a multiple of 16".into()))
    );
}

#[test]
fn recording_and_export_names() {
    assert_eq!(record_file_name(1_700_000_000), "record_1700000000.bin");
    assert_eq!(record_file_name(-5), "record_-5.bin");
    assert_eq!(record_file_name(i64::MIN), format!("record_{}.bin", i64::MIN));
    let names = export_names("20260101120000");
    assert_eq!(names.l0, "record_20260101120000.bin");
    assert_eq!(names.csv, "record_20260101120000.csv");
    assert_eq!(names.levels.len(), 5);
    assert_eq!(names.levels[4], "record_20260101120000.L5.bin");
}

#[test]
fn render_level_and_grouping() {
    assert_eq!(select_render_level(10_000, 100, &[LN_SIZE; 5]), 0);
    assert_eq!(select_render_level(1_000_000, 100, &[LN_SIZE; 5]), 1);
    assert_eq!(select_render_level(100_000_000, 10, &[LN_SIZE; 5]), 3);
    assert_eq!(select_render_level(100_000_000, 10, &[LN_SIZE, 0, LN_SIZE, LN_SIZE, LN_SIZE]), 1);
    assert_eq!(select_render_level(100_000_000, 0, &[]), 0);
    assert_eq!(render_chunk_size(0, 100), 1);
    assert_eq!(render_chunk_size(200, 100), 1);
    assert_eq!(render_chunk_size(201, 100), 2);
    assert_eq!(render_chunk_size(5, 0), 3);
}

#[test]
fn path_text_helpers() {
    assert_eq!(join_path("/home/user", "Library"), "/home/user/Library");
    assert_eq!(join_path("/home/user/", "Library"), "/home/user/Library");
    assert_eq!(join_path("", "Library"), "Library");
    assert_eq!(join_path("/home", "/etc"), "/etc");
    assert_eq!(file_stem("/a/b.tar.gz").as_deref(), Some("b.tar"));
    assert_eq!(file_extension("/a/b.tar.gz").as_deref(), Some("gz"));
    assert_eq!(file_extension("/a/.profile"), None);
}

#[test]
fn created_recordings_pass_the_import_name_check() {
    for stamp in [0, 1_700_000_000, -42, i64::MAX, i64::MIN] {
        let name = record_file_name(stamp);
        assert_eq!(validate_l0_name(&join_path("/cache/records", &name)), Ok(()));
        assert_eq!(validate_l0_name(&join_path("/cache/records/", &name)), Ok(()));
        assert_eq!(validate_l0_name(&join_path("", &name)), Ok(()));
    }
}

#[test]
fn grouping_keeps_two_points_per_pixel() {
    for (items, width) in [(0usize, 0usize), (1, 0), (5, 0), (201, 100), (1_000_000, 37), (399, 200)] {
        let chunk = render_chunk_size(items, width);
        let target = width.max(1) * 2;
        assert!(chunk >= 1);
        assert!(items <= chunk * target);
        assert!(items.div_ceil(chunk) <= target);
    }
}

#[test]
fn aggregate_levels_fill_on_every_hundredth_item() {
    assert_eq!(levels_filled_by(1), 0);
    assert_eq!(levels_filled_by(99), 0);
    assert_eq!(levels_filled_by(100), 1);
    assert_eq!(levels_filled_by(250), 0);
    assert_eq!(levels_filled_by(10_000), 2);
    assert_eq!(levels_filled_by(3_000_000), 3);
    assert_eq!(levels_filled_by(10_000_000_000), 5);
    assert_eq!(levels_filled_by(1_000_000_000_000), 5);
    assert_eq!(level_buffered(250, 0), 50);
    assert_eq!(level_buffered(250, 1), 2);
    assert_eq!(level_buffered(250, 2), 0);
    assert_eq!(level_buffered(123_456_789, 4), 1);
}

/// Items each level file holds after `n` samples and the final flush.
fn level_file_items(n: u64) -> Vec<u64> {
    let mut items = vec![0u64; MAX_LEVELS];
    for sample in 1..=n {
        for level in 0..levels_filled_by(sample) {
            items[level] += 1;
        }
    }
    for (level, count) in items.iter_mut().enumerate() {
        if level_buffered(n, level) > 0 {
            *count += 1;
        }
    }
    items
}

#[test]
fn level_files_hold_one_item_per_hundred_below() {
    assert_eq!(level_file_items(250), vec![3, 1, 0, 0, 0]);
    assert_eq!(level_file_items(100), vec![1, 1, 0, 0, 0]);
    assert_eq!(level_file_items(0), vec![0, 0, 0, 0, 0]);
    assert_eq!(level_file_items(20_001), vec![201, 2, 1, 0, 0]);
    for n in [1u64, 99, 100, 101, 9_999, 10_000, 123_456] {
        let mut filled = vec![0u64; MAX_LEVELS];
        for sample in 1..=n {
            for level in 0..levels_filled_by(sample) {
                filled[level] += 1;
            }
        }
        for level in 0..MAX_LEVELS {
            assert_eq!(filled[level], n / 100u64.pow(level as u32 + 1));
        }
    }
}

#[test]
fn path_names_follow_the_standard_library() {
    for path in [
        "/a/b.tar.gz",
        "/a/.profile",
        "/cache/records/record_1.bin",
        "/cache/records/record_1.bin/",
        "/cache//records/./record_1.bin",
        "./record_1.bin",
        ".//record_1.bin",
        "record_1.bin",
        "/record_1.bin",
        "//record_1.bin",
        "../x.bin",
        "/x/..",
        "/x/.",
        ".",
        "/",
        "",
        "a/b/c.d.e/",
        "./a/.bin",
    ] {
        let std_path = std::path::Path::new(path);
        assert_eq!(
            file_stem(path).as_deref(),
            std_path.file_stem().and_then(|value| value.to_str()),
            "{path}"
        );
        assert_eq!(
            file_extension(path).as_deref(),
            std_path.extension().and_then(|value| value.to_str()),
            "{path}"
        );
        for level in 1..=5 {
            let stem = std_path.file_stem().and_then(|value| value.to_str()).unwrap_or("record");
            let expected = std_path.with_file_name(format!("{stem}.L{level}.bin"));
            assert_eq!(sibling_level_path(path, level), expected.to_string_lossy(), "{path}");
        }
    }
}
