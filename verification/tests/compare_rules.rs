//! The freshness comparator on the scenarios the design fixes.

use tsumugu::compare::{should_download_by_head, should_download_by_list};
use tsumugu::compare::{LocalFileKind, LocalMetadata};
use tsumugu::{FileSize, FileType, ListItem, NaiveDateTime, SizeUnit};

fn remote_file(size: Option<FileSize>, mtime_secs: i64) -> ListItem {
    ListItem::new(
        "http://example.test/dir/file".to_string(),
        "file".to_string(),
        FileType::File,
        size,
        NaiveDateTime::from_timestamp(mtime_secs),
    )
}

fn local_file(size: u64, mtime_secs: i64) -> LocalMetadata {
    LocalMetadata { kind: LocalFileKind::File, size, mtime: mtime_secs }
}

#[test]
fn local_absent_downloads() {
    let remote = remote_file(Some(FileSize::Precise(10)), 1000);
    assert!(should_download_by_list(None, &remote, Some(0), false, false));
}

#[test]
fn equal_size_and_mtime_skips() {
    let remote = remote_file(Some(FileSize::Precise(100)), 5000);
    let local = local_file(100, 5000);
    assert!(!should_download_by_list(Some(&local), &remote, Some(0), false, false));
}

#[test]
fn precise_size_off_by_one_downloads() {
    let remote = remote_file(Some(FileSize::Precise(100)), 5000);
    let local = local_file(101, 5000);
    assert!(should_download_by_list(Some(&local), &remote, Some(0), false, false));
}

#[test]
fn humanized_size_within_tolerance_skips() {
    // 3100 bytes is about 3.03 K: less than two units from 3.0 K
    let remote = remote_file(Some(FileSize::HumanizedBinary(3000, SizeUnit::K)), 5000);
    let local = local_file(3100, 5000);
    assert!(!should_download_by_list(Some(&local), &remote, Some(0), false, false));
}

#[test]
fn humanized_size_past_tolerance_downloads() {
    // 5200 bytes is about 5.08 K: two units or more from 3.0 K
    let remote = remote_file(Some(FileSize::HumanizedBinary(3000, SizeUnit::K)), 5000);
    let local = local_file(5200, 5000);
    assert!(should_download_by_list(Some(&local), &remote, Some(0), false, false));
}

#[test]
fn skip_if_exists_skips_whatever_the_stats() {
    let remote = remote_file(Some(FileSize::Precise(100)), 5000);
    let local = local_file(12345, 99999);
    assert!(!should_download_by_list(Some(&local), &remote, Some(0), true, false));
}

#[test]
fn unknown_timezone_tolerates_a_day_not_more() {
    let local = local_file(100, 0);
    // 25 hours of gap: past the one-day tolerance
    let far = remote_file(Some(FileSize::Precise(100)), 25 * 3600);
    assert!(should_download_by_list(Some(&local), &far, None, false, false));
    // 23 hours of gap: inside it
    let near = remote_file(Some(FileSize::Precise(100)), 23 * 3600);
    assert!(!should_download_by_list(Some(&local), &near, None, false, false));
}

#[test]
fn known_timezone_tolerates_a_minute_not_more() {
    let local = local_file(100, 0);
    let near = remote_file(Some(FileSize::Precise(100)), 90);
    assert!(!should_download_by_list(Some(&local), &near, Some(0), false, false));
    let far = remote_file(Some(FileSize::Precise(100)), 121);
    assert!(should_download_by_list(Some(&local), &far, Some(0), false, false));
}

#[test]
fn timezone_offset_shifts_the_remote_clock() {
    // naive 08:00 read in +08:00 is midnight UTC, matching the local file
    let local = local_file(100, 0);
    let remote = remote_file(Some(FileSize::Precise(100)), 8 * 3600);
    assert!(!should_download_by_list(Some(&local), &remote, Some(8 * 3600), false, false));
}

#[test]
fn unchanged_state_keeps_the_decision() {
    let remote = remote_file(Some(FileSize::Precise(100)), 5000);
    let local = local_file(100, 5000);
    let first = should_download_by_list(Some(&local), &remote, Some(0), false, false);
    let again = should_download_by_list(Some(&local), &remote, Some(0), false, false);
    assert_eq!(first, again);
    assert!(!first);
}

#[test]
fn type_mismatch_downloads() {
    let remote = remote_file(Some(FileSize::Precise(100)), 5000);
    let local = LocalMetadata { kind: LocalFileKind::Directory, size: 100, mtime: 5000 };
    assert!(should_download_by_list(Some(&local), &remote, Some(0), false, false));
}

#[test]
fn head_probe_builds_a_precise_item() {
    let local = local_file(100, 5000);
    // equal size and time: skip
    assert!(!should_download_by_head(
        Some(&local),
        "http://example.test/dir/file".to_string(),
        "file".to_string(),
        100,
        5000,
        false,
    ));
    // size differs: download
    assert!(should_download_by_head(
        Some(&local),
        "http://example.test/dir/file".to_string(),
        "file".to_string(),
        99,
        5000,
        false,
    ));
    // size differs but only the time is wrong and size-only is set: skip
    assert!(!should_download_by_head(
        Some(&local),
        "http://example.test/dir/file".to_string(),
        "file".to_string(),
        100,
        999999,
        true,
    ));
}
