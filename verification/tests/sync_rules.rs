//! The crawler's decision core: relative joining, the observed set and its
//! claim latch, task planning, the deletion plan and the exit codes.

use tsumugu::compare::{LocalFileKind, LocalMetadata};
use tsumugu::regex::Comparison;
use tsumugu::sync::{compute_exit_code, join_relative, plan_deletions, plan_download,
    plan_list_children, plan_redirect, tmp_name, PoolCounters, RedirectAction, RemoteObservedSet,
    Task, TaskType};
use tsumugu::{FileSize, FileType, ListItem, NaiveDateTime, SizeUnit};

#[test]
fn test_relative() {
    let mut relative: Vec<String> = vec![];
    assert_eq!(join_relative(&relative).unwrap(), "");
    relative.push("debian".to_string());
    assert_eq!(join_relative(&relative).unwrap(), "debian");
    relative.push("dists".to_string());
    assert_eq!(join_relative(&relative).unwrap(), "debian/dists");
}

#[test]
fn observed_set_claims_once() {
    let mut set = RemoteObservedSet::new();
    assert!(!set.contains("/mirror/a"));
    assert!(set.insert("/mirror/a".to_string()));
    assert!(set.contains("/mirror/a"));
    // a second claim of the same path reports it as already handled
    assert!(!set.insert("/mirror/a".to_string()));
    assert!(set.insert("/mirror/b".to_string()));
    assert!(!set.insert("/mirror/a".to_string()));
}

fn file_item(name: &str, size: u64) -> ListItem {
    ListItem::new(
        format!("http://up.test/d/{name}"),
        name.to_string(),
        FileType::File,
        Some(FileSize::Precise(size)),
        NaiveDateTime::from_timestamp(1000),
    )
}

fn dir_item(name: &str) -> ListItem {
    ListItem::new(
        format!("http://up.test/d/{name}/"),
        name.to_string(),
        FileType::Directory,
        None,
        NaiveDateTime::from_timestamp(0),
    )
}

#[test]
fn children_become_tasks_with_statistics() {
    let items = vec![dir_item("sub"), file_item("a.bin", 10), file_item("b.bin", 7)];
    let relative = vec!["top".to_string()];
    let (tasks, objects, size) = plan_list_children(items, &relative, Comparison::Allow);
    assert_eq!(tasks.len(), 3);
    assert_eq!(objects, 3);
    assert_eq!(size, 17);
    match &tasks[0].task {
        TaskType::Listing => {
            assert_eq!(tasks[0].relative, vec!["top".to_string(), "sub".to_string()]);
            assert_eq!(tasks[0].url, "http://up.test/d/sub/");
        },
        _ => panic!("expected a listing task"),
    }
    match &tasks[1].task {
        TaskType::Download(item) => {
            assert_eq!(item.name, "a.bin");
            assert_eq!(tasks[1].relative, vec!["top".to_string()]);
        },
        _ => panic!("expected a download task"),
    }
}

#[test]
fn list_only_suppresses_file_downloads() {
    let items = vec![dir_item("sub"), file_item("a.bin", 10)];
    let relative = vec!["top".to_string()];
    let (tasks, objects, size) = plan_list_children(items, &relative, Comparison::ListOnly);
    assert_eq!(tasks.len(), 1);
    assert_eq!(objects, 1);
    assert_eq!(size, 0);
    assert!(matches!(tasks[0].task, TaskType::Listing));
}

#[test]
fn download_plan_claims_then_judges() {
    let manager = tsumugu::regex_process::ExclusionManager::new(vec![], vec![]);
    let mut observed = RemoteObservedSet::new();
    let item = file_item("a.bin", 10);
    let local = LocalMetadata { kind: LocalFileKind::File, size: 10, mtime: 1000 };
    let plan = plan_download(
        &manager,
        &mut observed,
        "top/a.bin",
        "/mirror/top/a.bin",
        &vec![],
        &vec![],
        Some(&local),
        &item,
        Some(0),
    )
    .unwrap();
    assert!(!plan.should_download);
    assert!(!plan.skip_if_exists);
    assert!(!plan.compare_size_only);
    assert!(observed.contains("/mirror/top/a.bin"));
    // the same target again: claimed already, no second plan
    assert!(plan_download(
        &manager,
        &mut observed,
        "top/a.bin",
        "/mirror/top/a.bin",
        &vec![],
        &vec![],
        Some(&local),
        &item,
        Some(0),
    )
    .is_none());
}

#[test]
fn download_plan_stops_before_claiming() {
    let exclusions =
        vec![tsumugu::regex_process::ExpandedRegex::from_str("secret").unwrap()];
    let manager = tsumugu::regex_process::ExclusionManager::new(exclusions, vec![]);
    let mut observed = RemoteObservedSet::new();
    let item = file_item("secret.bin", 10);
    let r = plan_download(
        &manager,
        &mut observed,
        "top/secret.bin",
        "/mirror/top/secret.bin",
        &vec![],
        &vec![],
        None,
        &item,
        None,
    );
    assert!(r.is_none());
    // the stopped file stays unobserved, so the reconciler may delete it
    assert!(!observed.contains("/mirror/top/secret.bin"));
}

#[test]
fn redirect_plans_a_symlink_from_the_target() {
    match plan_redirect("http://up.test/pool/centos/", false) {
        RedirectAction::Symlink(name) => assert_eq!(name, "centos"),
        _ => panic!("expected a symlink plan"),
    }
    assert!(matches!(plan_redirect("http://up.test/pool/centos/", true), RedirectAction::Skip));
    assert!(matches!(plan_redirect("", false), RedirectAction::Fail));
}

#[test]
fn tmp_sibling_is_distinct() {
    let t = tmp_name("archive.tar.gz").unwrap();
    assert_eq!(t, ".tmp.archive.tar.gz");
    assert_ne!(t, "archive.tar.gz");
}

#[test]
fn deletion_plan_respects_the_bound() {
    let mut observed = RemoteObservedSet::new();
    observed.insert("/mirror/keep".to_string());
    let entries = vec![
        ("/mirror/keep".to_string(), false),
        ("/mirror/gone1".to_string(), false),
        ("/mirror/gone2".to_string(), false),
        ("/mirror/gone3".to_string(), true),
    ];
    let plan = plan_deletions(entries.clone(), &observed, false, false, 2);
    assert!(plan.aborted);
    assert_eq!(plan.deletions.len(), 2);
    assert_eq!(plan.deletions[0].0, "/mirror/gone1");
    assert_eq!(plan.deletions[1].0, "/mirror/gone2");

    let generous = plan_deletions(entries.clone(), &observed, false, false, 100);
    assert!(!generous.aborted);
    assert_eq!(generous.deletions.len(), 3);

    // a failed listing forbids every deletion
    let safe = plan_deletions(entries.clone(), &observed, true, false, 100);
    assert!(!safe.aborted);
    assert_eq!(safe.deletions.len(), 0);

    // deletion disabled: nothing planned
    let off = plan_deletions(entries, &observed, false, true, 100);
    assert!(!off.aborted);
    assert_eq!(off.deletions.len(), 0);
}

#[test]
fn exit_codes_follow_the_table() {
    assert_eq!(compute_exit_code(false, false, false, false, false), 0);
    assert_eq!(compute_exit_code(true, false, false, false, false), 1);
    assert_eq!(compute_exit_code(false, true, false, false, false), 2);
    assert_eq!(compute_exit_code(false, false, true, false, false), 25);
    assert_eq!(compute_exit_code(false, false, false, true, false), 1);
    assert_eq!(compute_exit_code(false, false, false, false, true), 4);
    // a failed download wins over an aborted pass
    assert_eq!(compute_exit_code(false, true, true, false, true), 2);
}

#[test]
fn pool_counters_exit_with_the_last_worker() {
    let mut c = PoolCounters::new();
    c.worker_enters();
    c.worker_enters();
    c.task_pushed();
    assert_eq!(c.wake, 1);
    // the first drained worker is not the last: it sleeps
    assert!(!c.worker_drained());
    assert!(c.try_consume_wake());
    assert!(!c.try_consume_wake());
    c.worker_enters();
    assert!(!c.worker_drained());
    // the remaining worker drains and exits the pool
    assert!(c.worker_drained());
    assert_eq!(c.active, 0);
}

#[test]
fn timezone_guessed_from_probe_gap() {
    // the listing shows 08:00 naive while the probe says midnight: +8 hours
    let naive = NaiveDateTime::from_timestamp(8 * 3600);
    assert_eq!(tsumugu::sync::guess_timezone_offset(&naive, 0), Some(8 * 3600));
    // half an hour rounds up to one hour
    let naive2 = NaiveDateTime::from_timestamp(1800);
    assert_eq!(tsumugu::sync::guess_timezone_offset(&naive2, 0), Some(3600));
    let naive3 = NaiveDateTime::from_timestamp(-3600);
    assert_eq!(tsumugu::sync::guess_timezone_offset(&naive3, 0), Some(-3600));
    // a gap of days is no usable offset
    let far = NaiveDateTime::from_timestamp(40 * 3600);
    assert_eq!(tsumugu::sync::guess_timezone_offset(&far, 0), None);
}

#[test]
fn first_file_is_the_probe_target() {
    let items = vec![dir_item("sub"), file_item("a.bin", 1), file_item("b.bin", 2)];
    assert_eq!(tsumugu::sync::first_file_url(&items), Some("http://up.test/d/a.bin".to_string()));
    let none = vec![dir_item("sub")];
    assert_eq!(tsumugu::sync::first_file_url(&none), None);
}

#[test]
fn download_mtime_prefers_the_header() {
    let item_time = NaiveDateTime::from_timestamp(1000);
    assert_eq!(
        tsumugu::sync::choose_download_mtime(Some(555), true, &item_time, Some(0)),
        Some(555)
    );
    assert_eq!(
        tsumugu::sync::choose_download_mtime(None, true, &item_time, Some(3600)),
        Some(1000 - 3600)
    );
    assert_eq!(tsumugu::sync::choose_download_mtime(None, false, &item_time, Some(3600)), None);
}

#[test]
fn tasks_carry_their_fields() {
    let t = Task {
        task: TaskType::Listing,
        relative: vec!["a".to_string()],
        url: "http://up.test/a/".to_string(),
    };
    assert!(matches!(t.task, TaskType::Listing));
    assert_eq!(t.url, "http://up.test/a/");
}
