use git_share_obj::fsck::{FsckResult, FsckSummary};
use git_share_obj::hardlink::{pending_action, step, ActionOutcome, ReplaceResult, ReplaceState};
use git_share_obj::lock::lock_file_path;
use git_share_obj::scanner::{find_duplicates, GitObjectInfo};
use git_share_obj::stats::Stats;

const HASH_X: &str = "abcdef1234567890abcdef1234567890abcdef12";

fn record(path: &str, hash: &str, created: u64, size: u64, inode: u64, device: u64) -> GitObjectInfo {
    GitObjectInfo {
        path: path.to_string(),
        hash: hash.to_string(),
        created,
        size,
        inode,
        device,
    }
}

fn verdict(repo: &str, success: bool) -> FsckResult {
    FsckResult {
        repo: repo.to_string(),
        success,
        code: if success { Some(0) } else { Some(1) },
        stderr: if success { String::new() } else { "broken".to_string() },
    }
}

#[test]
fn test_fsck_summary_counts() {
    let mut summary = FsckSummary::new();
    summary.results.push(verdict("repo1", true));
    summary.results.push(verdict("repo2", false));

    assert_eq!(summary.total(), 2);
    assert_eq!(summary.failed(), 1);
    assert!(!summary.all_success());
}

#[test]
fn test_fsck_summary_all_success() {
    let mut summary = FsckSummary::new();
    summary.results.push(verdict("repo1", true));
    summary.results.push(verdict("repo2", true));

    assert_eq!(summary.failed(), 0);
    assert!(summary.all_success());
}

#[test]
fn test_fsck_summary_empty() {
    let summary = FsckSummary::new();
    assert_eq!(summary.total(), 0);
    assert!(summary.all_success());
}

#[test]
fn test_lock_file_path() {
    assert_eq!(
        lock_file_path("/work/repo1"),
        "/work/repo1/.git/objects/git-share-obj.lock"
    );
}

#[test]
fn test_stats_accounting() {
    let mut stats = Stats::new();
    stats.add_group(4, 2);
    stats.record(&ReplaceResult::Replaced);
    stats.record(&ReplaceResult::AlreadyLinked);
    stats.record(&ReplaceResult::CrossFilesystem);
    stats.record(&ReplaceResult::RolledBack("x".to_string()));
    stats.record(&ReplaceResult::Error("y".to_string()));

    assert_eq!(stats.total_duplicates, 2);
    assert_eq!(stats.total_savings, 8);
    assert_eq!(stats.replaced, 1);
    assert_eq!(stats.already_linked, 1);
    assert_eq!(stats.cross_filesystem, 1);
    assert_eq!(stats.errors, 2);
}

#[test]
fn test_stats_savings_saturate() {
    let mut stats = Stats::new();
    stats.add_group(u64::MAX, 3);
    assert_eq!(stats.total_savings, u64::MAX);
}

/// Repositories A and B hold byte-identical loose objects on one
/// device, A's strictly older.  Grouping picks A as source and B as
/// the only duplicate; a successful replacement run ends in
/// `Replaced`; re-grouping the records as a re-scan would now see
/// them finds nothing left to share.
#[test]
fn test_end_to_end_replace_then_idempotent() {
    let a = record("a/.git/objects/ab/x", HASH_X, 10, 4, 100, 1);
    let b = record("b/.git/objects/ab/x", HASH_X, 20, 4, 200, 1);

    let groups = find_duplicates(vec![a.clone(), b.clone()]);
    assert_eq!(groups.len(), 1);
    assert_eq!(groups[0].source.path, a.path);
    assert_eq!(groups[0].duplicates.len(), 1);
    assert_eq!(groups[0].duplicates[0].path, b.path);

    let mut state = ReplaceState::CheckingFilesystem;
    let events = vec![
        ActionOutcome::Holds,
        ActionOutcome::DoesNotHold,
        ActionOutcome::Succeeded,
        ActionOutcome::Succeeded,
        ActionOutcome::Succeeded,
    ];
    for ev in events {
        assert!(pending_action(&state).is_some());
        state = step(state, ev);
    }
    match state {
        ReplaceState::Done { result } => assert_eq!(result, ReplaceResult::Replaced),
        _ => panic!("protocol did not finish"),
    }

    // After the replacement the target shares the source's identity.
    let b_after = record(&b.path, HASH_X, 20, 4, a.inode, a.device);
    let regrouped = find_duplicates(vec![a, b_after]);
    assert!(regrouped.is_empty());
}

/// C and D already share one physical file for hash X; E holds an
/// independent, later copy on the same device.  The source comes from
/// the existing cluster and E is the only duplicate.
#[test]
fn test_end_to_end_existing_cluster_keeps_source() {
    let c = record("c/.git/objects/ab/x", HASH_X, 10, 4, 100, 1);
    let d = record("d/.git/objects/ab/x", HASH_X, 11, 4, 100, 1);
    let e = record("e/.git/objects/ab/x", HASH_X, 30, 4, 300, 1);

    let groups = find_duplicates(vec![c, d, e]);
    assert_eq!(groups.len(), 1);
    let source_path = groups[0].source.path.as_str();
    assert!(source_path.starts_with("c/") || source_path.starts_with("d/"));
    assert_eq!(groups[0].duplicates.len(), 1);
    assert!(groups[0].duplicates[0].path.starts_with("e/"));
}
