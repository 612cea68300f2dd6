use std::cell::RefCell;
use std::collections::BTreeMap;

use sftp_sync::entries::{index_entries, EntryKind, FileEntry};
use sftp_sync::execute::{execute_jobs_for_target, ActionStatus, SyncExecutor};
use sftp_sync::jobs::{resolve_remote_root, SyncJob, SyncPlan, SyncPlanner};
use sftp_sync::limiter::PauseLog;
use sftp_sync::memory::InMemoryRemote;
use sftp_sync::model::{SyncDirection, SyncRule};
use sftp_sync::plan::{diff_actions, SyncAction};
use sftp_sync::store::{LocalStore, RemoteStore};

/// A local store held in memory, with explicit modification times.
#[derive(Default)]
struct MemLocal {
    files: RefCell<BTreeMap<String, (Vec<u8>, u64)>>,
}

fn full(root: &str, rel: &str) -> String {
    if rel.is_empty() {
        root.to_string()
    } else if root.ends_with('/') {
        format!("{root}{rel}")
    } else {
        format!("{root}/{rel}")
    }
}

impl MemLocal {
    fn put(&self, root: &str, rel: &str, bytes: &[u8], modified: u64) {
        self.files.borrow_mut().insert(full(root, rel), (bytes.to_vec(), modified));
    }
}

impl LocalStore for MemLocal {
    fn list(&self, root: &str) -> Result<Vec<FileEntry>, String> {
        let prefix = format!("{root}/");
        Ok(self
            .files
            .borrow()
            .iter()
            .filter_map(|(path, (bytes, modified))| {
                path.strip_prefix(&prefix).map(|rel| FileEntry {
                    path: rel.to_string(),
                    kind: EntryKind::File,
                    size: bytes.len() as u64,
                    modified: *modified,
                })
            })
            .collect())
    }

    fn read_file(&self, root: &str, rel_path: &str) -> Result<Vec<u8>, String> {
        self.files
            .borrow()
            .get(&full(root, rel_path))
            .map(|(b, _)| b.clone())
            .ok_or_else(|| format!("missing {rel_path}"))
    }

    fn write_file(&mut self, root: &str, rel_path: &str, bytes: &[u8]) -> Result<(), String> {
        self.put(root, rel_path, bytes, now_ns());
        Ok(())
    }

    fn remove_file(&mut self, root: &str, rel_path: &str) -> Result<(), String> {
        self.files.borrow_mut().remove(&full(root, rel_path));
        Ok(())
    }

    fn ensure_dir(&mut self, _root: &str, _rel_path: &str) -> Result<(), String> {
        Ok(())
    }
}

fn now_ns() -> u64 {
    std::time::SystemTime::now()
        .duration_since(std::time::UNIX_EPOCH)
        .unwrap()
        .as_nanos() as u64
}

fn entry(path: &str, modified: u64) -> FileEntry {
    FileEntry { path: path.to_string(), kind: EntryKind::File, size: 1, modified }
}

fn rule(local: &str, remote: &str, direction: SyncDirection) -> SyncRule {
    SyncRule { local: local.to_string(), remote: remote.to_string(), direction }
}

#[test]
fn planner_detects_uploads_and_downloads() {
    let local = MemLocal::default();
    let old = now_ns() - 10_000_000_000;
    local.put("/local", "only_local.txt", b"local", old);
    local.put("/local", "stale.txt", b"outdated", old);

    let mut remote = InMemoryRemote::default();
    remote.write_file("/remote", "only_remote.txt", b"remote").unwrap();
    remote.write_file("/remote", "stale.txt", b"fresh").unwrap();

    let rule = rule("/local", "/remote", SyncDirection::Bidirectional);
    let planner = SyncPlanner::new(&local, &remote);
    let plan = planner.plan(&rule).unwrap();

    assert_eq!(plan.stats.uploads, 1);
    assert_eq!(plan.stats.downloads, 2);
    assert_eq!(plan.actions.len(), 3);
    assert_eq!(plan.stats.conflicts, 0);
    let uploads: Vec<&str> = plan
        .actions
        .iter()
        .filter_map(|a| match a {
            SyncAction::Upload { rel_path, .. } => Some(rel_path.as_str()),
            _ => None,
        })
        .collect();
    assert_eq!(uploads, vec!["only_local.txt"]);
}

#[test]
fn executor_applies_plan_against_mock_remote() {
    let local = MemLocal::default();
    local.put("/local", "upload.txt", b"payload", now_ns());
    let remote = InMemoryRemote::default();
    let rule = rule("/local", "/remote", SyncDirection::Push);

    let plan = SyncPlanner::new(&local, &remote).plan(&rule).unwrap();
    assert_eq!(plan.stats.uploads, 1);

    let mut executor = SyncExecutor::new(local, remote, None);
    let logs = executor.execute(&plan, &mut PauseLog::new());
    assert_eq!(logs.len(), 1);
    assert!(matches!(logs[0].status, ActionStatus::Applied));

    let bytes = executor.remote.read_file("/remote", "upload.txt").unwrap();
    assert_eq!(bytes, b"payload");
}

#[test]
fn resolve_remote_root_joins_base_path() {
    let resolved = resolve_remote_root("/srv/www", "apps/web");
    assert_eq!(resolved, "/srv/www/apps/web");
}

#[test]
fn resolve_remote_root_preserves_absolute_paths() {
    let resolved = resolve_remote_root("/srv/www", "/data");
    assert_eq!(resolved, "/data");
}

#[test]
fn resolve_remote_root_handles_empty_relative_path() {
    let resolved = resolve_remote_root("/srv/www", "");
    assert_eq!(resolved, "/srv/www");
}

#[test]
fn push_never_downloads_and_pull_never_uploads() {
    let l = index_entries(vec![entry("a", 10_000_000_000), entry("b", 1)]);
    let r = index_entries(vec![entry("b", 10_000_000_000), entry("c", 1)]);
    let (push, push_stats) = diff_actions(&rule("/l", "/r", SyncDirection::Push), &l, &r);
    assert!(push.iter().all(|a| !matches!(a, SyncAction::Download { .. } | SyncAction::DeleteLocal { .. })));
    assert_eq!((push_stats.uploads, push_stats.deletes_remote), (1, 1));
    let (pull, pull_stats) = diff_actions(&rule("/l", "/r", SyncDirection::Pull), &l, &r);
    assert!(pull.iter().all(|a| !matches!(a, SyncAction::Upload { .. } | SyncAction::DeleteRemote { .. })));
    assert_eq!((pull_stats.downloads, pull_stats.deletes_local), (2, 1));
}

#[test]
fn timestamps_within_skew_are_equal() {
    let l = index_entries(vec![entry("a", 1_000_000_000)]);
    let r = index_entries(vec![entry("a", 1_500_000_000)]);
    let (actions, _) = diff_actions(&rule("/l", "/r", SyncDirection::Bidirectional), &l, &r);
    assert!(actions.is_empty());
    let r2 = index_entries(vec![entry("a", 1_500_000_001)]);
    let (actions, stats) = diff_actions(&rule("/l", "/r", SyncDirection::Bidirectional), &l, &r2);
    assert_eq!(actions.len(), 1);
    assert_eq!(stats.downloads, 1);
}

#[test]
fn replanning_after_agreement_is_empty() {
    let l = index_entries(vec![entry("a", 5_000_000_000), entry("b", 7_000_000_000)]);
    let r = index_entries(vec![entry("b", 7_200_000_000), entry("a", 5_000_000_000)]);
    for dir in [SyncDirection::Push, SyncDirection::Pull, SyncDirection::Bidirectional] {
        let plan = SyncPlan::from_indexes(&rule("/l", "/r", dir), &l, &r);
        assert!(plan.actions.is_empty());
        let s = plan.stats;
        assert_eq!((s.uploads, s.downloads, s.deletes_remote, s.deletes_local, s.conflicts), (0, 0, 0, 0, 0));
    }
}

#[test]
fn planning_twice_gives_the_same_plan() {
    let l = index_entries(vec![entry("x", 9_000_000_000), entry("y", 1)]);
    let r = index_entries(vec![entry("y", 9_000_000_000), entry("z", 1)]);
    let rule = rule("/l", "/r", SyncDirection::Bidirectional);
    let (a1, s1) = diff_actions(&rule, &l, &r);
    let (a2, s2) = diff_actions(&rule, &l, &r);
    let paths = |v: &Vec<SyncAction>| v.iter().map(|a| a.rel_path().clone()).collect::<Vec<_>>();
    assert_eq!(paths(&a1), paths(&a2));
    assert_eq!(s1, s2);
}

#[test]
fn index_keeps_last_entry_per_path() {
    let idx = index_entries(vec![entry("a", 1), entry("b", 2), entry("a", 3)]);
    assert_eq!(idx.len(), 2);
    assert_eq!(idx.get("a").unwrap().modified, 3);
    assert_eq!(idx.entries()[0].path, "a");
}

#[test]
fn uploads_make_remote_match_local() {
    let local = MemLocal::default();
    local.put("/src", "one.txt", b"first", 1);
    local.put("/src", "dir/two.txt", b"second", 1);
    let remote = InMemoryRemote::default();
    let rule = rule("/src", "/dst", SyncDirection::Push);
    let plan = SyncPlanner::new(&local, &remote).plan(&rule).unwrap();
    let mut executor = SyncExecutor::new(local, remote, None);
    let logs = executor.execute(&plan, &mut PauseLog::new());
    assert!(logs.iter().all(|l| matches!(l.status, ActionStatus::Applied)));
    for p in ["one.txt", "dir/two.txt"] {
        assert_eq!(executor.remote.read_file("/dst", p).unwrap(), executor.local.read_file("/src", p).unwrap());
    }
}

#[test]
fn conflicts_are_skipped_and_failures_do_not_stop_the_batch() {
    let mut remote = InMemoryRemote::default();
    remote.write_file("/r", "present.txt", b"x").unwrap();
    let local = MemLocal::default();
    let plan = SyncPlan {
        rule: rule("/l", "/r", SyncDirection::Bidirectional),
        actions: vec![
            SyncAction::Conflict { rel_path: "c.txt".to_string() },
            SyncAction::Upload { rel_path: "missing.txt".to_string(), size: 1 },
            SyncAction::Download { rel_path: "present.txt".to_string(), size: 1 },
        ],
        stats: sftp_sync::plan::PlanStats { uploads: 1, downloads: 1, deletes_remote: 0, deletes_local: 0, conflicts: 1 },
    };
    let mut executor = SyncExecutor::new(local, remote, None);
    let logs = executor.execute(&plan, &mut PauseLog::new());
    assert!(matches!(logs[0].status, ActionStatus::SkippedConflict));
    assert!(matches!(logs[1].status, ActionStatus::Failed(_)));
    assert!(matches!(logs[2].status, ActionStatus::Applied));
    assert_eq!(executor.local.read_file("/l", "present.txt").unwrap(), b"x");
}

#[test]
fn job_execution_counts_outcomes() {
    let local = MemLocal::default();
    local.put("/l", "a.txt", b"a", 1);
    let remote = InMemoryRemote::default();
    let rule = rule("/l", "/r", SyncDirection::Push);
    let job = SyncJob::plan(7, 3, &rule, &local, &remote).unwrap();
    assert_eq!(job.pending_actions(), 1);
    let mut executor = SyncExecutor::new(local, remote, None);
    let summary = execute_jobs_for_target(&mut executor, &[job]);
    assert_eq!(executor.remote.read_file("/r", "a.txt").unwrap(), b"a");
    assert_eq!((summary.applied, summary.skipped, summary.failures.len()), (1, 0, 0));
}
