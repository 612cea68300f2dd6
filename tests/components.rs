use std::cell::RefCell;

use sftp_sync::config::{
    default_bandwidth, default_language_code, default_true, language_from_code, language_to_code,
    persist_remote_targets, PersistedAuth, PersistedRemoteTarget,
};
use sftp_sync::connection::{parse_port, split_host_port};
use sftp_sync::entries::{EntryKind, FileEntry};
use sftp_sync::execute::{execute_jobs_with_progress, summarize, ActionStatus, ExecutionLog, ExecutionSummary, SyncExecutor};
use sftp_sync::jobs::{plan_jobs_for_target, plan_jobs_with_progress, PlannedJob, SyncJob};
use sftp_sync::limiter::{BandwidthLimiter, PauseLog};
use sftp_sync::memory::InMemoryRemote;
use sftp_sync::model::{
    sample_remote_targets, AppSettings, AuthMethod, Language, LogLevel, RemoteTarget, SyncDirection, SyncRule,
    SyncStatus, TaskKind, TaskProgress,
};
use sftp_sync::paths::{dir_prefixes, join_paths, parent_of};
use sftp_sync::progress::ProgressLog;
use sftp_sync::plan::SyncAction;
use sftp_sync::secrets::{SecretSlot, SecretUpdate};
use sftp_sync::security::{fingerprint_from_raw, to_hex, verify_host, HostCheck, KnownHosts};
use sftp_sync::store::{LocalStore, RemoteStore};
use sftp_sync::task_queue::{progress_event, status_after, worker_count, TaskEvent};
use sftp_sync::watcher::{match_target, watch_roots, WatchTarget};

/// A local store whose files all live under one root; listing any other root fails.
struct OneRoot {
    root: String,
    files: RefCell<Vec<(String, Vec<u8>)>>,
}

impl LocalStore for OneRoot {
    fn list(&self, root: &str) -> Result<Vec<FileEntry>, String> {
        if root != self.root {
            return Err(format!("no such directory {root}"));
        }
        Ok(self
            .files
            .borrow()
            .iter()
            .map(|(p, b)| FileEntry { path: p.clone(), kind: EntryKind::File, size: b.len() as u64, modified: 1 })
            .collect())
    }
    fn read_file(&self, _root: &str, rel_path: &str) -> Result<Vec<u8>, String> {
        self.files
            .borrow()
            .iter()
            .find(|(p, _)| p == rel_path)
            .map(|(_, b)| b.clone())
            .ok_or_else(|| "missing".to_string())
    }
    fn write_file(&mut self, _root: &str, rel_path: &str, bytes: &[u8]) -> Result<(), String> {
        self.files.borrow_mut().push((rel_path.to_string(), bytes.to_vec()));
        Ok(())
    }
    fn remove_file(&mut self, _root: &str, rel_path: &str) -> Result<(), String> {
        self.files.borrow_mut().retain(|(p, _)| p != rel_path);
        Ok(())
    }
    fn ensure_dir(&mut self, _root: &str, _rel_path: &str) -> Result<(), String> {
        Ok(())
    }
}

fn one_root(root: &str, files: &[(&str, &[u8])]) -> OneRoot {
    OneRoot {
        root: root.to_string(),
        files: RefCell::new(files.iter().map(|(p, b)| (p.to_string(), b.to_vec())).collect()),
    }
}

fn target_with(rules: Vec<SyncRule>) -> RemoteTarget {
    RemoteTarget {
        id: 9,
        name: "Box".to_string(),
        host: "box:22".to_string(),
        username: "me".to_string(),
        base_path: "/base".to_string(),
        rules,
        auth: AuthMethod::password(String::new()),
    }
}

fn rule(local: &str, remote: &str, direction: SyncDirection) -> SyncRule {
    SyncRule { local: local.to_string(), remote: remote.to_string(), direction }
}

#[test]
fn host_and_port_are_split() {
    assert_eq!(split_host_port("prod.example.com:22"), ("prod.example.com".to_string(), 22));
    assert_eq!(split_host_port("analytics.internal:2200"), ("analytics.internal".to_string(), 2200));
    assert_eq!(split_host_port("plain"), ("plain".to_string(), 22));
    assert_eq!(split_host_port("[::1]:2222"), ("::1".to_string(), 2222));
    assert_eq!(split_host_port("[::1]"), ("[::1]".to_string(), 22));
    assert_eq!(split_host_port("fe80::1"), ("fe80::1".to_string(), 22));
    assert_eq!(split_host_port("host:abc"), ("host:abc".to_string(), 22));
    assert_eq!(split_host_port("host:70000"), ("host:70000".to_string(), 22));
    assert_eq!(split_host_port("host:+80"), ("host".to_string(), 80));
}

#[test]
fn ports_parse_like_u16() {
    for s in ["", "+", "65536", "-1", "1a", " 1"] {
        assert_eq!(parse_port(s), s.parse::<u16>().ok(), "{s}");
    }
    for s in ["0", "22", "+22", "0022", "65535"] {
        assert_eq!(parse_port(s), s.parse::<u16>().ok(), "{s}");
    }
}

#[test]
fn fingerprint_is_hex_sha256() {
    assert_eq!(
        fingerprint_from_raw(b"abc"),
        "ba7816bf8f01cfea414140de5dae2223b00361a396177a9cb410ff61f20015ad"
    );
    assert_eq!(to_hex(&[0x00, 0xff, 0x1a]), "00ff1a");
}

#[test]
fn hosts_are_trusted_on_first_use() {
    let mut hosts = KnownHosts::new();
    assert!(matches!(verify_host(&mut hosts, "h", "aa"), HostCheck::New));
    assert!(matches!(verify_host(&mut hosts, "h", "aa"), HostCheck::Match));
    match verify_host(&mut hosts, "h", "bb") {
        HostCheck::Mismatch { expected, got } => {
            assert_eq!(expected, "aa");
            assert_eq!(got, "bb");
        }
        _ => panic!("expected a mismatch"),
    }
    assert_eq!(hosts.get("h").map(|s| s.as_str()), Some("aa"));
    assert_eq!(hosts.entries().len(), 1);
}

#[test]
fn secret_keys_name_target_and_kind() {
    assert_eq!(SecretSlot::Password(7).storage_key(), "target-7-password");
    assert_eq!(SecretSlot::KeyPassphrase(1234).storage_key(), "target-1234-passphrase");
    assert_eq!(SecretSlot::Password(0).storage_key(), "target-0-password");
}

#[test]
fn language_codes() {
    for code in ["zh-Hans", "zh_CN", "zh-cn", "zh_hans", "zh"] {
        assert_eq!(language_from_code(code), Language::SimplifiedChinese);
    }
    for code in ["zh-Hant", "zh_TW", "zh-tw", "zh_hant"] {
        assert_eq!(language_from_code(code), Language::TraditionalChinese);
    }
    assert_eq!(language_from_code("fr"), Language::English);
    for lang in [Language::English, Language::SimplifiedChinese, Language::TraditionalChinese] {
        assert_eq!(language_from_code(language_to_code(lang)), lang);
    }
    assert_eq!(default_language_code(), "en");
    assert!(default_true());
    assert_eq!(default_bandwidth(), 200);
}

#[test]
fn persisting_targets_moves_secrets_to_the_vault() {
    let mut with_key = target_with(vec![]);
    with_key.id = 3;
    with_key.auth = AuthMethod::SshKey {
        private_key: "/k".to_string(),
        passphrase: Some("pp".to_string()),
        passphrase_stored: false,
    };
    let mut with_password = target_with(vec![rule("l", "r", SyncDirection::Push)]);
    with_password.auth = AuthMethod::password("pw".to_string());
    let empty = target_with(vec![]);
    let (persisted, updates) = persist_remote_targets(&vec![with_key, with_password, empty]);
    assert_eq!(persisted.len(), 3);
    assert!(matches!(&persisted[0].auth, PersistedAuth::SshKey { private_key, passphrase_stored: true } if private_key == "/k"));
    assert!(matches!(&updates[0], SecretUpdate::Store { slot: SecretSlot::KeyPassphrase(3), secret } if secret == "pp"));
    assert!(matches!(persisted[1].auth, PersistedAuth::Password { stored: true }));
    assert_eq!(persisted[1].rules.len(), 1);
    assert!(matches!(updates[2], SecretUpdate::Delete { slot: SecretSlot::Password(9) }));
    assert!(matches!(persisted[2].auth, PersistedAuth::Password { stored: false }));
}

#[test]
fn stored_targets_come_back_with_their_secret() {
    let stored = PersistedRemoteTarget {
        id: 4,
        name: "n".to_string(),
        host: "h".to_string(),
        username: "u".to_string(),
        base_path: "/b".to_string(),
        rules: vec![],
        auth: PersistedAuth::Password { stored: true },
    };
    assert_eq!(stored.secret_slot(), SecretSlot::Password(4));
    let target = stored.into_runtime(None);
    assert!(matches!(&target.auth, AuthMethod::Password { secret, stored: true } if secret.is_empty()));
    let keyed = PersistedRemoteTarget {
        id: 5,
        name: "n".to_string(),
        host: "h".to_string(),
        username: "u".to_string(),
        base_path: "/b".to_string(),
        rules: vec![],
        auth: PersistedAuth::SshKey { private_key: "/k".to_string(), passphrase_stored: true },
    };
    assert_eq!(keyed.secret_slot(), SecretSlot::KeyPassphrase(5));
    let target = keyed.into_runtime(Some("s".to_string()));
    assert_eq!(target.auth.secret(), Some("s"));
}

#[test]
fn changed_paths_map_to_targets() {
    let roots = watch_roots(&vec![
        WatchTarget { target_id: 1, roots: vec!["/a".to_string(), "/c/".to_string()] },
        WatchTarget { target_id: 2, roots: vec!["/a/b".to_string()] },
    ]);
    assert_eq!(roots.len(), 3);
    assert_eq!(match_target(&roots, "/a/b/file"), Some(1));
    assert_eq!(match_target(&roots, "/a"), Some(1));
    assert_eq!(match_target(&roots, "/ab/file"), None);
    assert_eq!(match_target(&roots, "/c/x"), Some(1));
    assert_eq!(match_target(&roots[2..].to_vec(), "/a/b/x"), Some(2));
}

#[test]
fn paths_join_and_split() {
    assert_eq!(join_paths("/srv/www", "apps/web"), "/srv/www/apps/web");
    assert_eq!(join_paths("/srv/www/", "apps"), "/srv/www/apps");
    assert_eq!(join_paths("", "apps"), "apps");
    assert_eq!(join_paths("/srv", "/abs"), "/abs");
    assert_eq!(parent_of("a/b/c.txt"), "a/b");
    assert_eq!(parent_of("c.txt"), "");
    assert_eq!(dir_prefixes("/srv/www/a"), vec!["/srv", "/srv/www", "/srv/www/a"]);
    assert_eq!(dir_prefixes("a//b/"), vec!["a", "a/b"]);
    assert_eq!(dir_prefixes("/a/./b"), vec!["/a", "/a/b"]);
    assert_eq!(dir_prefixes("./a/../b"), vec!["a", "a/b"]);
    assert!(dir_prefixes("/").is_empty());
}

#[test]
fn limiter_passes_within_allowance_and_waits_beyond_it() {
    let mut limiter = BandwidthLimiter::new(1000, 0);
    assert_eq!(limiter.consume(0, 400), 0);
    assert_eq!(limiter.consume(0, 600), 0);
    assert_eq!(limiter.consume(0, 250), 250_000_000);
    // 750 bytes remain after the deficit; half a second adds 500, capped at 1000.
    assert_eq!(limiter.consume(500_000_000, 1000), 0);
    assert_eq!(limiter.consume(500_000_000, 2000), 2_000_000_000);
    let mut unlimited = BandwidthLimiter::new(0, 0);
    assert_eq!(unlimited.consume(10, 1_000_000), 0);
}

#[test]
fn pool_size_and_progress_are_clamped() {
    assert_eq!(worker_count(Some(1)), 2);
    assert_eq!(worker_count(Some(3)), 3);
    assert_eq!(worker_count(Some(16)), 4);
    assert_eq!(worker_count(None), 2);
    assert!(matches!(progress_event::<()>(5, 0), TaskEvent::Progress { completed: 1, total: 1 }));
    assert!(matches!(progress_event::<()>(2, 3), TaskEvent::Progress { completed: 2, total: 3 }));
    let p = TaskProgress::new(TaskKind::Executing, 0, 0);
    assert_eq!(p.total, 1);
}

#[test]
fn model_helpers() {
    let targets = sample_remote_targets();
    assert_eq!(targets.len(), 2);
    assert_eq!(targets[0].summary(), "deploy@prod.example.com:22/srv/www");
    assert_eq!(targets[1].rules[0].direction, SyncDirection::Pull);
    assert_eq!(LogLevel::Warn.as_str(), "WARN");
    assert!(AuthMethod::password("x".to_string()).is_password());
    let key = AuthMethod::ssh_key("/id".to_string());
    assert!(!key.is_password());
    assert_eq!(key.secret(), None);
    let settings = AppSettings::default();
    assert_eq!(settings.bandwidth_mbps, 200);
    assert!(!settings.limit_bandwidth);
}

#[test]
fn rules_are_planned_against_resolved_roots_with_warnings() {
    let local = one_root("/src", &[("a.txt", b"a")]);
    let remote = InMemoryRemote::new();
    let target = target_with(vec![
        rule("/src", "site", SyncDirection::Push),
        rule("/elsewhere", "other", SyncDirection::Push),
    ]);
    let mut reports = ProgressLog::new();
    let result = plan_jobs_with_progress(&target, &local, &remote, &mut reports).unwrap();
    assert_eq!(result.jobs.len(), 1);
    assert_eq!(result.warnings.len(), 1);
    assert!(result.warnings[0].starts_with("Failed to plan rule /elsewhere for Box"));
    assert_eq!(result.jobs[0].rule.remote, "/base/site");
    assert_eq!(reports.reports, vec![(0, 2), (1, 2), (2, 2)]);

    let job: SyncJob = PlannedJob::into_sync_job(result.jobs.into_iter().next().unwrap(), 11);
    assert_eq!(job.id, 11);
    assert_eq!(job.plan.rule.remote, "/base/site");
    let session = job.to_session();
    assert_eq!(session.pending_actions, 1);
    assert_eq!(session.status, SyncStatus::AwaitingConfirmation);
}

#[test]
fn a_target_with_no_plannable_rule_fails() {
    let local = one_root("/src", &[]);
    let remote = InMemoryRemote::new();
    assert!(plan_jobs_for_target(&target_with(vec![]), &local, &remote).is_err());
    let bad = target_with(vec![rule("/nowhere", "x", SyncDirection::Pull)]);
    let err = plan_jobs_for_target(&bad, &local, &remote).err().unwrap();
    assert_eq!(err, "no sync plan could be generated for Box");
}

#[test]
fn execution_reports_progress_and_paces_transfers() {
    let local = one_root("/src", &[("big.bin", &[7u8; 300])]);
    let remote = InMemoryRemote::new();
    let rule = rule("/src", "/dst", SyncDirection::Push);
    let job = SyncJob::plan(1, 9, &rule, &local, &remote).unwrap();
    let mut reports = ProgressLog::new();
    let mut paused = PauseLog::new();
    let mut executor = SyncExecutor::new(local, remote, None);
    let summary: ExecutionSummary = execute_jobs_with_progress(
        &mut executor,
        &[job],
        Some(0),
        &mut reports,
        &mut paused,
    );
    assert_eq!(summary.applied, 1);
    assert_eq!(reports.reports, vec![(0, 1), (1, 1)]);
    assert!(paused.pauses.is_empty());

    let mut idle = SyncExecutor::new(one_root("/", &[]), InMemoryRemote::new(), None);
    let mut idle_reports = ProgressLog::new();
    let none = execute_jobs_with_progress(&mut idle, &[], None, &mut idle_reports, &mut PauseLog::new());
    assert_eq!(idle_reports.reports, vec![(1, 1)]);
    assert_eq!((none.applied, none.skipped, none.failures.len()), (0, 0, 0));
}

#[test]
fn memory_remote_reads_what_was_written() {
    let mut remote = InMemoryRemote::default();
    assert!(remote.read_file("/r", "x").is_err());
    remote.write_file("/r", "x", b"one").unwrap();
    remote.write_file("/r", "x", b"two").unwrap();
    remote.write_file("/q", "y", b"other root").unwrap();
    assert_eq!(remote.read_file("/r", "x").unwrap(), b"two");
    let listed = remote.list("/r").unwrap();
    assert_eq!(listed.len(), 1);
    assert_eq!(listed[0].path, "x");
    assert_eq!(listed[0].size, 3);
    remote.remove_file("/r", "x").unwrap();
    assert!(remote.read_file("/r", "x").is_err());
    let deleted = SyncAction::DeleteRemote { rel_path: "y".to_string() };
    assert_eq!(deleted.rel_path(), "y");
}

#[test]
fn execution_events_move_the_session_status() {
    let progress: TaskEvent<ExecutionSummary> = TaskEvent::Progress { completed: 2, total: 5 };
    assert_eq!(status_after(&progress), SyncStatus::Running { completed: 2, total: 5 });
    let done: TaskEvent<ExecutionSummary> = TaskEvent::Finished(Ok(ExecutionSummary::new()));
    assert_eq!(status_after(&done), SyncStatus::Completed);
    let failed: TaskEvent<ExecutionSummary> = TaskEvent::Finished(Err("boom".to_string()));
    assert_eq!(status_after(&failed), SyncStatus::Failed { reason: "boom".to_string() });
}

#[test]
fn summaries_total_the_logs_in_order() {
    let logs = vec![
        ExecutionLog { action: SyncAction::Upload { rel_path: "a".to_string(), size: 1 }, status: ActionStatus::Applied },
        ExecutionLog { action: SyncAction::Conflict { rel_path: "b".to_string() }, status: ActionStatus::SkippedConflict },
        ExecutionLog { action: SyncAction::DeleteRemote { rel_path: "c".to_string() }, status: ActionStatus::Failed("gone".to_string()) },
        ExecutionLog { action: SyncAction::Download { rel_path: "d".to_string(), size: 2 }, status: ActionStatus::Failed("denied".to_string()) },
    ];
    let s = summarize(&logs);
    assert_eq!((s.applied, s.skipped), (1, 1));
    let reasons: Vec<(String, String)> = s.failures.iter().map(|(a, r)| (a.rel_path().clone(), r.clone())).collect();
    assert_eq!(reasons, vec![("c".to_string(), "gone".to_string()), ("d".to_string(), "denied".to_string())]);
}

#[test]
fn plan_outcomes_are_collected_in_rule_order() {
    let local = one_root("/src", &[("a.txt", b"a")]);
    let remote = InMemoryRemote::new();
    let target = target_with(vec![
        rule("/missing", "x", SyncDirection::Push),
        rule("/src", "site", SyncDirection::Push),
    ]);
    let outcomes = vec![
        sftp_sync::jobs::plan_single_job(&target, &target.rules[0], &local, &remote),
        sftp_sync::jobs::plan_single_job(&target, &target.rules[1], &local, &remote),
    ];
    assert!(outcomes[0].is_err());
    let result = sftp_sync::jobs::collect_plans(&target, outcomes).unwrap();
    assert_eq!(result.jobs.len(), 1);
    assert_eq!(result.warnings, vec!["Failed to plan rule /missing for Box: no such directory /missing".to_string()]);
    let all_failed = sftp_sync::jobs::collect_plans(&target, vec![Err("e1".to_string()), Err("e2".to_string())]);
    assert_eq!(all_failed.err().unwrap(), "no sync plan could be generated for Box");
}

#[test]
fn transfers_beyond_the_limit_pause() {
    let local = one_root("/src", &[("a.bin", &[1u8; 200_000]), ("b.bin", &[2u8; 200_000])]);
    let remote = InMemoryRemote::new();
    let rule = rule("/src", "/dst", SyncDirection::Push);
    let job = SyncJob::plan(1, 9, &rule, &local, &remote).unwrap();
    let mut executor = SyncExecutor::new(local, remote, None);
    let mut reports = ProgressLog::new();
    let mut paused = PauseLog::new();
    // One megabit per second is 125 000 bytes per second: the first file overdraws
    // the full bucket by 75 000 bytes, the second by about 200 000 more.
    let summary = execute_jobs_with_progress(&mut executor, &[job], Some(1), &mut reports, &mut paused);
    assert_eq!(summary.applied, 2);
    assert_eq!(paused.pauses.len(), 2);
    assert!(paused.pauses[0] > 500_000_000 && paused.pauses[0] <= 600_000_000);
    assert!(paused.pauses[1] > 1_000_000_000);
}
