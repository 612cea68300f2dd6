use sftp_sync::entries::index_entries;
use sftp_sync::jobs::{PlanJobsResult, PlannedJob};
use sftp_sync::model::{AppSettings, AuthMethod, RemoteTarget, SyncDirection, SyncRule, SyncStatus, TaskKind, TaskProgress};
use sftp_sync::plan::{PlanStats, SyncAction};
use sftp_sync::state::AppState;

fn target(id: u64) -> RemoteTarget {
    RemoteTarget {
        id,
        name: format!("t{id}"),
        host: "h".to_string(),
        username: "u".to_string(),
        base_path: "/b".to_string(),
        rules: vec![],
        auth: AuthMethod::password(String::new()),
    }
}

fn planned(target_id: u64, actions: usize) -> PlannedJob {
    PlannedJob {
        target_id,
        rule: SyncRule { local: "/l".to_string(), remote: "/r".to_string(), direction: SyncDirection::Push },
        local_index: index_entries(vec![]),
        remote_index: index_entries(vec![]),
        actions: (0..actions).map(|i| SyncAction::Upload { rel_path: format!("f{i}"), size: 1 }).collect(),
        stats: PlanStats { uploads: actions, downloads: 0, deletes_remote: 0, deletes_local: 0, conflicts: 0 },
        created_at: 5,
    }
}

#[test]
fn new_state_falls_back_to_samples() {
    let state = AppState::new(AppSettings::default(), vec![]);
    assert_eq!(state.remote_targets.len(), 2);
    assert_eq!(state.active_target, Some(1));
    assert_eq!(state.logs.len(), 3);
    assert_eq!(state.next_target_id(), 3);
    let state = AppState::new(AppSettings::default(), vec![target(7), target(4)]);
    assert_eq!(state.active_target, Some(7));
    assert_eq!(state.next_target_id(), 8);
    let state = AppState::new(AppSettings::default(), vec![target(u64::MAX)]);
    assert_eq!(state.next_target_id(), u64::MAX);
}

#[test]
fn planned_jobs_replace_a_targets_jobs_with_fresh_sessions() {
    let mut state = AppState::new(AppSettings::default(), vec![target(1), target(2)]);
    state.apply_planned_jobs(1, PlanJobsResult { jobs: vec![planned(1, 2)], warnings: vec![] });
    state.apply_planned_jobs(2, PlanJobsResult { jobs: vec![planned(2, 0)], warnings: vec!["w".to_string()] });
    assert_eq!(state.jobs.len(), 2);
    assert_eq!(state.sessions[0].id, 1);
    assert_eq!(state.sessions[0].status, SyncStatus::AwaitingConfirmation);
    assert_eq!(state.sessions[0].pending_actions, 2);
    assert_eq!(state.sessions[1].id, 2);
    assert_eq!(state.sessions[1].status, SyncStatus::Idle);
    assert_eq!(state.logs.last().unwrap().message, "w");

    state.apply_planned_jobs(1, PlanJobsResult { jobs: vec![planned(1, 1), planned(1, 3)], warnings: vec![] });
    let ids: Vec<(u64, u64)> = state.jobs.iter().map(|j| (j.target_id, j.id)).collect();
    assert_eq!(ids, vec![(2, 2), (1, 3), (1, 4)]);
    assert_eq!(state.next_session_id(), 5);

    state.set_task_progress(2, TaskProgress::new(TaskKind::Executing, 1, 4));
    state.set_task_progress(2, TaskProgress::new(TaskKind::Executing, 2, 4));
    assert_eq!(state.task_progress(2).unwrap().completed, 2);
    state.drop_jobs_for_target(2);
    assert!(state.task_progress(2).is_none());
    assert_eq!(state.jobs.len(), 2);
    assert_eq!(state.sessions.len(), 2);
    assert!(state.sessions.iter().all(|s| s.target_id == 1));
}
