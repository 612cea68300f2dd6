//! The application's state: targets, planned jobs and the sessions they show as,
//! the transfer log and per-target task progress.

use vstd::prelude::*;
use crate::jobs::{PlanJobsResult, PlannedJob, SyncJob};
use crate::clock::current_time_ns;
use crate::model::{
    sample_remote_targets, ActiveView, AppSettings, ConnectionTestState, LogLevel, RemoteTarget, SessionId,
    SyncSession, SyncStatus, TargetFormMode, TargetId, TaskProgress, TransferLog,
};

verus! {

/// `s` is the session of `job`.
pub open spec fn shows(s: SyncSession, job: SyncJob) -> bool {
    &&& s.id == job.id
    &&& s.target_id == job.target_id
    &&& s.last_run == Some(job.created_at)
    &&& s.pending_actions == job.plan.actions@.len()
    &&& s.status == if job.plan.actions@.len() == 0 { SyncStatus::Idle } else { SyncStatus::AwaitingConfirmation }
}

/// The jobs of `jobs` that belong to other targets than `target_id`, in order.
pub open spec fn jobs_except(jobs: Seq<SyncJob>, target_id: TargetId) -> Seq<SyncJob>
    decreases jobs.len(),
{
    if jobs.len() == 0 {
        Seq::empty()
    } else {
        jobs_except(jobs.drop_last(), target_id) + if jobs.last().target_id != target_id {
            seq![jobs.last()]
        } else {
            Seq::empty()
        }
    }
}

/// `job` is `planned` bound to session `id`.
pub open spec fn binds(job: SyncJob, planned: PlannedJob, id: SessionId) -> bool {
    &&& job.id == id
    &&& job.target_id == planned.target_id
    &&& job.rule == planned.rule
    &&& job.plan.rule == planned.rule
    &&& job.plan.actions == planned.actions
    &&& job.plan.stats == planned.stats
    &&& job.created_at == planned.created_at
}

/// The session identifier handed out `k` steps after `counter`, saturating.
pub open spec fn id_after(counter: SessionId, k: int) -> SessionId {
    if counter + k >= u64::MAX { u64::MAX } else { (counter + k) as u64 }
}

/// The task progress by target; where a target is listed twice, the later one counts.
pub open spec fn progress_map(s: Seq<(TargetId, TaskProgress)>) -> Map<TargetId, TaskProgress>
    decreases s.len(),
{
    if s.len() == 0 {
        Map::empty()
    } else {
        progress_map(s.drop_last()).insert(s.last().0, s.last().1)
    }
}

pub struct AppState {
    pub remote_targets: Vec<RemoteTarget>,
    pub sessions: Vec<SyncSession>,
    pub logs: Vec<TransferLog>,
    pub settings: AppSettings,
    pub active_target: Option<TargetId>,
    pub active_view: ActiveView,
    pub target_form: Option<TargetFormMode>,
    pub connection_tests: Vec<(TargetId, ConnectionTestState)>,
    pub jobs: Vec<SyncJob>,
    /// The identifier the next session will get.
    pub next_session_id: SessionId,
    /// Task progress by target; a later entry for a target replaces an earlier one.
    pub task_progress: Vec<(TargetId, TaskProgress)>,
    pub bootstrap_pending: bool,
}

/// The largest id of the targets, or zero where there are none.
pub open spec fn max_id(s: Seq<RemoteTarget>) -> u64
    decreases s.len(),
{
    if s.len() == 0 {
        0
    } else if s.last().id > max_id(s.drop_last()) {
        s.last().id
    } else {
        max_id(s.drop_last())
    }
}

/// `n` seconds before `now`, or the epoch where `now` is earlier.
fn seconds_before(now: u64, n: u64) -> (r: u64)
    requires
        n <= 1000,
    ensures
        r == if now >= n * 1_000_000_000 { now - n * 1_000_000_000 } else { 0 },
{
    let d = n * 1_000_000_000;
    if now >= d { now - d } else { 0 }
}

impl AppState {
    /// The task progress recorded for each target.
    pub open spec fn progress(&self) -> Map<TargetId, TaskProgress> {
        progress_map(self.task_progress@)
    }

    /// The identifier the next session will get.
    pub open spec fn session_counter(&self) -> SessionId {
        self.next_session_id
    }

    /// A state over `remote_targets`, or over the sample targets where none is given,
    /// with the first target active, no jobs, and a few entries in the log.
    pub fn new(settings: AppSettings, remote_targets: Vec<RemoteTarget>) -> (r: Self)
        ensures
            remote_targets@.len() > 0 ==> r.remote_targets@ == remote_targets@,
            remote_targets@.len() == 0 ==> r.remote_targets@.len() == 2,
            r.active_target == Some(r.remote_targets@[0].id),
            r.settings == settings,
            r.logs@.len() == 3,
            r.jobs@.len() == 0,
            r.sessions@.len() == 0,
            r.session_counter() == 1,
            r.progress() == Map::<TargetId, TaskProgress>::empty(),
            r.bootstrap_pending,
            r.active_view == ActiveView::Dashboard,
            r.target_form is None,
    {
        let remote_targets = if remote_targets.len() == 0 { sample_remote_targets() } else { remote_targets };
        let now = current_time_ns();
        let logs = vec![
            TransferLog {
                timestamp: seconds_before(now, 45),
                level: LogLevel::Info,
                message: String::from_str("Staged 5 uploads for Production"),
            },
            TransferLog {
                timestamp: seconds_before(now, 120),
                level: LogLevel::Info,
                message: String::from_str("Detected drift on Analytics/datasets"),
            },
            TransferLog {
                timestamp: seconds_before(now, 600),
                level: LogLevel::Info,
                message: String::from_str("Completed sync session #998"),
            },
        ];
        let active_target = Some(remote_targets[0].id);
        AppState {
            remote_targets,
            sessions: Vec::new(),
            logs,
            settings,
            active_target,
            active_view: ActiveView::Dashboard,
            target_form: None,
            connection_tests: Vec::new(),
            jobs: Vec::new(),
            next_session_id: 1,
            task_progress: Vec::new(),
            bootstrap_pending: true,
        }
    }

    /// One more than the largest target id, saturating; one where there are no targets.
    pub fn next_target_id(&self) -> (r: TargetId)
        ensures
            r == if max_id(self.remote_targets@) == u64::MAX { u64::MAX } else { (max_id(self.remote_targets@) + 1) as u64 },
    {
        let ghost s = self.remote_targets@;
        let mut max: u64 = 0;
        let mut i: usize = 0;
        proof {
            assert(s.take(0) =~= Seq::<RemoteTarget>::empty());
        }
        while i < self.remote_targets.len()
            invariant
                i <= s.len(),
                s == self.remote_targets@,
                max == max_id(s.take(i as int)),
            decreases s.len() - i,
        {
            proof {
                assert(s.take(i + 1).drop_last() =~= s.take(i as int));
            }
            if self.remote_targets[i].id > max {
                max = self.remote_targets[i].id;
            }
            i = i + 1;
        }
        proof {
            assert(s.take(s.len() as int) =~= s);
        }
        if max == u64::MAX { u64::MAX } else { max + 1 }
    }

    /// Hands out a session identifier and advances the counter, saturating.
    pub fn next_session_id(&mut self) -> (r: SessionId)
        ensures
            r == old(self).session_counter(),
            final(self).session_counter() == if r == u64::MAX { u64::MAX } else { (r + 1) as u64 },
            final(self).jobs == old(self).jobs,
            final(self).sessions == old(self).sessions,
            final(self).logs == old(self).logs,
            final(self).progress() == old(self).progress(),
    {
        let id = self.next_session_id;
        self.next_session_id = if id == u64::MAX { u64::MAX } else { id + 1 };
        id
    }

    /// Appends an entry, stamped with the current time, to the transfer log.
    pub fn log_event(&mut self, level: LogLevel, message: String)
        ensures
            final(self).logs@.len() == old(self).logs@.len() + 1,
            final(self).logs@.drop_last() == old(self).logs@,
            final(self).logs@.last().level == level,
            final(self).logs@.last().message == message,
            final(self).jobs == old(self).jobs,
            final(self).sessions == old(self).sessions,
            final(self).session_counter() == old(self).session_counter(),
            final(self).progress() == old(self).progress(),
    {
        let ghost before = self.logs@;
        self.logs.push(TransferLog { timestamp: current_time_ns(), level, message });
        assert(self.logs@.drop_last() =~= before);
    }

    /// Drops the jobs of `target_id`.
    fn retain_other_jobs(&mut self, target_id: TargetId)
        ensures
            final(self).jobs@ == jobs_except(old(self).jobs@, target_id),
            final(self).sessions == old(self).sessions,
            final(self).logs == old(self).logs,
            final(self).session_counter() == old(self).session_counter(),
            final(self).progress() == old(self).progress(),
    {
        let ghost s = self.jobs@;
        let mut rest: Vec<SyncJob> = Vec::new();
        std::mem::swap(&mut rest, &mut self.jobs);
        let mut kept: Vec<SyncJob> = Vec::new();
        let ghost mut k: int = 0;
        proof {
            assert(s.take(0) =~= Seq::<SyncJob>::empty());
            assert(rest@ =~= s.skip(0));
        }
        while rest.len() > 0
            invariant
                0 <= k <= s.len(),
                rest@ == s.skip(k),
                kept@ == jobs_except(s.take(k), target_id),
            decreases rest@.len(),
        {
            let job = rest.remove(0);
            proof {
                assert(job == s[k]);
                assert(s.take(k + 1).drop_last() =~= s.take(k));
                assert(s.take(k + 1).last() == s[k]);
            }
            let ghost before = kept@;
            if job.target_id != target_id {
                kept.push(job);
                assert(kept@ =~= before + seq![s[k]]);
            } else {
                assert(kept@ =~= before + Seq::<SyncJob>::empty());
            }
            proof {
                assert(rest@ =~= s.skip(k + 1));
                k = k + 1;
            }
        }
        proof {
            assert(s.take(k) =~= s);
        }
        self.jobs = kept;
    }

    /// Rebuilds the sessions from the jobs.
    fn refresh_sessions(&mut self)
        ensures
            final(self).jobs == old(self).jobs,
            final(self).sessions@.len() == old(self).jobs@.len(),
            forall|i: int| 0 <= i < final(self).jobs@.len() ==> shows(#[trigger] final(self).sessions@[i], final(self).jobs@[i]),
            final(self).logs == old(self).logs,
            final(self).session_counter() == old(self).session_counter(),
            final(self).progress() == old(self).progress(),
    {
        let mut sessions: Vec<SyncSession> = Vec::new();
        let mut i: usize = 0;
        while i < self.jobs.len()
            invariant
                i <= self.jobs@.len(),
                sessions@.len() == i,
                forall|k: int| 0 <= k < i ==> shows(#[trigger] sessions@[k], self.jobs@[k]),
            decreases self.jobs@.len() - i,
        {
            let ghost before = sessions@;
            sessions.push(self.jobs[i].to_session());
            assert(forall|k: int| 0 <= k < i ==> sessions@[k] == before[k]);
            i = i + 1;
        }
        self.sessions = sessions;
    }

    /// Replaces the jobs of `target_id` with the newly planned ones, each bound to a
    /// fresh session, logs the planning warnings, and rebuilds the sessions.
    pub fn apply_planned_jobs(&mut self, target_id: TargetId, result: PlanJobsResult)
        ensures
            final(self).jobs@.len() == jobs_except(old(self).jobs@, target_id).len() + result.jobs@.len(),
            final(self).jobs@.take(jobs_except(old(self).jobs@, target_id).len() as int) == jobs_except(old(self).jobs@, target_id),
            forall|k: int| 0 <= k < result.jobs@.len() ==> binds(
                #[trigger] final(self).jobs@[jobs_except(old(self).jobs@, target_id).len() + k],
                result.jobs@[k],
                id_after(old(self).session_counter(), k),
            ),
            final(self).session_counter() == id_after(old(self).session_counter(), result.jobs@.len() as int),
            final(self).sessions@.len() == final(self).jobs@.len(),
            forall|i: int| 0 <= i < final(self).jobs@.len() ==> shows(#[trigger] final(self).sessions@[i], final(self).jobs@[i]),
            final(self).logs@.len() == old(self).logs@.len() + result.warnings@.len(),
            final(self).logs@.take(old(self).logs@.len() as int) == old(self).logs@,
            forall|k: int| 0 <= k < result.warnings@.len() ==> {
                let entry = #[trigger] final(self).logs@[old(self).logs@.len() + k];
                entry.level == LogLevel::Warn && entry.message == result.warnings@[k]
            },
            final(self).progress() == old(self).progress(),
    {
        self.retain_other_jobs(target_id);
        let PlanJobsResult { jobs, warnings } = result;
        let ghost base = self.jobs@;
        let ghost old_logs = self.logs@;
        let ghost ws = warnings@;
        let ghost c0 = self.next_session_id;
        let ghost tp0 = self.task_progress@;
        let mut warnings = warnings;
        let ghost mut w: int = 0;
        proof {
            assert(warnings@ =~= ws.skip(0));
            assert(self.logs@.take(old_logs.len() as int) =~= old_logs);
        }
        while warnings.len() > 0
            invariant
                0 <= w <= ws.len(),
                warnings@ == ws.skip(w),
                self.jobs@ == base,
                self.next_session_id == c0,
                self.progress() == progress_map(tp0),
                self.logs@.len() == old_logs.len() + w,
                self.logs@.take(old_logs.len() as int) == old_logs,
                forall|k: int| 0 <= k < w ==> {
                    let entry = #[trigger] self.logs@[old_logs.len() + k];
                    entry.level == LogLevel::Warn && entry.message == ws[k]
                },
            decreases warnings@.len(),
        {
            let warning = warnings.remove(0);
            let ghost before = self.logs@;
            self.log_event(LogLevel::Warn, warning);
            proof {
                assert(warning == ws[w]);
                assert(forall|k: int| 0 <= k < before.len() ==> self.logs@[k] == before[k]);
                assert(self.logs@[old_logs.len() + w] == self.logs@.last());
                assert forall|k: int| 0 <= k < w + 1 implies {
                    let entry = #[trigger] self.logs@[old_logs.len() + k];
                    entry.level == LogLevel::Warn && entry.message == ws[k]
                } by {
                    if k < w {
                        assert(self.logs@[old_logs.len() + k] == before[old_logs.len() + k]);
                    }
                }
                assert(self.logs@.take(old_logs.len() as int) =~= old_logs);
                assert(warnings@ =~= ws.skip(w + 1));
                w = w + 1;
            }
        }
        let ghost ps = jobs@;
        let ghost counter = self.next_session_id;
        let mut jobs = jobs;
        let ghost mut k: int = 0;
        proof {
            assert(jobs@ =~= ps.skip(0));
            assert(self.jobs@.take(base.len() as int) =~= base);
        }
        while jobs.len() > 0
            invariant
                0 <= k <= ps.len(),
                jobs@ == ps.skip(k),
                self.jobs@.len() == base.len() + k,
                self.jobs@.take(base.len() as int) == base,
                forall|m: int| 0 <= m < k ==> binds(#[trigger] self.jobs@[base.len() + m], ps[m], id_after(counter, m)),
                self.next_session_id == id_after(counter, k),
                counter == c0,
                self.progress() == progress_map(tp0),
                self.logs@.len() == old_logs.len() + ws.len(),
                self.logs@.take(old_logs.len() as int) == old_logs,
                forall|m: int| 0 <= m < ws.len() ==> {
                    let entry = #[trigger] self.logs@[old_logs.len() + m];
                    entry.level == LogLevel::Warn && entry.message == ws[m]
                },
            decreases jobs@.len(),
        {
            let planned = jobs.remove(0);
            let id = self.next_session_id();
            assert(self.next_session_id == id_after(counter, k + 1));
            let ghost before = self.jobs@;
            self.jobs.push(planned.into_sync_job(id));
            proof {
                assert(planned == ps[k]);
                assert(forall|m: int| 0 <= m < before.len() ==> self.jobs@[m] == before[m]);
                assert(self.jobs@.take(base.len() as int) =~= base);
                assert(jobs@ =~= ps.skip(k + 1));
                k = k + 1;
            }
        }
        proof {
            assert(ps.len() == k);
        }
        self.refresh_sessions();
    }

    /// Records the progress of the task running for `target_id`.
    pub fn set_task_progress(&mut self, target_id: TargetId, progress: TaskProgress)
        ensures
            final(self).progress() == old(self).progress().insert(target_id, progress),
            final(self).jobs == old(self).jobs,
            final(self).sessions == old(self).sessions,
    {
        let ghost before = self.task_progress@;
        self.task_progress.push((target_id, progress));
        assert(self.task_progress@.drop_last() =~= before);
    }

    /// Forgets the progress recorded for `target_id`.
    pub fn clear_task_progress(&mut self, target_id: TargetId)
        ensures
            final(self).progress() == old(self).progress().remove(target_id),
            final(self).jobs == old(self).jobs,
            final(self).sessions == old(self).sessions,
            final(self).logs == old(self).logs,
            final(self).session_counter() == old(self).session_counter(),
    {
        let ghost s = self.task_progress@;
        let mut out: Vec<(TargetId, TaskProgress)> = Vec::new();
        let mut i: usize = 0;
        proof {
            assert(s.take(0) =~= Seq::<(TargetId, TaskProgress)>::empty());
            assert(progress_map(out@) =~= progress_map(s.take(0)).remove(target_id));
        }
        while i < self.task_progress.len()
            invariant
                i <= s.len(),
                s == self.task_progress@,
                progress_map(out@) == progress_map(s.take(i as int)).remove(target_id),
            decreases s.len() - i,
        {
            let entry = self.task_progress[i];
            let ghost before = out@;
            proof {
                assert(s.take(i + 1).drop_last() =~= s.take(i as int));
            }
            if entry.0 != target_id {
                out.push(entry);
                assert(out@.drop_last() =~= before);
            }
            assert(progress_map(out@) =~= progress_map(s.take(i + 1)).remove(target_id));
            i = i + 1;
        }
        proof {
            assert(s.take(s.len() as int) =~= s);
        }
        self.task_progress = out;
    }

    /// The progress recorded for `target_id`.
    pub fn task_progress(&self, target_id: TargetId) -> (r: Option<TaskProgress>)
        ensures
            match r {
                Some(p) => self.progress().contains_key(target_id) && self.progress()[target_id] == p,
                None => !self.progress().contains_key(target_id),
            },
    {
        let ghost s = self.task_progress@;
        let mut i: usize = self.task_progress.len();
        proof {
            assert(s.take(i as int) =~= s);
        }
        while i > 0
            invariant
                i <= s.len(),
                s == self.task_progress@,
                progress_map(s).contains_key(target_id) == progress_map(s.take(i as int)).contains_key(target_id),
                progress_map(s).contains_key(target_id) ==> progress_map(s)[target_id] == progress_map(s.take(i as int))[target_id],
            decreases i,
        {
            proof {
                assert(s.take(i as int).drop_last() =~= s.take(i - 1));
            }
            if self.task_progress[i - 1].0 == target_id {
                return Some(self.task_progress[i - 1].1);
            }
            i = i - 1;
        }
        proof {
            assert(s.take(0) =~= Seq::<(TargetId, TaskProgress)>::empty());
        }
        None
    }

    /// Drops the jobs and the progress of `target_id`, and rebuilds the sessions.
    pub fn drop_jobs_for_target(&mut self, target_id: TargetId)
        ensures
            final(self).jobs@ == jobs_except(old(self).jobs@, target_id),
            final(self).sessions@.len() == final(self).jobs@.len(),
            forall|i: int| 0 <= i < final(self).jobs@.len() ==> shows(#[trigger] final(self).sessions@[i], final(self).jobs@[i]),
            final(self).progress() == old(self).progress().remove(target_id),
    {
        self.retain_other_jobs(target_id);
        self.clear_task_progress(target_id);
        self.refresh_sessions();
    }
}

impl Default for AppState {
    fn default() -> (r: Self)
        ensures
            r.remote_targets@.len() == 2,
            r.jobs@.len() == 0,
    {
        AppState::new(AppSettings::default(), sample_remote_targets())
    }
}

} // verus!
