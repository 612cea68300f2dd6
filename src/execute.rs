//! Applying a plan's actions to the two stores, one outcome per action.

use vstd::prelude::*;
use crate::jobs::{SyncJob, SyncPlan};
use crate::limiter::{BandwidthLimiter, Pause, PauseLog};
use crate::clock::current_time_ns;
use crate::model::SyncRule;
use crate::paths::{is_relative_path, join_path, lemma_join_injective, parent_of, parent_path};
use crate::plan::{actions_view, ActionView, SyncAction};
use crate::memory::InMemoryRemote;
use crate::progress::{counted_reports, lemma_counted_push, shown_total, ProgressLog, ProgressSink};
use crate::store::{LocalStore, RemoteStore};

verus! {

/// The two stores' files, local first.
pub type Files = (Map<Seq<char>, Seq<u8>>, Map<Seq<char>, Seq<u8>>);

/// What applying one action that succeeds does to the stores.
pub open spec fn apply_action(rule: SyncRule, a: ActionView, st: Files) -> Files {
    let lk = join_path(rule.local@, a.path());
    let rk = join_path(rule.remote@, a.path());
    match a {
        ActionView::Upload { .. } => (st.0, st.1.insert(rk, st.0[lk])),
        ActionView::Download { .. } => (st.0.insert(lk, st.1[rk]), st.1),
        ActionView::DeleteRemote { .. } => (st.0, st.1.remove(rk)),
        ActionView::DeleteLocal { .. } => (st.0.remove(lk), st.1),
        ActionView::Conflict { .. } => st,
    }
}

/// The side an action copies from holds the file.
pub open spec fn source_present(rule: SyncRule, a: ActionView, st: Files) -> bool {
    match a {
        ActionView::Upload { .. } => st.0.contains_key(join_path(rule.local@, a.path())),
        ActionView::Download { .. } => st.1.contains_key(join_path(rule.remote@, a.path())),
        _ => true,
    }
}

/// What applying actions in order, each succeeding, does to the stores.
pub open spec fn apply_actions(rule: SyncRule, s: Seq<ActionView>, st: Files) -> Files
    decreases s.len(),
{
    if s.len() == 0 {
        st
    } else {
        apply_action(rule, s.last(), apply_actions(rule, s.drop_last(), st))
    }
}

/// Each action, when its turn came, found its source.
pub open spec fn sources_present(rule: SyncRule, s: Seq<ActionView>, st: Files) -> bool
    decreases s.len(),
{
    if s.len() == 0 {
        true
    } else {
        sources_present(rule, s.drop_last(), st) && source_present(rule, s.last(), apply_actions(rule, s.drop_last(), st))
    }
}

/// Uploads that all succeed leave, at each uploaded path, a remote file byte for byte
/// equal to the local one, and the local side unchanged.
pub proof fn lemma_uploads_mirror_local(rule: SyncRule, s: Seq<ActionView>, st: Files)
    requires
        forall|i: int| 0 <= i < s.len() ==> (#[trigger] s[i]) is Upload && is_relative_path(s[i].path()),
        sources_present(rule, s, st),
    ensures
        apply_actions(rule, s, st).0 == st.0,
        forall|i: int| 0 <= i < s.len() ==> {
            let lk = join_path(rule.local@, (#[trigger] s[i]).path());
            let rk = join_path(rule.remote@, s[i].path());
            &&& st.0.contains_key(lk)
            &&& apply_actions(rule, s, st).1.contains_key(rk)
            &&& apply_actions(rule, s, st).1[rk] == st.0[lk]
        },
    decreases s.len(),
{
    if s.len() > 0 {
        let t = s.drop_last();
        assert forall|i: int| 0 <= i < t.len() implies (#[trigger] t[i]) is Upload && is_relative_path(t[i].path()) by {
            assert(t[i] == s[i]);
        }
        lemma_uploads_mirror_local(rule, t, st);
        let q = s.last();
        let prev = apply_actions(rule, t, st);
        assert forall|i: int| 0 <= i < s.len() implies {
            let lk = join_path(rule.local@, (#[trigger] s[i]).path());
            let rk = join_path(rule.remote@, s[i].path());
            &&& st.0.contains_key(lk)
            &&& apply_actions(rule, s, st).1.contains_key(rk)
            &&& apply_actions(rule, s, st).1[rk] == st.0[lk]
        } by {
            if i < s.len() - 1 {
                assert(t[i] == s[i]);
                if join_path(rule.remote@, s[i].path()) == join_path(rule.remote@, q.path()) {
                    lemma_join_injective(rule.remote@, s[i].path(), q.path());
                }
            }
        }
    }
}

/// The mathematical value of an [`ActionStatus`].
pub enum Outcome {
    Applied,
    Skipped,
    Failed(Seq<char>),
}

/// `Failed` with `e` where there is an error, else `next`.
pub open spec fn unless_error(e: Option<Seq<char>>, next: Outcome) -> Outcome {
    match e {
        Some(m) => Outcome::Failed(m),
        None => next,
    }
}

/// The outcome of applying `a` to stores in states `l` and `r`: each step in turn
/// (read the source, ensure the destination's directory, write; or remove), the
/// first error failing the action; conflicts are skipped.
pub open spec fn action_outcome<L: LocalStore, R: RemoteStore>(rule: SyncRule, a: ActionView, l: L, r: R) -> Outcome {
    let lk = join_path(rule.local@, a.path());
    let rk = join_path(rule.remote@, a.path());
    let ld = join_path(rule.local@, parent_path(a.path()));
    let rd = join_path(rule.remote@, parent_path(a.path()));
    match a {
        ActionView::Upload { .. } => unless_error(
            l.read_error(lk),
            unless_error(r.dir_error(rd), unless_error(r.write_error(rk), Outcome::Applied)),
        ),
        ActionView::Download { .. } => unless_error(
            r.read_error(rk),
            unless_error(l.dir_error(ld), unless_error(l.write_error(lk), Outcome::Applied)),
        ),
        ActionView::DeleteRemote { .. } => unless_error(r.remove_error(rk), Outcome::Applied),
        ActionView::DeleteLocal { .. } => unless_error(l.remove_error(lk), Outcome::Applied),
        ActionView::Conflict { .. } => Outcome::Skipped,
    }
}

/// Applying `a` took the stores from `(l0, r0)` to `(l1, r1)` with outcome `out`:
/// the outcome the steps give; on success the files change as [`apply_action`] says;
/// a skipped action touches nothing, and a store an action does not write to is left
/// as it was.
pub open spec fn step_holds<L: LocalStore, R: RemoteStore>(
    rule: SyncRule,
    a: ActionView,
    l0: L,
    r0: R,
    out: Outcome,
    l1: L,
    r1: R,
) -> bool {
    &&& out == action_outcome(rule, a, l0, r0)
    &&& out is Applied ==> (l1.files(), r1.files()) == apply_action(rule, a, (l0.files(), r0.files()))
        && source_present(rule, a, (l0.files(), r0.files()))
    &&& out is Skipped ==> l1 == l0 && r1 == r0
    &&& (a is Upload || a is DeleteRemote) ==> l1 == l0
    &&& (a is Download || a is DeleteLocal) ==> r1 == r0
}

/// Applying the rule-and-action steps in order went through the store states `ls`
/// and `rs`, with outcomes `outs`.
pub open spec fn run_holds<L: LocalStore, R: RemoteStore>(
    steps: Seq<(SyncRule, ActionView)>,
    ls: Seq<L>,
    rs: Seq<R>,
    outs: Seq<Outcome>,
) -> bool {
    &&& ls.len() == steps.len() + 1
    &&& rs.len() == steps.len() + 1
    &&& outs.len() == steps.len()
    &&& forall|i: int| 0 <= i < steps.len() ==> step_holds(steps[i].0, steps[i].1, ls[i], rs[i], #[trigger] outs[i], ls[i + 1], rs[i + 1])
}

/// The steps of a plan: each action under the plan's rule.
pub open spec fn plan_steps(rule: SyncRule, actions: Seq<ActionView>) -> Seq<(SyncRule, ActionView)> {
    actions.map_values(|a: ActionView| (rule, a))
}

/// Two runs, the second starting where the first ended, make one run.
pub proof fn lemma_run_concat<L: LocalStore, R: RemoteStore>(
    s1: Seq<(SyncRule, ActionView)>,
    ls1: Seq<L>,
    rs1: Seq<R>,
    o1: Seq<Outcome>,
    s2: Seq<(SyncRule, ActionView)>,
    ls2: Seq<L>,
    rs2: Seq<R>,
    o2: Seq<Outcome>,
)
    requires
        run_holds(s1, ls1, rs1, o1),
        run_holds(s2, ls2, rs2, o2),
        ls1.last() == ls2[0],
        rs1.last() == rs2[0],
    ensures
        run_holds(s1 + s2, ls1 + ls2.skip(1), rs1 + rs2.skip(1), o1 + o2),
        (ls1 + ls2.skip(1))[0] == ls1[0],
        (rs1 + rs2.skip(1))[0] == rs1[0],
        (ls1 + ls2.skip(1)).last() == ls2.last(),
        (rs1 + rs2.skip(1)).last() == rs2.last(),
{
    let s = s1 + s2;
    let ls = ls1 + ls2.skip(1);
    let rs = rs1 + rs2.skip(1);
    let o = o1 + o2;
    assert forall|i: int| 0 <= i < s.len() implies step_holds(s[i].0, s[i].1, ls[i], rs[i], #[trigger] o[i], ls[i + 1], rs[i + 1]) by {
        if i < s1.len() {
            assert(o[i] == o1[i]);
            assert(s[i] == s1[i]);
            assert(ls[i] == ls1[i]);
            assert(rs[i] == rs1[i]);
            if i + 1 < ls1.len() {
                assert(ls[i + 1] == ls1[i + 1]);
                assert(rs[i + 1] == rs1[i + 1]);
            } else {
                assert(ls[i + 1] == ls2[0]);
                assert(rs[i + 1] == rs2[0]);
            }
        } else {
            let j = i - s1.len();
            assert(o[i] == o2[j]);
            assert(s[i] == s2[j]);
            assert(ls[i] == ls2[j]);
            assert(rs[i] == rs2[j]);
            assert(ls[i + 1] == ls2[j + 1]);
            assert(rs[i + 1] == rs2[j + 1]);
        }
    }
}

/// Uploads to an in-memory remote, from a local store that reads each source,
/// leave the local side unchanged, are applied one after the other, and the files
/// reached after `k` of them are those that applying the first `k` gives.
proof fn lemma_upload_prefix<L: LocalStore>(
    rule: SyncRule,
    acts: Seq<ActionView>,
    ls: Seq<L>,
    rs: Seq<InMemoryRemote>,
    outs: Seq<Outcome>,
    k: int,
)
    requires
        run_holds(plan_steps(rule, acts), ls, rs, outs),
        forall|i: int| 0 <= i < acts.len() ==> (#[trigger] acts[i]) is Upload
            && ls[0].read_error(join_path(rule.local@, acts[i].path())) is None,
        0 <= k <= acts.len(),
    ensures
        ls[k] == ls[0],
        forall|i: int| 0 <= i < k ==> #[trigger] outs[i] is Applied,
        (ls[k].files(), rs[k].files()) == apply_actions(rule, acts.take(k), (ls[0].files(), rs[0].files())),
        sources_present(rule, acts.take(k), (ls[0].files(), rs[0].files())),
    decreases k,
{
    let st0 = (ls[0].files(), rs[0].files());
    if k == 0 {
        assert(acts.take(0) =~= Seq::<ActionView>::empty());
    } else {
        lemma_upload_prefix(rule, acts, ls, rs, outs, k - 1);
        let i = k - 1;
        assert(plan_steps(rule, acts)[i] == (rule, acts[i]));
        assert(step_holds(rule, acts[i], ls[i], rs[i], outs[i], ls[i + 1], rs[i + 1]));
        assert(acts[i] is Upload);
        assert(outs[i] is Applied);
        assert(acts.take(k).drop_last() =~= acts.take(k - 1));
        assert(acts.take(k).last() == acts[i]);
    }
}

/// Uploads to an in-memory remote, from a local store that reads each source, are
/// all applied, and leave at each uploaded path a remote file byte for byte equal to
/// the local one.
pub proof fn lemma_uploads_to_memory_remote<L: LocalStore>(
    rule: SyncRule,
    acts: Seq<ActionView>,
    ls: Seq<L>,
    rs: Seq<InMemoryRemote>,
    outs: Seq<Outcome>,
)
    requires
        run_holds(plan_steps(rule, acts), ls, rs, outs),
        forall|i: int| 0 <= i < acts.len() ==> (#[trigger] acts[i]) is Upload && is_relative_path(acts[i].path())
            && ls[0].read_error(join_path(rule.local@, acts[i].path())) is None,
    ensures
        forall|i: int| 0 <= i < acts.len() ==> #[trigger] outs[i] is Applied,
        forall|i: int| 0 <= i < acts.len() ==> {
            let lk = join_path(rule.local@, (#[trigger] acts[i]).path());
            let rk = join_path(rule.remote@, acts[i].path());
            &&& ls[0].files().contains_key(lk)
            &&& rs.last().files().contains_key(rk)
            &&& rs.last().files()[rk] == ls[0].files()[lk]
        },
{
    let n = acts.len() as int;
    lemma_upload_prefix(rule, acts, ls, rs, outs, n);
    assert(acts.take(n) =~= acts);
    lemma_uploads_mirror_local(rule, acts, (ls[0].files(), rs[0].files()));
}

/// The bytes an action moves, where its source was read and the destination's
/// directory ensured: the length of the source file.
pub open spec fn transfer_len<L: LocalStore, R: RemoteStore>(rule: SyncRule, a: ActionView, l: L, r: R) -> Option<nat> {
    let lk = join_path(rule.local@, a.path());
    let rk = join_path(rule.remote@, a.path());
    let ld = join_path(rule.local@, parent_path(a.path()));
    let rd = join_path(rule.remote@, parent_path(a.path()));
    match a {
        ActionView::Upload { .. } => if l.read_error(lk) is None && r.dir_error(rd) is None {
            Some(l.files()[lk].len())
        } else {
            None
        },
        ActionView::Download { .. } => if r.read_error(rk) is None && l.dir_error(ld) is None {
            Some(r.files()[rk].len())
        } else {
            None
        },
        _ => None,
    }
}

/// The limiter went from `l0` to `l1` and the waits from `p0` to `p1` for a transfer
/// of `t` bytes: with no transfer, or no limiter, nothing changed; else the bytes were
/// spent, and the pause the limiter returned for them, if any, was waited.
pub open spec fn paced_step(l0: Option<BandwidthLimiter>, l1: Option<BandwidthLimiter>, p0: Seq<u64>, p1: Seq<u64>, t: Option<nat>) -> bool {
    match (t, l0) {
        (Some(n), Some(a)) => {
            let d = l1->Some_0.history().last().1;
            &&& l1 is Some
            &&& l1->Some_0.limit() == a.limit()
            &&& l1->Some_0.inv()
            &&& l1->Some_0.history() == a.history().push((n as u64, d))
            &&& p1 == p0 + if d > 0 { seq![d] } else { Seq::empty() }
        },
        _ => l1 == l0 && p1 == p0,
    }
}

/// The limiter states and waits of a run through the store states `ls`, `rs`.
pub open spec fn paced_run<L: LocalStore, R: RemoteStore>(
    steps: Seq<(SyncRule, ActionView)>,
    ls: Seq<L>,
    rs: Seq<R>,
    lims: Seq<Option<BandwidthLimiter>>,
    ps: Seq<Seq<u64>>,
) -> bool {
    &&& lims.len() == steps.len() + 1
    &&& ps.len() == steps.len() + 1
    &&& forall|i: int| 0 <= i < steps.len() ==> #[trigger] paced_step(lims[i], lims[i + 1], ps[i], ps[i + 1], transfer_len(steps[i].0, steps[i].1, ls[i], rs[i]))
}

/// The outcome of one action.
pub enum ActionStatus {
    Applied,
    SkippedConflict,
    Failed(String),
}

/// One action and its outcome.
pub struct ExecutionLog {
    pub action: SyncAction,
    pub status: ActionStatus,
}

impl ActionStatus {
    pub open spec fn outcome(self) -> Outcome {
        match self {
            ActionStatus::Applied => Outcome::Applied,
            ActionStatus::SkippedConflict => Outcome::Skipped,
            ActionStatus::Failed(e) => Outcome::Failed(e@),
        }
    }
}

/// The outcomes of a sequence of logs.
pub open spec fn log_outcomes(logs: Seq<ExecutionLog>) -> Seq<Outcome> {
    logs.map_values(|l: ExecutionLog| l.status.outcome())
}

/// Every outcome in `logs` is Applied or SkippedConflict.
pub open spec fn none_failed(logs: Seq<ExecutionLog>) -> bool {
    forall|i: int| 0 <= i < logs.len() ==> !((#[trigger] logs[i]).status is Failed)
}

/// Applies plans to a local and a remote store, pacing transfers where a limiter is set.
pub struct SyncExecutor<L: LocalStore, R: RemoteStore> {
    pub local: L,
    pub remote: R,
    pub limiter: Option<BandwidthLimiter>,
}

impl<L: LocalStore, R: RemoteStore> SyncExecutor<L, R> {
    pub closed spec fn inv(&self) -> bool {
        match self.limiter {
            Some(l) => l.inv(),
            None => true,
        }
    }

    pub open spec fn files(&self) -> Files {
        (self.local.files(), self.remote.files())
    }

    /// An executor; `limit_bytes_per_sec` sets a shared pace for all its transfers.
    pub fn new(local: L, remote: R, limit_bytes_per_sec: Option<u64>) -> (r: Self)
        ensures
            r.local == local,
            r.remote == remote,
            r.inv(),
            match limit_bytes_per_sec {
                Some(b) => r.limiter is Some && r.limiter->Some_0.limit() == b,
                None => r.limiter is None,
            },
    {
        let limiter = match limit_bytes_per_sec {
            Some(limit) => Some(BandwidthLimiter::new(limit, current_time_ns())),
            None => None,
        };
        SyncExecutor { local, remote, limiter }
    }

    /// Spends `bytes` of the shared allowance, pausing as long as the limiter asks.
    fn throttle<Q: Pause>(&mut self, bytes: usize, pause: &mut Q)
        requires
            old(self).inv(),
        ensures
            final(self).inv(),
            final(self).local == old(self).local,
            final(self).remote == old(self).remote,
            paced_step(old(self).limiter, final(self).limiter, old(pause).paused(), final(pause).paused(), Some(bytes as nat)),
    {
        let ghost old_limiter = self.limiter;
        let ghost p0 = pause.paused();
        let ghost mut d: u64 = 0;
        match &mut self.limiter {
            Some(limiter) => {
                let delay = limiter.consume(current_time_ns(), bytes as u64);
                if delay > 0 {
                    pause.pause(delay);
                }
                proof {
                    d = delay;
                }
            }
            None => {}
        }
        proof {
            if old_limiter is Some {
                let spent = if d > 0 { seq![d] } else { Seq::<u64>::empty() };
                assert(pause.paused() =~= p0 + spent);
                assert(self.limiter->Some_0.history() == old_limiter->Some_0.history().push(((bytes as nat) as u64, d))
                    && pause.paused() == p0 + if d > 0 { seq![d] } else { Seq::<u64>::empty() });
            }
        }
    }

    /// Applies one action.
    fn apply<Q: Pause>(&mut self, rule: &SyncRule, action: &SyncAction, pause: &mut Q) -> (status: ActionStatus)
        requires
            old(self).inv(),
        ensures
            final(self).inv(),
            paced_step(old(self).limiter, final(self).limiter, old(pause).paused(), final(pause).paused(),
                transfer_len(*rule, action@, old(self).local, old(self).remote)),
            (status is SkippedConflict) == (action@ is Conflict),
            !(status is Failed) ==> final(self).files() == apply_action(*rule, action@, old(self).files())
                && source_present(*rule, action@, old(self).files()),
            step_holds(*rule, action@, old(self).local, old(self).remote, status.outcome(), final(self).local, final(self).remote),
    {
        match action {
            SyncAction::Upload { rel_path, .. } => {
                let bytes = match self.local.read_file(rule.local.as_str(), rel_path.as_str()) {
                    Ok(b) => b,
                    Err(e) => return ActionStatus::Failed(e),
                };
                let parent = parent_of(rel_path.as_str());
                match self.remote.ensure_dir(rule.remote.as_str(), parent.as_str()) {
                    Ok(()) => {},
                    Err(e) => return ActionStatus::Failed(e),
                }
                self.throttle(bytes.len(), pause);
                match self.remote.write_file(rule.remote.as_str(), rel_path.as_str(), bytes.as_slice()) {
                    Ok(()) => ActionStatus::Applied,
                    Err(e) => ActionStatus::Failed(e),
                }
            }
            SyncAction::Download { rel_path, .. } => {
                let bytes = match self.remote.read_file(rule.remote.as_str(), rel_path.as_str()) {
                    Ok(b) => b,
                    Err(e) => return ActionStatus::Failed(e),
                };
                let parent = parent_of(rel_path.as_str());
                match self.local.ensure_dir(rule.local.as_str(), parent.as_str()) {
                    Ok(()) => {},
                    Err(e) => return ActionStatus::Failed(e),
                }
                self.throttle(bytes.len(), pause);
                match self.local.write_file(rule.local.as_str(), rel_path.as_str(), bytes.as_slice()) {
                    Ok(()) => ActionStatus::Applied,
                    Err(e) => ActionStatus::Failed(e),
                }
            }
            SyncAction::DeleteRemote { rel_path } => {
                match self.remote.remove_file(rule.remote.as_str(), rel_path.as_str()) {
                    Ok(()) => ActionStatus::Applied,
                    Err(e) => ActionStatus::Failed(e),
                }
            }
            SyncAction::DeleteLocal { rel_path } => {
                match self.local.remove_file(rule.local.as_str(), rel_path.as_str()) {
                    Ok(()) => ActionStatus::Applied,
                    Err(e) => ActionStatus::Failed(e),
                }
            }
            SyncAction::Conflict { .. } => ActionStatus::SkippedConflict,
        }
    }

    /// Applies the plan's actions in order, one log entry per action; a failure is
    /// recorded and the remaining actions still run; conflicts are skipped untouched.
    /// Where nothing failed, the stores end as applying every action in order makes them.
    pub fn execute<Q: Pause>(&mut self, plan: &SyncPlan, pause: &mut Q) -> (logs: Vec<ExecutionLog>)
        requires
            old(self).inv(),
        ensures
            final(self).inv(),
            logs@.len() == plan.actions@.len(),
            forall|i: int| 0 <= i < logs@.len() ==> (#[trigger] logs@[i]).action@ == plan.actions@[i]@,
            forall|i: int| 0 <= i < logs@.len() ==> ((#[trigger] logs@[i]).status is SkippedConflict) == (plan.actions@[i]@ is Conflict),
            none_failed(logs@) ==> final(self).files() == apply_actions(plan.rule, actions_view(plan.actions@), old(self).files())
                && sources_present(plan.rule, actions_view(plan.actions@), old(self).files()),
            exists|ls: Seq<L>, rs: Seq<R>, lims: Seq<Option<BandwidthLimiter>>, ps: Seq<Seq<u64>>|
                run_holds(plan_steps(plan.rule, actions_view(plan.actions@)), ls, rs, log_outcomes(logs@))
                    && ls[0] == old(self).local && rs[0] == old(self).remote
                    && ls.last() == final(self).local && rs.last() == final(self).remote
                    && paced_run(plan_steps(plan.rule, actions_view(plan.actions@)), ls, rs, lims, ps)
                    && lims[0] == old(self).limiter && lims.last() == final(self).limiter
                    && ps[0] == old(pause).paused() && ps.last() == final(pause).paused(),
    {
        let ghost start = self.files();
        let ghost mut lims: Seq<Option<BandwidthLimiter>> = seq![self.limiter];
        let ghost mut ps: Seq<Seq<u64>> = seq![pause.paused()];
        let ghost m0 = self.limiter;
        let ghost q0 = pause.paused();
        let ghost mut ls: Seq<L> = seq![self.local];
        let ghost mut rs: Seq<R> = seq![self.remote];
        let ghost l0 = self.local;
        let ghost r0 = self.remote;
        let ghost av = actions_view(plan.actions@);
        let mut logs: Vec<ExecutionLog> = Vec::new();
        let mut k: usize = 0;
        proof {
            assert(av.take(0) =~= Seq::<ActionView>::empty());
            assert(log_outcomes(logs@) =~= Seq::<Outcome>::empty());
            assert(plan_steps(plan.rule, av.take(0)) =~= Seq::<(SyncRule, ActionView)>::empty());
        }
        while k < plan.actions.len()
            invariant
                self.inv(),
                k <= plan.actions@.len(),
                paced_run(plan_steps(plan.rule, av.take(k as int)), ls, rs, lims, ps),
                lims[0] == m0,
                ps[0] == q0,
                lims.last() == self.limiter,
                ps.last() == pause.paused(),
                av == actions_view(plan.actions@),
                logs@.len() == k,
                forall|i: int| 0 <= i < k ==> (#[trigger] logs@[i]).action@ == plan.actions@[i]@,
                forall|i: int| 0 <= i < k ==> ((#[trigger] logs@[i]).status is SkippedConflict) == (plan.actions@[i]@ is Conflict),
                none_failed(logs@) ==> self.files() == apply_actions(plan.rule, av.take(k as int), start)
                    && sources_present(plan.rule, av.take(k as int), start),
                run_holds(plan_steps(plan.rule, av.take(k as int)), ls, rs, log_outcomes(logs@)),
                ls[0] == l0,
                rs[0] == r0,
                ls.last() == self.local,
                rs.last() == self.remote,
            decreases plan.actions@.len() - k,
        {
            let action = &plan.actions[k];
            let ghost before = self.files();
            let ghost old_logs = logs@;
            let ghost ls_before = ls;
            let ghost rs_before = rs;
            let ghost lims_before = lims;
            let ghost ps_before = ps;
            let status = self.apply(&plan.rule, action, pause);
            logs.push(ExecutionLog { action: action.clone(), status });
            proof {
                ls = ls.push(self.local);
                rs = rs.push(self.remote);
                lims = lims.push(self.limiter);
                ps = ps.push(pause.paused());
                let steps0 = plan_steps(plan.rule, av.take(k + 1));
                assert(steps0 =~= plan_steps(plan.rule, av.take(k as int)).push((plan.rule, action@)));
                assert forall|i: int| 0 <= i < steps0.len() implies #[trigger] paced_step(lims[i], lims[i + 1], ps[i], ps[i + 1], transfer_len(steps0[i].0, steps0[i].1, ls[i], rs[i])) by {
                    if i < k {
                        assert(ls[i] == ls_before[i] && rs[i] == rs_before[i]);
                        assert(lims[i] == lims_before[i] && lims[i + 1] == lims_before[i + 1]);
                        assert(ps[i] == ps_before[i] && ps[i + 1] == ps_before[i + 1]);
                        assert(steps0[i] == plan_steps(plan.rule, av.take(k as int))[i]);
                    }
                }
                let steps = plan_steps(plan.rule, av.take(k + 1));
                assert(steps =~= plan_steps(plan.rule, av.take(k as int)).push((plan.rule, action@)));
                assert(log_outcomes(logs@) =~= log_outcomes(old_logs).push(logs@[k as int].status.outcome()));
                assert forall|i: int| 0 <= i < steps.len() implies step_holds(steps[i].0, steps[i].1, ls[i], rs[i], #[trigger] log_outcomes(logs@)[i], ls[i + 1], rs[i + 1]) by {
                    if i < k {
                        assert(ls[i] == ls_before[i] && ls[i + 1] == ls_before[i + 1]);
                        assert(rs[i] == rs_before[i] && rs[i + 1] == rs_before[i + 1]);
                        assert(log_outcomes(logs@)[i] == log_outcomes(old_logs)[i]);
                        assert(steps[i] == plan_steps(plan.rule, av.take(k as int))[i]);
                    }
                }
                assert(av.take(k + 1).drop_last() =~= av.take(k as int));
                assert(av.take(k + 1).last() == action@);
                assert forall|i: int| 0 <= i < k implies logs@[i] == old_logs[i] by {}
                if none_failed(logs@) {
                    assert(none_failed(old_logs)) by {
                        assert forall|i: int| 0 <= i < old_logs.len() implies !((#[trigger] old_logs[i]).status is Failed) by {
                            assert(logs@[i] == old_logs[i]);
                        }
                    }
                    assert(!(logs@[k as int].status is Failed));
                }
            }
            k = k + 1;
        }
        proof {
            assert(av.take(plan.actions@.len() as int) =~= av);
        }
        logs
    }
}

/// Totals of an execution run.
pub struct ExecutionSummary {
    pub applied: usize,
    pub skipped: usize,
    pub failures: Vec<(SyncAction, String)>,
}

impl ExecutionSummary {
    pub fn new() -> (r: Self)
        ensures
            r.applied == 0,
            r.skipped == 0,
            r.failures@.len() == 0,
    {
        ExecutionSummary { applied: 0, skipped: 0, failures: Vec::new() }
    }
}

/// How many actions the jobs' plans hold in all.
pub open spec fn total_actions(jobs: Seq<SyncJob>) -> nat
    decreases jobs.len(),
{
    if jobs.len() == 0 {
        0
    } else {
        total_actions(jobs.drop_last()) + jobs.last().plan.actions@.len()
    }
}

/// Bytes per second in a megabit per second.
pub const BYTES_PER_SEC_PER_MBPS: u64 = 125_000;

/// How many outcomes satisfy `f`.
pub open spec fn count_outcomes(outs: Seq<Outcome>, f: spec_fn(Outcome) -> bool) -> nat
    decreases outs.len(),
{
    if outs.len() == 0 {
        0
    } else {
        count_outcomes(outs.drop_last(), f) + if f(outs.last()) { 1nat } else { 0nat }
    }
}

/// Each failed action with its reason, in order.
pub open spec fn failures_of(acts: Seq<ActionView>, outs: Seq<Outcome>) -> Seq<(ActionView, Seq<char>)>
    decreases outs.len(),
{
    if outs.len() == 0 || acts.len() == 0 {
        Seq::empty()
    } else {
        failures_of(acts.drop_last(), outs.drop_last()) + match outs.last() {
            Outcome::Failed(e) => seq![(acts.last(), e)],
            _ => Seq::empty(),
        }
    }
}

/// The actions of a sequence of logs.
pub open spec fn log_actions(logs: Seq<ExecutionLog>) -> Seq<ActionView> {
    logs.map_values(|l: ExecutionLog| l.action@)
}

/// The failures of a summary as actions and reasons.
pub open spec fn failures_view(f: Seq<(SyncAction, String)>) -> Seq<(ActionView, Seq<char>)> {
    f.map_values(|x: (SyncAction, String)| (x.0@, x.1@))
}

/// `r` totals the outcomes `outs` of the actions `acts`.
pub open spec fn summarizes(r: ExecutionSummary, acts: Seq<ActionView>, outs: Seq<Outcome>) -> bool {
    &&& r.applied == count_outcomes(outs, |o: Outcome| o is Applied)
    &&& r.skipped == count_outcomes(outs, |o: Outcome| o is Skipped)
    &&& failures_view(r.failures@) == failures_of(acts, outs)
}

/// Totals a run's logs: the applied actions, the skipped conflicts, and each failed
/// action with its reason, in order.
pub fn summarize(logs: &Vec<ExecutionLog>) -> (r: ExecutionSummary)
    ensures
        summarizes(r, log_actions(logs@), log_outcomes(logs@)),
{
    let ghost acts = log_actions(logs@);
    let ghost outs = log_outcomes(logs@);
    let mut summary = ExecutionSummary::new();
    let mut i: usize = 0;
    proof {
        assert(acts.take(0) =~= Seq::<ActionView>::empty());
        assert(outs.take(0) =~= Seq::<Outcome>::empty());
        assert(failures_view(summary.failures@) =~= Seq::<(ActionView, Seq<char>)>::empty());
    }
    while i < logs.len()
        invariant
            i <= logs@.len(),
            acts == log_actions(logs@),
            outs == log_outcomes(logs@),
            summary.applied + summary.skipped + summary.failures@.len() == i,
            summarizes(summary, acts.take(i as int), outs.take(i as int)),
        decreases logs@.len() - i,
    {
        proof {
            assert(acts.take(i + 1).drop_last() =~= acts.take(i as int));
            assert(outs.take(i + 1).drop_last() =~= outs.take(i as int));
            assert(outs.take(i + 1).last() == logs@[i as int].status.outcome());
            assert(acts.take(i + 1).last() == logs@[i as int].action@);
        }
        let ghost fb = summary.failures@;
        let log = &logs[i];
        match &log.status {
            ActionStatus::Applied => {
                summary.applied = summary.applied + 1;
            }
            ActionStatus::SkippedConflict => {
                summary.skipped = summary.skipped + 1;
            }
            ActionStatus::Failed(reason) => {
                summary.failures.push((log.action.clone(), reason.clone()));
                assert(failures_view(summary.failures@) =~= failures_view(fb).push((log.action@, reason@)));
            }
        }
        proof {
            assert(failures_view(summary.failures@) =~= failures_of(acts.take(i + 1), outs.take(i + 1)));
        }
        i = i + 1;
    }
    proof {
        assert(acts.take(logs@.len() as int) =~= acts);
        assert(outs.take(logs@.len() as int) =~= outs);
    }
    summary
}

/// The steps of the jobs' plans, job after job.
pub open spec fn job_steps(jobs: Seq<SyncJob>) -> Seq<(SyncRule, ActionView)>
    decreases jobs.len(),
{
    if jobs.len() == 0 {
        Seq::empty()
    } else {
        job_steps(jobs.drop_last()) + plan_steps(jobs.last().plan.rule, actions_view(jobs.last().plan.actions@))
    }
}

/// The actions of a sequence of steps.
pub open spec fn step_actions(steps: Seq<(SyncRule, ActionView)>) -> Seq<ActionView> {
    steps.map_values(|s: (SyncRule, ActionView)| s.1)
}

/// The reports a run over `jobs` makes: `(1, 1)` where there are no jobs, else
/// `(0, M)` first and `(k, M)` after the `k`-th action, `M` the number of actions but
/// at least one.
pub open spec fn execution_reports(jobs: Seq<SyncJob>) -> Seq<(usize, usize)> {
    if jobs.len() == 0 {
        seq![(1usize, 1usize)]
    } else {
        counted_reports(total_actions(jobs), shown_total(total_actions(jobs)))
    }
}

/// Executes the jobs' plans in order against the executor's stores, reporting
/// progress as [`execution_reports`] says. A bandwidth
/// limit, in megabits per second, paces all transfers of the run together. The run
/// goes through the stores' states action by action as [`run_holds`] says, and the
/// summary totals its outcomes.
pub fn execute_jobs_with_progress<L: LocalStore, R: RemoteStore, S: ProgressSink, Q: Pause>(
    executor: &mut SyncExecutor<L, R>,
    jobs: &[SyncJob],
    bandwidth_limit_mbps: Option<u32>,
    progress: &mut S,
    pause: &mut Q,
) -> (r: ExecutionSummary)
    requires
        total_actions(jobs@) <= usize::MAX,
    ensures
        final(executor).inv(),
        final(progress).reported() == old(progress).reported() + execution_reports(jobs@),
        exists|ls: Seq<L>, rs: Seq<R>, outs: Seq<Outcome>|
            run_holds(job_steps(jobs@), ls, rs, outs) && ls[0] == old(executor).local && rs[0] == old(executor).remote
                && ls.last() == final(executor).local && rs.last() == final(executor).remote
                && summarizes(r, step_actions(job_steps(jobs@)), outs),
{
    executor.limiter = match bandwidth_limit_mbps {
        Some(mbps) => Some(BandwidthLimiter::new(mbps as u64 * BYTES_PER_SEC_PER_MBPS, current_time_ns())),
        None => None,
    };
    let ghost l0 = executor.local;
    let ghost r0 = executor.remote;
    let ghost start = progress.reported();
    if jobs.len() == 0 {
        progress.report(1, 1);
        let r = ExecutionSummary::new();
        proof {
            let ls = seq![l0];
            let rs = seq![r0];
            let outs = Seq::<Outcome>::empty();
            assert(job_steps(jobs@) =~= Seq::<(SyncRule, ActionView)>::empty());
            assert(failures_view(r.failures@) =~= Seq::<(ActionView, Seq<char>)>::empty());
            assert(run_holds(job_steps(jobs@), ls, rs, outs));
        }
        return r;
    }
    let mut total: usize = 0;
    let mut j: usize = 0;
    proof {
        assert(jobs@.take(0) =~= Seq::<SyncJob>::empty());
    }
    while j < jobs.len()
        invariant
            j <= jobs@.len(),
            total == total_actions(jobs@.take(j as int)),
            total_actions(jobs@) <= usize::MAX,
        decreases jobs@.len() - j,
    {
        proof {
            assert(jobs@.take(j + 1).drop_last() =~= jobs@.take(j as int));
            lemma_total_prefix(jobs@, j + 1);
        }
        total = total + jobs[j].plan.actions.len();
        j = j + 1;
    }
    proof {
        assert(jobs@.take(jobs@.len() as int) =~= jobs@);
    }
    let report_total: usize = if total == 0 { 1 } else { total };
    let mut completed: usize = 0;
    progress.report(completed, report_total);
    proof {
        assert(progress.reported() =~= start + counted_reports(0, report_total));
    }
    let mut all_logs: Vec<ExecutionLog> = Vec::new();
    let ghost mut ls: Seq<L> = seq![l0];
    let ghost mut rs: Seq<R> = seq![r0];
    proof {
        assert(jobs@.take(0) =~= Seq::<SyncJob>::empty());
        assert(log_actions(all_logs@) =~= Seq::<ActionView>::empty());
        assert(log_outcomes(all_logs@) =~= Seq::<Outcome>::empty());
        assert(step_actions(job_steps(jobs@.take(0))) =~= Seq::<ActionView>::empty());
    }
    let mut j: usize = 0;
    while j < jobs.len()
        invariant
            j <= jobs@.len(),
            executor.inv(),
            report_total == shown_total(total_actions(jobs@)),
            progress.reported() == start + counted_reports(completed as nat, report_total),
            total_actions(jobs@) <= usize::MAX,
            completed == total_actions(jobs@.take(j as int)),
            completed == all_logs@.len(),
            log_actions(all_logs@) == step_actions(job_steps(jobs@.take(j as int))),
            run_holds(job_steps(jobs@.take(j as int)), ls, rs, log_outcomes(all_logs@)),
            ls[0] == l0,
            rs[0] == r0,
            ls.last() == executor.local,
            rs.last() == executor.remote,
        decreases jobs@.len() - j,
    {
        let job = &jobs[j];
        let ghost lim_before = executor.limiter;
        let ghost pause_before = pause.paused();
        let mut logs = executor.execute(&job.plan, pause);
        let ghost s1 = job_steps(jobs@.take(j as int));
        let ghost s2 = plan_steps(job.plan.rule, actions_view(job.plan.actions@));
        proof {
            assert(jobs@.take(j + 1).drop_last() =~= jobs@.take(j as int));
            assert(jobs@.take(j + 1).last() == jobs@[j as int]);
            lemma_total_prefix(jobs@, j + 1);
            let (lsj, rsj, limsj, psj) = choose|lsj: Seq<L>, rsj: Seq<R>, limsj: Seq<Option<BandwidthLimiter>>, psj: Seq<Seq<u64>>|
                run_holds(s2, lsj, rsj, log_outcomes(logs@)) && lsj[0] == ls.last() && rsj[0] == rs.last()
                    && lsj.last() == executor.local && rsj.last() == executor.remote
                    && paced_run(s2, lsj, rsj, limsj, psj) && limsj[0] == lim_before && limsj.last() == executor.limiter
                    && psj[0] == pause_before && psj.last() == pause.paused();
            lemma_run_concat(s1, ls, rs, log_outcomes(all_logs@), s2, lsj, rsj, log_outcomes(logs@));
            ls = ls + lsj.skip(1);
            rs = rs + rsj.skip(1);
            assert(log_outcomes(all_logs@ + logs@) =~= log_outcomes(all_logs@) + log_outcomes(logs@));
            assert(log_actions(logs@) =~= step_actions(s2));
            assert(log_actions(all_logs@ + logs@) =~= log_actions(all_logs@) + log_actions(logs@));
            assert(step_actions(s1 + s2) =~= step_actions(s1) + step_actions(s2));
        }
        let mut m: usize = 0;
        while m < logs.len()
            invariant
                m <= logs@.len(),
                logs@.len() == job.plan.actions@.len(),
                completed == all_logs@.len() + m,
                all_logs@.len() + logs@.len() <= usize::MAX,
                progress.reported() == start + counted_reports(completed as nat, report_total),
            decreases logs@.len() - m,
        {
            progress.report(completed + 1, report_total);
            proof {
                lemma_counted_push(completed as nat, report_total);
                assert(progress.reported() =~= start + counted_reports((completed + 1) as nat, report_total));
            }
            completed = completed + 1;
            m = m + 1;
        }
        all_logs.append(&mut logs);
        j = j + 1;
    }
    proof {
        assert(jobs@.take(jobs@.len() as int) =~= jobs@);
    }
    summarize(&all_logs)
}

/// The total over a prefix never exceeds the total over all jobs.
proof fn lemma_total_prefix(jobs: Seq<SyncJob>, k: int)
    requires
        0 <= k <= jobs.len(),
    ensures
        total_actions(jobs.take(k)) <= total_actions(jobs),
    decreases jobs.len(),
{
    if k < jobs.len() {
        assert(jobs.drop_last().take(k) =~= jobs.take(k));
        lemma_total_prefix(jobs.drop_last(), k);
    } else {
        assert(jobs.take(k) =~= jobs);
    }
}

/// Executes the jobs' plans without progress reports or a bandwidth limit.
pub fn execute_jobs_for_target<L: LocalStore, R: RemoteStore>(executor: &mut SyncExecutor<L, R>, jobs: &[SyncJob]) -> (r: ExecutionSummary)
    requires
        total_actions(jobs@) <= usize::MAX,
    ensures
        final(executor).inv(),
        exists|ls: Seq<L>, rs: Seq<R>, outs: Seq<Outcome>|
            run_holds(job_steps(jobs@), ls, rs, outs) && ls[0] == old(executor).local && rs[0] == old(executor).remote
                && ls.last() == final(executor).local && rs.last() == final(executor).remote
                && summarizes(r, step_actions(job_steps(jobs@)), outs),
{
    let mut reports = ProgressLog::new();
    let mut pauses = PauseLog::new();
    execute_jobs_with_progress(executor, jobs, None, &mut reports, &mut pauses)
}

} // verus!
