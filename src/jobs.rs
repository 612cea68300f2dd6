//! Plans bound to targets: listing both sides of a rule and planning what reconciles them.

use vstd::prelude::*;
use crate::entries::{all_relative, entries_view, index_entries, index_of, lemma_index_relative, EntryView, FileEntry, FileIndex};
use crate::laws::lemma_plan_paths_relative;
use crate::clock::current_time_ns;
use crate::model::{RemoteTarget, SessionId, SyncRule, SyncSession, SyncStatus, TargetId};
use crate::paths::{is_relative_path, join_path, join_paths};
use crate::plan::{actions_view, diff_actions, plan_actions, ActionView, PlanStats, SyncAction};
use crate::progress::{counted_reports, lemma_counted_push, shown_total, ProgressLog, ProgressSink};
use crate::store::{lists_all_below, lists_below, lists_path, outcome_is, LocalStore, RemoteStore};

verus! {

/// The actions of a rule, in order, with their counts.
#[derive(Clone)]
pub struct SyncPlan {
    pub rule: SyncRule,
    pub actions: Vec<SyncAction>,
    pub stats: PlanStats,
}

impl SyncPlan {
    /// The counts match the actions.
    pub open spec fn wf(&self) -> bool {
        self.stats.counts(actions_view(self.actions@))
    }

    /// The plan that reconciles two indexes under `rule`.
    pub fn from_indexes(rule: &SyncRule, local_index: &FileIndex, remote_index: &FileIndex) -> (r: Self)
        ensures
            r.rule == *rule,
            actions_view(r.actions@) == plan_actions(rule.direction, local_index@, remote_index@),
            r.wf(),
    {
        let (actions, stats) = diff_actions(rule, local_index, remote_index);
        SyncPlan { rule: rule.clone(), actions, stats }
    }
}

/// Every entry of `listing` stands for a file of `files` below `root`.
pub open spec fn listed_below(files: Map<Seq<char>, Seq<u8>>, root: Seq<char>, listing: Seq<EntryView>) -> bool {
    &&& forall|i: int| 0 <= i < listing.len() ==> lists_below(files, root, #[trigger] listing[i])
    &&& forall|p: Seq<char>| is_relative_path(p) && #[trigger] files.contains_key(join_path(root, p)) ==> exists|i: int|
        0 <= i < listing.len() && listing[i].path == p
    &&& forall|i: int| 0 <= i < listing.len() ==> (#[trigger] listing[i]).size as int == files[join_path(root, listing[i].path)].len()
}

/// Every entry of `v` with its view in `entries_view(v)`.
proof fn lemma_listing_view(files: Map<Seq<char>, Seq<u8>>, root: Seq<char>, v: Seq<FileEntry>)
    requires
        forall|i: int| 0 <= i < v.len() ==> lists_below(files, root, #[trigger] v[i]@),
        lists_all_below(files, root, v),
    ensures
        listed_below(files, root, entries_view(v)),
{
    let ev = entries_view(v);
    assert forall|i: int| 0 <= i < ev.len() implies lists_below(files, root, #[trigger] ev[i]) by {
        assert(ev[i] == v[i]@);
    }
    assert forall|p: Seq<char>| is_relative_path(p) && #[trigger] files.contains_key(join_path(root, p)) implies exists|i: int|
        0 <= i < ev.len() && ev[i].path == p by {
        assert(lists_path(v, p));
        let i = choose|i: int| 0 <= i < v.len() && v[i]@.path == p;
        assert(ev[i] == v[i]@);
    }
    assert forall|i: int| 0 <= i < ev.len() implies (#[trigger] ev[i]).size as int == files[join_path(root, ev[i].path)].len() by {
        assert(ev[i] == v[i]@);
        assert(v[i].size as int == files[join_path(root, v[i]@.path)].len());
    }
}

/// `local` and `remote` are the indexes of two listings of the stores below the
/// rule's roots.
pub open spec fn indexes_of_listings(
    rule: SyncRule,
    local_files: Map<Seq<char>, Seq<u8>>,
    remote_files: Map<Seq<char>, Seq<u8>>,
    local: Seq<EntryView>,
    remote: Seq<EntryView>,
) -> bool {
    exists|ll: Seq<EntryView>, rl: Seq<EntryView>|
        listed_below(local_files, rule.local@, ll) && listed_below(remote_files, rule.remote@, rl)
            && local == index_of(ll) && remote == index_of(rl)
}

/// Why listing the two roots fails: the local listing's error, else the remote one's.
pub open spec fn listing_error<L: LocalStore, R: RemoteStore>(
    local_root: Seq<char>,
    remote_root: Seq<char>,
    local: L,
    remote: R,
) -> Option<Seq<char>> {
    match local.list_error(local_root) {
        Some(e) => Some(e),
        None => remote.list_error(remote_root),
    }
}

/// Every action names a relative path.
pub open spec fn relative_actions(s: Seq<ActionView>) -> bool {
    forall|i: int| 0 <= i < s.len() ==> is_relative_path(#[trigger] s[i].path())
}

/// Listed entries have relative paths.
proof fn lemma_listing_relative(files: Map<Seq<char>, Seq<u8>>, root: Seq<char>, listing: Seq<EntryView>)
    requires
        listed_below(files, root, listing),
    ensures
        all_relative(index_of(listing)),
{
    assert forall|i: int| 0 <= i < listing.len() implies is_relative_path(#[trigger] listing[i].path) by {
        assert(lists_below(files, root, listing[i]));
    }
    lemma_index_relative(listing);
}

/// Lists both roots of a rule and indexes the two listings.
fn list_and_index<L: LocalStore, R: RemoteStore>(rule: &SyncRule, local: &L, remote: &R) -> (r: Result<(FileIndex, FileIndex), String>)
    ensures
        outcome_is(r, listing_error(rule.local@, rule.remote@, *local, *remote)),
        r is Ok ==> indexes_of_listings(*rule, local.files(), remote.files(), r->Ok_0.0@, r->Ok_0.1@),
        r is Ok ==> all_relative(r->Ok_0.0@) && all_relative(r->Ok_0.1@),
{
    let local_listing = match local.list(rule.local.as_str()) {
        Ok(v) => v,
        Err(e) => return Err(e),
    };
    let remote_listing = match remote.list(rule.remote.as_str()) {
        Ok(v) => v,
        Err(e) => return Err(e),
    };
    let ghost ll = entries_view(local_listing@);
    let ghost rl = entries_view(remote_listing@);
    proof {
        lemma_listing_view(local.files(), rule.local@, local_listing@);
        lemma_listing_view(remote.files(), rule.remote@, remote_listing@);
        lemma_listing_relative(local.files(), rule.local@, ll);
        lemma_listing_relative(remote.files(), rule.remote@, rl);
    }
    let local_index = index_entries(local_listing);
    let remote_index = index_entries(remote_listing);
    Ok((local_index, remote_index))
}

/// Plans rules against a pair of stores.
pub struct SyncPlanner<'a, L: LocalStore, R: RemoteStore> {
    local: &'a L,
    remote: &'a R,
}

impl<'a, L: LocalStore, R: RemoteStore> SyncPlanner<'a, L, R> {
    pub fn new(local: &'a L, remote: &'a R) -> (r: Self)
        ensures
            r.local_store() == *local,
            r.remote_store() == *remote,
    {
        SyncPlanner { local, remote }
    }

    pub closed spec fn local_store(&self) -> L {
        *self.local
    }

    pub closed spec fn remote_store(&self) -> R {
        *self.remote
    }

    /// Lists both roots of `rule` and plans what reconciles them.
    pub fn plan(&self, rule: &SyncRule) -> (r: Result<SyncPlan, String>)
        ensures
            outcome_is(r, listing_error(rule.local@, rule.remote@, self.local_store(), self.remote_store())),
            r is Ok ==> {
                let p = r->Ok_0;
                &&& p.rule == *rule
                &&& p.wf()
                &&& relative_actions(actions_view(p.actions@))
                &&& exists|l: Seq<EntryView>, m: Seq<EntryView>|
                    indexes_of_listings(*rule, self.local_store().files(), self.remote_store().files(), l, m)
                        && actions_view(p.actions@) == plan_actions(rule.direction, l, m)
            },
    {
        let (local_index, remote_index) = match list_and_index(rule, self.local, self.remote) {
            Ok(pair) => pair,
            Err(e) => return Err(e),
        };
        let p = SyncPlan::from_indexes(rule, &local_index, &remote_index);
        proof {
            lemma_plan_paths_relative(rule.direction, local_index@, remote_index@);
        }
        proof {
            assert(indexes_of_listings(*rule, self.local_store().files(), self.remote_store().files(), local_index@, remote_index@));
        }
        Ok(p)
    }
}

/// A plan bound to a target and a session, with the indexes it was computed from.
#[derive(Clone)]
pub struct SyncJob {
    pub id: SessionId,
    pub target_id: TargetId,
    pub rule: SyncRule,
    pub local_index: FileIndex,
    pub remote_index: FileIndex,
    pub plan: SyncPlan,
    /// Nanoseconds since the Unix epoch.
    pub created_at: u64,
}

impl SyncJob {
    /// Lists both roots of `rule` and binds the plan that reconciles them to a session.
    pub fn plan<L: LocalStore, R: RemoteStore>(
        id: SessionId,
        target_id: TargetId,
        rule: &SyncRule,
        local: &L,
        remote: &R,
    ) -> (r: Result<Self, String>)
        ensures
            outcome_is(r, listing_error(rule.local@, rule.remote@, *local, *remote)),
            r is Ok ==> {
                let j = r->Ok_0;
                &&& j.id == id
                &&& j.target_id == target_id
                &&& j.rule == *rule
                &&& j.plan.rule == *rule
                &&& j.plan.wf()
                &&& relative_actions(actions_view(j.plan.actions@))
                &&& indexes_of_listings(*rule, local.files(), remote.files(), j.local_index@, j.remote_index@)
                &&& actions_view(j.plan.actions@) == plan_actions(rule.direction, j.local_index@, j.remote_index@)
            },
    {
        let (local_index, remote_index) = match list_and_index(rule, local, remote) {
            Ok(pair) => pair,
            Err(e) => return Err(e),
        };
        let plan = SyncPlan::from_indexes(rule, &local_index, &remote_index);
        proof {
            lemma_plan_paths_relative(rule.direction, local_index@, remote_index@);
        }
        Ok(SyncJob {
            id,
            target_id,
            rule: rule.clone(),
            local_index,
            remote_index,
            plan,
            created_at: current_time_ns(),
        })
    }

    /// The session this job shows as: idle where nothing is pending, else awaiting
    /// confirmation.
    pub fn to_session(&self) -> (r: SyncSession)
        ensures
            r.id == self.id,
            r.target_id == self.target_id,
            r.last_run == Some(self.created_at),
            r.pending_actions == self.plan.actions@.len(),
            r.status == if self.plan.actions@.len() == 0 { SyncStatus::Idle } else { SyncStatus::AwaitingConfirmation },
    {
        let pending = self.pending_actions();
        let status = if pending == 0 { SyncStatus::Idle } else { SyncStatus::AwaitingConfirmation };
        SyncSession { id: self.id, target_id: self.target_id, status, last_run: Some(self.created_at), pending_actions: pending }
    }

    /// How many actions wait to be applied.
    pub fn pending_actions(&self) -> (r: usize)
        ensures
            r == self.plan.actions@.len(),
    {
        self.plan.actions.len()
    }
}

/// A plan computed for a target's rule, before it is given a session.
#[derive(Clone)]
pub struct PlannedJob {
    pub target_id: TargetId,
    /// The rule, its remote root resolved against the target's base path.
    pub rule: SyncRule,
    pub local_index: FileIndex,
    pub remote_index: FileIndex,
    pub actions: Vec<SyncAction>,
    pub stats: PlanStats,
    /// Nanoseconds since the Unix epoch.
    pub created_at: u64,
}

impl PlannedJob {
    /// Binds the plan to session `id`; nothing else changes.
    pub fn into_sync_job(self, id: SessionId) -> (r: SyncJob)
        ensures
            r.id == id,
            r.target_id == self.target_id,
            r.rule == self.rule,
            r.local_index == self.local_index,
            r.remote_index == self.remote_index,
            r.plan.rule == self.rule,
            r.plan.actions == self.actions,
            r.plan.stats == self.stats,
            r.created_at == self.created_at,
    {
        let PlannedJob { target_id, rule, local_index, remote_index, actions, stats, created_at } = self;
        let plan_rule = rule.clone();
        SyncJob {
            id,
            target_id,
            rule,
            local_index,
            remote_index,
            plan: SyncPlan { rule: plan_rule, actions, stats },
            created_at,
        }
    }
}

/// What planning a target's rules produced: one job per rule that could be planned,
/// one warning per rule that could not.
pub struct PlanJobsResult {
    pub jobs: Vec<PlannedJob>,
    pub warnings: Vec<String>,
}

/// The absolute remote root of a rule: an absolute rule path as it is, an empty one
/// as the base path, any other joined to the base path.
pub fn resolve_remote_root(base_path: &str, rule_remote: &str) -> (r: String)
    ensures
        r@ == join_path(base_path@, rule_remote@),
{
    join_paths(base_path, rule_remote)
}

/// `job` is a plan of `rule` for `target`, its remote root resolved, computed from
/// listings of the two stores.
pub open spec fn planned_for(
    target: RemoteTarget,
    rule: SyncRule,
    job: PlannedJob,
    local_files: Map<Seq<char>, Seq<u8>>,
    remote_files: Map<Seq<char>, Seq<u8>>,
) -> bool {
    &&& job.target_id == target.id
    &&& job.rule.local == rule.local
    &&& job.rule.remote@ == join_path(target.base_path@, rule.remote@)
    &&& job.rule.direction == rule.direction
    &&& indexes_of_listings(job.rule, local_files, remote_files, job.local_index@, job.remote_index@)
    &&& actions_view(job.actions@) == plan_actions(rule.direction, job.local_index@, job.remote_index@)
    &&& job.stats.counts(actions_view(job.actions@))
    &&& relative_actions(actions_view(job.actions@))
}

/// Why planning `rule` of `target` fails: a listing of its local root or of its
/// resolved remote root fails.
pub open spec fn rule_error<L: LocalStore, R: RemoteStore>(target: RemoteTarget, rule: SyncRule, local: L, remote: R) -> Option<Seq<char>> {
    listing_error(rule.local@, join_path(target.base_path@, rule.remote@), local, remote)
}

/// Plans one rule of a target, its remote root resolved first so that planning and
/// execution agree on it.
pub fn plan_single_job<L: LocalStore, R: RemoteStore>(target: &RemoteTarget, rule: &SyncRule, local: &L, remote: &R) -> (r: Result<PlannedJob, String>)
    ensures
        outcome_is(r, rule_error(*target, *rule, *local, *remote)),
        r is Ok ==> planned_for(*target, *rule, r->Ok_0, local.files(), remote.files()),
{
    let mut resolved = rule.clone();
    resolved.remote = resolve_remote_root(target.base_path.as_str(), rule.remote.as_str());
    let (local_index, remote_index) = match list_and_index(&resolved, local, remote) {
        Ok(pair) => pair,
        Err(e) => return Err(e),
    };
    let (actions, stats) = diff_actions(&resolved, &local_index, &remote_index);
    proof {
        lemma_plan_paths_relative(resolved.direction, local_index@, remote_index@);
    }
    Ok(PlannedJob {
        target_id: target.id,
        rule: resolved,
        local_index,
        remote_index,
        actions,
        stats,
        created_at: current_time_ns(),
    })
}

/// The warning for a rule that could not be planned.
pub open spec fn warning_of(rule: SyncRule, target: RemoteTarget, err: Seq<char>) -> Seq<char> {
    "Failed to plan rule "@ + rule.local@ + " for "@ + target.name@ + ": "@ + err
}

/// The error when no rule of a target could be planned.
pub open spec fn no_plan_error(target: RemoteTarget) -> Seq<char> {
    "no sync plan could be generated for "@ + target.name@
}

fn plan_warning(rule: &SyncRule, target: &RemoteTarget, err: &String) -> (r: String)
    ensures
        r@ == warning_of(*rule, *target, err@),
{
    let mut msg = String::from_str("Failed to plan rule ");
    msg.append(rule.local.as_str());
    msg.append(" for ");
    msg.append(target.name.as_str());
    msg.append(": ");
    msg.append(err.as_str());
    msg
}

/// The jobs of the outcomes that succeeded, in order.
pub open spec fn ok_jobs(outs: Seq<Result<PlannedJob, String>>) -> Seq<PlannedJob>
    decreases outs.len(),
{
    if outs.len() == 0 {
        Seq::empty()
    } else {
        ok_jobs(outs.drop_last()) + match outs.last() {
            Ok(j) => seq![j],
            Err(_) => Seq::empty(),
        }
    }
}

/// One warning per outcome that failed, naming its rule, in order.
pub open spec fn warnings_of(target: RemoteTarget, outs: Seq<Result<PlannedJob, String>>) -> Seq<Seq<char>>
    decreases outs.len(),
{
    if outs.len() == 0 {
        Seq::empty()
    } else {
        warnings_of(target, outs.drop_last()) + match outs.last() {
            Ok(_) => Seq::empty(),
            Err(e) => seq![warning_of(target.rules@[outs.len() - 1], target, e@)],
        }
    }
}

/// What planning a target's rules gives, where rule `i` gave `outs[i]`: the planned
/// jobs in rule order and a warning per failed rule, or an error where none was planned.
pub open spec fn collected(target: RemoteTarget, outs: Seq<Result<PlannedJob, String>>, r: Result<PlanJobsResult, String>) -> bool {
    if ok_jobs(outs).len() > 0 {
        &&& r is Ok
        &&& r->Ok_0.jobs@ == ok_jobs(outs)
        &&& r->Ok_0.warnings@.map_values(|w: String| w@) == warnings_of(target, outs)
    } else {
        r is Err && r->Err_0@ == no_plan_error(target)
    }
}

/// Gathers the outcomes of planning each rule of `target` (see [`collected`]).
pub fn collect_plans(target: &RemoteTarget, outcomes: Vec<Result<PlannedJob, String>>) -> (r: Result<PlanJobsResult, String>)
    requires
        outcomes@.len() == target.rules@.len(),
    ensures
        collected(*target, outcomes@, r),
{
    let ghost outs = outcomes@;
    let n = target.rules.len();
    let mut rest = outcomes;
    let mut jobs: Vec<PlannedJob> = Vec::new();
    let mut warnings: Vec<String> = Vec::new();
    let mut i: usize = 0;
    proof {
        assert(outs.take(0) =~= Seq::<Result<PlannedJob, String>>::empty());
        assert(rest@ =~= outs.skip(0));
        assert(warnings@.map_values(|w: String| w@) =~= Seq::<Seq<char>>::empty());
    }
    while rest.len() > 0
        invariant
            i <= outs.len(),
            outs.len() == target.rules@.len(),
            n == outs.len(),
            rest@ == outs.skip(i as int),
            jobs@ == ok_jobs(outs.take(i as int)),
            warnings@.map_values(|w: String| w@) == warnings_of(*target, outs.take(i as int)),
        decreases rest@.len(),
    {
        let out = rest.remove(0);
        proof {
            assert(out == outs[i as int]);
            assert(outs.take(i + 1).drop_last() =~= outs.take(i as int));
            assert(outs.take(i + 1).last() == outs[i as int]);
            assert(rest@ =~= outs.skip(i + 1));
        }
        let ghost wb = warnings@;
        match out {
            Ok(job) => {
                jobs.push(job);
                assert(warnings@.map_values(|w: String| w@) =~= warnings_of(*target, outs.take(i + 1)));
            }
            Err(err) => {
                let w = plan_warning(&target.rules[i], target, &err);
                warnings.push(w);
                assert(warnings@.map_values(|w: String| w@) =~= wb.map_values(|w: String| w@).push(w@));
            }
        }
        i = i + 1;
    }
    proof {
        assert(outs.take(outs.len() as int) =~= outs);
    }
    if jobs.len() == 0 {
        let mut msg = String::from_str("no sync plan could be generated for ");
        msg.append(target.name.as_str());
        return Err(msg);
    }
    Ok(PlanJobsResult { jobs, warnings })
}

/// Rule `i` of `target` gave `outs[i]`: the listing error where there was one, else
/// a plan of the rule.
pub open spec fn rule_outcomes<L: LocalStore, R: RemoteStore>(target: RemoteTarget, local: L, remote: R, outs: Seq<Result<PlannedJob, String>>) -> bool {
    &&& outs.len() == target.rules@.len()
    &&& forall|i: int| 0 <= i < outs.len() ==> outcome_is(#[trigger] outs[i], rule_error(target, target.rules@[i], local, remote))
    &&& forall|i: int| 0 <= i < outs.len() ==> (#[trigger] outs[i] is Ok) ==> planned_for(target, target.rules@[i], outs[i]->Ok_0, local.files(), remote.files())
}

/// Plans every rule of `target`, reporting `(0, N)` first and `(i, N)` after rule `i`,
/// where `N` is the number of rules but at least one. Fails only where no rule could
/// be planned.
pub fn plan_jobs_with_progress<L: LocalStore, R: RemoteStore, P: ProgressSink>(
    target: &RemoteTarget,
    local: &L,
    remote: &R,
    progress: &mut P,
) -> (r: Result<PlanJobsResult, String>)
    ensures
        exists|outs: Seq<Result<PlannedJob, String>>| rule_outcomes(*target, *local, *remote, outs) && collected(*target, outs, r),
        final(progress).reported() == old(progress).reported() + counted_reports(
            target.rules@.len() as nat,
            shown_total(target.rules@.len() as nat),
        ),
{
    let n = target.rules.len();
    let total_rules: usize = if n == 0 { 1 } else { n };
    let ghost start = progress.reported();
    progress.report(0, total_rules);
    proof {
        assert(progress.reported() =~= start + counted_reports(0, total_rules));
    }
    let mut outcomes: Vec<Result<PlannedJob, String>> = Vec::new();
    let mut index: usize = 0;
    while index < n
        invariant
            index <= n,
            n == target.rules@.len(),
            total_rules == shown_total(n as nat),
            progress.reported() == start + counted_reports(index as nat, total_rules),
            outcomes@.len() == index,
            forall|i: int| 0 <= i < index ==> outcome_is(#[trigger] outcomes@[i], rule_error(*target, target.rules@[i], *local, *remote)),
            forall|i: int| 0 <= i < index ==> (#[trigger] outcomes@[i] is Ok) ==> planned_for(*target, target.rules@[i], outcomes@[i]->Ok_0, local.files(), remote.files()),
        decreases n - index,
    {
        let out = plan_single_job(target, &target.rules[index], local, remote);
        let ghost before = outcomes@;
        outcomes.push(out);
        assert(forall|i: int| 0 <= i < index ==> outcomes@[i] == before[i]);
        progress.report(index + 1, total_rules);
        proof {
            lemma_counted_push(index as nat, total_rules);
            assert(progress.reported() =~= start + counted_reports((index + 1) as nat, total_rules));
        }
        index = index + 1;
    }
    let ghost outs = outcomes@;
    let r = collect_plans(target, outcomes);
    assert(rule_outcomes(*target, *local, *remote, outs));
    r
}

/// Plans every rule of `target`, keeping no progress reports.
pub fn plan_jobs_for_target<L: LocalStore, R: RemoteStore>(target: &RemoteTarget, local: &L, remote: &R) -> (r: Result<PlanJobsResult, String>)
    ensures
        exists|outs: Seq<Result<PlannedJob, String>>| rule_outcomes(*target, *local, *remote, outs) && collected(*target, outs, r),
{
    let mut reports = ProgressLog::new();
    plan_jobs_with_progress(target, local, remote, &mut reports)
}

} // verus!
