//! Deciding what reconciles two listings: the actions of a plan and their counts.

use vstd::prelude::*;
use crate::entries::{
    entries_view, index_entries, index_of, lookup, unique_paths, EntryView, FileEntry, FileIndex,
};
use crate::model::{SyncDirection, SyncRule};
use crate::paths::{join_path, join_paths};

verus! {

/// Timestamps that differ by no more than this many nanoseconds count as equal.
pub const SKEW_NS: u64 = 500_000_000;

/// `lhs` is later than `rhs` by more than the tolerated skew.
pub open spec fn is_newer(lhs: u64, rhs: u64) -> bool {
    lhs as int - rhs as int > SKEW_NS as int
}

/// Executable form of [`is_newer`].
pub fn newer(lhs: u64, rhs: u64) -> (r: bool)
    ensures
        r == is_newer(lhs, rhs),
{
    lhs > rhs && lhs - rhs > SKEW_NS
}

/// One unit of reconciling work.
pub enum SyncAction {
    Upload { rel_path: String, size: u64 },
    Download { rel_path: String, size: u64 },
    DeleteRemote { rel_path: String },
    DeleteLocal { rel_path: String },
    Conflict { rel_path: String },
}

/// The mathematical value of a [`SyncAction`].
pub enum ActionView {
    Upload { path: Seq<char>, size: u64 },
    Download { path: Seq<char>, size: u64 },
    DeleteRemote { path: Seq<char> },
    DeleteLocal { path: Seq<char> },
    Conflict { path: Seq<char> },
}

impl ActionView {
    pub open spec fn path(self) -> Seq<char> {
        match self {
            ActionView::Upload { path, .. } => path,
            ActionView::Download { path, .. } => path,
            ActionView::DeleteRemote { path } => path,
            ActionView::DeleteLocal { path } => path,
            ActionView::Conflict { path } => path,
        }
    }
}

impl View for SyncAction {
    type V = ActionView;

    open spec fn view(&self) -> ActionView {
        match self {
            SyncAction::Upload { rel_path, size } => ActionView::Upload { path: rel_path@, size: *size },
            SyncAction::Download { rel_path, size } => ActionView::Download { path: rel_path@, size: *size },
            SyncAction::DeleteRemote { rel_path } => ActionView::DeleteRemote { path: rel_path@ },
            SyncAction::DeleteLocal { rel_path } => ActionView::DeleteLocal { path: rel_path@ },
            SyncAction::Conflict { rel_path } => ActionView::Conflict { path: rel_path@ },
        }
    }
}

impl Clone for SyncAction {
    fn clone(&self) -> (r: Self)
        ensures
            r@ == self@,
    {
        match self {
            SyncAction::Upload { rel_path, size } => SyncAction::Upload { rel_path: rel_path.clone(), size: *size },
            SyncAction::Download { rel_path, size } => SyncAction::Download { rel_path: rel_path.clone(), size: *size },
            SyncAction::DeleteRemote { rel_path } => SyncAction::DeleteRemote { rel_path: rel_path.clone() },
            SyncAction::DeleteLocal { rel_path } => SyncAction::DeleteLocal { rel_path: rel_path.clone() },
            SyncAction::Conflict { rel_path } => SyncAction::Conflict { rel_path: rel_path.clone() },
        }
    }
}

impl SyncAction {
    /// The relative path the action concerns.
    pub fn rel_path(&self) -> (r: &String)
        ensures
            r@ == self@.path(),
    {
        match self {
            SyncAction::Upload { rel_path, .. } => rel_path,
            SyncAction::Download { rel_path, .. } => rel_path,
            SyncAction::DeleteRemote { rel_path } => rel_path,
            SyncAction::DeleteLocal { rel_path } => rel_path,
            SyncAction::Conflict { rel_path } => rel_path,
        }
    }
}

/// The views of a sequence of actions.
pub open spec fn actions_view(s: Seq<SyncAction>) -> Seq<ActionView> {
    s.map_values(|a: SyncAction| a@)
}

/// How many actions of `s` satisfy `f`.
pub open spec fn count_actions(s: Seq<ActionView>, f: spec_fn(ActionView) -> bool) -> nat
    decreases s.len(),
{
    if s.len() == 0 {
        0
    } else {
        count_actions(s.drop_last(), f) + if f(s.last()) { 1nat } else { 0nat }
    }
}

/// Counts of each kind of action in a plan.
#[derive(Clone, Copy, PartialEq, Eq, Debug, Structural)]
pub struct PlanStats {
    pub uploads: usize,
    pub downloads: usize,
    pub deletes_remote: usize,
    pub deletes_local: usize,
    pub conflicts: usize,
}

impl PlanStats {
    /// Each count is the number of actions of its kind in `s`.
    pub open spec fn counts(self, s: Seq<ActionView>) -> bool {
        &&& self.uploads == count_actions(s, |a: ActionView| a is Upload)
        &&& self.downloads == count_actions(s, |a: ActionView| a is Download)
        &&& self.deletes_remote == count_actions(s, |a: ActionView| a is DeleteRemote)
        &&& self.deletes_local == count_actions(s, |a: ActionView| a is DeleteLocal)
        &&& self.conflicts == count_actions(s, |a: ActionView| a is Conflict)
    }

    pub open spec fn total(self) -> int {
        self.uploads + self.downloads + self.deletes_remote + self.deletes_local + self.conflicts
    }

    /// All counts zero.
    pub fn zero() -> (r: Self)
        ensures
            r.counts(Seq::empty()),
            r.total() == 0,
    {
        PlanStats { uploads: 0, downloads: 0, deletes_remote: 0, deletes_local: 0, conflicts: 0 }
    }
}

/// What to do about a path that the local side lists, given what the remote side lists there.
pub open spec fn local_decision(dir: SyncDirection, l: EntryView, r: Option<EntryView>) -> Option<ActionView> {
    match r {
        None => match dir {
            SyncDirection::Pull => Some(ActionView::DeleteLocal { path: l.path }),
            _ => Some(ActionView::Upload { path: l.path, size: l.size }),
        },
        Some(r) => {
            let local_newer = is_newer(l.modified, r.modified);
            let remote_newer = is_newer(r.modified, l.modified);
            match dir {
                SyncDirection::Push => if local_newer {
                    Some(ActionView::Upload { path: l.path, size: l.size })
                } else {
                    None
                },
                SyncDirection::Pull => if remote_newer {
                    Some(ActionView::Download { path: l.path, size: r.size })
                } else {
                    None
                },
                SyncDirection::Bidirectional => if local_newer && remote_newer {
                    Some(ActionView::Conflict { path: l.path })
                } else if local_newer {
                    Some(ActionView::Upload { path: l.path, size: l.size })
                } else if remote_newer {
                    Some(ActionView::Download { path: l.path, size: r.size })
                } else {
                    None
                },
            }
        },
    }
}

/// What to do about a path that only the remote side lists.
pub open spec fn remote_only_decision(dir: SyncDirection, r: EntryView) -> ActionView {
    match dir {
        SyncDirection::Push => ActionView::DeleteRemote { path: r.path },
        _ => ActionView::Download { path: r.path, size: r.size },
    }
}

pub open spec fn opt_seq(o: Option<ActionView>) -> Seq<ActionView> {
    match o {
        Some(a) => seq![a],
        None => Seq::empty(),
    }
}

/// The decisions on the local entries, in their order.
pub open spec fn local_pass(dir: SyncDirection, local: Seq<EntryView>, remote: Seq<EntryView>) -> Seq<ActionView>
    decreases local.len(),
{
    if local.len() == 0 {
        Seq::empty()
    } else {
        local_pass(dir, local.drop_last(), remote)
            + opt_seq(local_decision(dir, local.last(), lookup(remote, local.last().path)))
    }
}

/// The decisions on the remote entries that the local side does not list, in their order.
pub open spec fn remote_pass(dir: SyncDirection, local: Seq<EntryView>, remote: Seq<EntryView>) -> Seq<ActionView>
    decreases remote.len(),
{
    if remote.len() == 0 {
        Seq::empty()
    } else {
        remote_pass(dir, local, remote.drop_last()) + if lookup(local, remote.last().path) is Some {
            Seq::empty()
        } else {
            seq![remote_only_decision(dir, remote.last())]
        }
    }
}

/// The actions that reconcile two indexes: local-side decisions first, then the
/// paths that only the remote side has.
pub open spec fn plan_actions(dir: SyncDirection, local: Seq<EntryView>, remote: Seq<EntryView>) -> Seq<ActionView> {
    local_pass(dir, local, remote) + remote_pass(dir, local, remote)
}

/// Appends an action and counts it.
fn push_action(actions: &mut Vec<SyncAction>, stats: &mut PlanStats, a: SyncAction)
    requires
        old(stats).counts(actions_view(old(actions)@)),
        old(stats).total() == old(actions)@.len(),
    ensures
        actions_view(final(actions)@) == actions_view(old(actions)@).push(a@),
        final(stats).counts(actions_view(final(actions)@)),
        final(stats).total() == final(actions)@.len(),
{
    let ghost prev = actions_view(actions@);
    let ghost v = a@;
    actions.push(a);
    let len = actions.len();
    match &actions[len - 1] {
        SyncAction::Upload { .. } => stats.uploads = stats.uploads + 1,
        SyncAction::Download { .. } => stats.downloads = stats.downloads + 1,
        SyncAction::DeleteRemote { .. } => stats.deletes_remote = stats.deletes_remote + 1,
        SyncAction::DeleteLocal { .. } => stats.deletes_local = stats.deletes_local + 1,
        SyncAction::Conflict { .. } => stats.conflicts = stats.conflicts + 1,
    }
    assert(actions_view(actions@) =~= prev.push(v));
    assert(actions_view(actions@).drop_last() =~= prev);
}

/// Executable form of [`local_decision`].
fn decide_local(dir: SyncDirection, l: &FileEntry, r: Option<&FileEntry>) -> (o: Option<SyncAction>)
    ensures
        match o {
            Some(a) => local_decision(dir, l@, opt_entry_view(r)) == Some(a@),
            None => local_decision(dir, l@, opt_entry_view(r)) is None,
        },
{
    match r {
        None => match dir {
            SyncDirection::Pull => Some(SyncAction::DeleteLocal { rel_path: l.path.clone() }),
            _ => Some(SyncAction::Upload { rel_path: l.path.clone(), size: l.size }),
        },
        Some(r) => {
            let local_newer = newer(l.modified, r.modified);
            let remote_newer = newer(r.modified, l.modified);
            match dir {
                SyncDirection::Push => if local_newer {
                    Some(SyncAction::Upload { rel_path: l.path.clone(), size: l.size })
                } else {
                    None
                },
                SyncDirection::Pull => if remote_newer {
                    Some(SyncAction::Download { rel_path: l.path.clone(), size: r.size })
                } else {
                    None
                },
                SyncDirection::Bidirectional => if local_newer && remote_newer {
                    Some(SyncAction::Conflict { rel_path: l.path.clone() })
                } else if local_newer {
                    Some(SyncAction::Upload { rel_path: l.path.clone(), size: l.size })
                } else if remote_newer {
                    Some(SyncAction::Download { rel_path: l.path.clone(), size: r.size })
                } else {
                    None
                },
            }
        },
    }
}

pub open spec fn opt_entry_view(r: Option<&FileEntry>) -> Option<EntryView> {
    match r {
        Some(e) => Some(e@),
        None => None,
    }
}

/// Executable form of [`remote_only_decision`].
fn decide_remote_only(dir: SyncDirection, r: &FileEntry) -> (a: SyncAction)
    ensures
        a@ == remote_only_decision(dir, r@),
{
    match dir {
        SyncDirection::Push => SyncAction::DeleteRemote { rel_path: r.path.clone() },
        _ => SyncAction::Download { rel_path: r.path.clone(), size: r.size },
    }
}

/// Computes the actions that reconcile two indexes under a rule's direction, and their counts.
pub fn diff_actions(rule: &SyncRule, local_index: &FileIndex, remote_index: &FileIndex) -> (r: (Vec<SyncAction>, PlanStats))
    ensures
        actions_view(r.0@) == plan_actions(rule.direction, local_index@, remote_index@),
        r.1.counts(actions_view(r.0@)),
{
    let mut actions: Vec<SyncAction> = Vec::new();
    let mut stats = PlanStats::zero();
    let ghost ls = local_index@;
    let ghost rs = remote_index@;
    let dir = rule.direction;
    let locals = local_index.entries();
    let remotes = remote_index.entries();
    let mut k: usize = 0;
    proof {
        assert(actions_view(actions@) =~= Seq::<ActionView>::empty());
        assert(ls.take(0) =~= Seq::<EntryView>::empty());
    }
    while k < locals.len()
        invariant
            k <= locals@.len(),
            entries_view(locals@) == ls,
            entries_view(remotes@) == rs,
            ls == local_index@,
            rs == remote_index@,
            actions_view(actions@) == local_pass(dir, ls.take(k as int), rs),
            stats.counts(actions_view(actions@)),
            stats.total() == actions@.len(),
        decreases locals@.len() - k,
    {
        let l = &locals[k];
        let ghost before = actions_view(actions@);
        proof {
            assert(ls.take(k + 1).drop_last() =~= ls.take(k as int));
            assert(ls.take(k + 1).last() == l@);
        }
        let found = remote_index.get(l.path.as_str());
        let decision = decide_local(dir, l, found);
        match decision {
            Some(a) => push_action(&mut actions, &mut stats, a),
            None => {},
        }
        proof {
            let d = opt_seq(local_decision(dir, l@, lookup(rs, l@.path)));
            assert(actions_view(actions@) =~= before + d);
        }
        k = k + 1;
    }
    let ghost after_local = actions_view(actions@);
    proof {
        assert(ls.take(locals@.len() as int) =~= ls);
        assert(rs.take(0) =~= Seq::<EntryView>::empty());
        assert(after_local + Seq::<ActionView>::empty() =~= after_local);
    }
    let mut j: usize = 0;
    while j < remotes.len()
        invariant
            j <= remotes@.len(),
            entries_view(locals@) == ls,
            entries_view(remotes@) == rs,
            ls == local_index@,
            rs == remote_index@,
            after_local == local_pass(dir, ls, rs),
            actions_view(actions@) == after_local + remote_pass(dir, ls, rs.take(j as int)),
            stats.counts(actions_view(actions@)),
            stats.total() == actions@.len(),
        decreases remotes@.len() - j,
    {
        let r = &remotes[j];
        let ghost before = actions_view(actions@);
        proof {
            assert(rs.take(j + 1).drop_last() =~= rs.take(j as int));
            assert(rs.take(j + 1).last() == r@);
        }
        let present = local_index.get(r.path.as_str()).is_some();
        if !present {
            push_action(&mut actions, &mut stats, decide_remote_only(dir, r));
        }
        proof {
            let d = if lookup(ls, r@.path) is Some {
                Seq::<ActionView>::empty()
            } else {
                seq![remote_only_decision(dir, r@)]
            };
            assert(remote_pass(dir, ls, rs.take(j + 1)) == remote_pass(dir, ls, rs.take(j as int)) + d);
            assert(actions_view(actions@) =~= before + d);
            assert(actions_view(actions@) =~= after_local + remote_pass(dir, ls, rs.take(j + 1)));
        }
        j = j + 1;
    }
    proof {
        assert(rs.take(remotes@.len() as int) =~= rs);
    }
    (actions, stats)
}

} // verus!
