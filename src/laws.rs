//! Properties of planning that hold for every pair of indexes.

use vstd::prelude::*;
use crate::entries::{all_relative, lemma_lookup_unique, lookup, unique_paths, EntryView};
use crate::paths::is_relative_path;
use crate::model::SyncDirection;
use crate::plan::{
    is_newer, local_decision, local_pass, plan_actions, remote_only_decision, remote_pass,
    ActionView, PlanStats,
};

verus! {

/// Every action of the local pass comes from the decision on one local entry.
proof fn lemma_local_pass_origin(dir: SyncDirection, l: Seq<EntryView>, r: Seq<EntryView>, i: int)
    requires
        0 <= i < local_pass(dir, l, r).len(),
    ensures
        exists|k: int|
            0 <= k < l.len() && local_decision(dir, #[trigger] l[k], lookup(r, l[k].path)) == Some(
                local_pass(dir, l, r)[i],
            ),
    decreases l.len(),
{
    let prev = local_pass(dir, l.drop_last(), r);
    if i < prev.len() {
        lemma_local_pass_origin(dir, l.drop_last(), r, i);
        let k = choose|k: int|
            0 <= k < l.drop_last().len() && local_decision(dir, #[trigger] l.drop_last()[k], lookup(r, l.drop_last()[k].path))
                == Some(prev[i]);
        assert(l[k] == l.drop_last()[k]);
    } else {
        let k = l.len() - 1;
        assert(local_decision(dir, l[k], lookup(r, l[k].path)) == Some(local_pass(dir, l, r)[i]));
    }
}

/// Every action of the remote pass comes from a remote entry that the local side lacks.
proof fn lemma_remote_pass_origin(dir: SyncDirection, l: Seq<EntryView>, r: Seq<EntryView>, i: int)
    requires
        0 <= i < remote_pass(dir, l, r).len(),
    ensures
        exists|k: int|
            0 <= k < r.len() && lookup(l, r[k].path) is None && remote_only_decision(dir, #[trigger] r[k])
                == remote_pass(dir, l, r)[i],
    decreases r.len(),
{
    let prev = remote_pass(dir, l, r.drop_last());
    if i < prev.len() {
        lemma_remote_pass_origin(dir, l, r.drop_last(), i);
        let k = choose|k: int|
            0 <= k < r.drop_last().len() && lookup(l, r.drop_last()[k].path) is None
                && remote_only_decision(dir, #[trigger] r.drop_last()[k]) == prev[i];
        assert(r[k] == r.drop_last()[k]);
    } else {
        let k = r.len() - 1;
        assert(remote_only_decision(dir, r[k]) == remote_pass(dir, l, r)[i]);
    }
}

/// Each planned action comes either from a local entry or from a remote-only entry.
proof fn lemma_plan_origin(dir: SyncDirection, l: Seq<EntryView>, r: Seq<EntryView>, i: int)
    requires
        0 <= i < plan_actions(dir, l, r).len(),
    ensures
        (exists|k: int|
            0 <= k < l.len() && local_decision(dir, #[trigger] l[k], lookup(r, l[k].path)) == Some(
                plan_actions(dir, l, r)[i],
            )) || (exists|k: int|
            0 <= k < r.len() && lookup(l, r[k].path) is None && remote_only_decision(dir, #[trigger] r[k])
                == plan_actions(dir, l, r)[i]),
{
    let lp = local_pass(dir, l, r);
    if i < lp.len() {
        lemma_local_pass_origin(dir, l, r, i);
    } else {
        lemma_remote_pass_origin(dir, l, r, i - lp.len());
    }
}

/// Indexes of relative paths give plans of relative paths.
pub proof fn lemma_plan_paths_relative(dir: SyncDirection, l: Seq<EntryView>, r: Seq<EntryView>)
    requires
        all_relative(l),
        all_relative(r),
    ensures
        forall|i: int| 0 <= i < plan_actions(dir, l, r).len() ==> is_relative_path(#[trigger] plan_actions(dir, l, r)[i].path()),
{
    assert forall|i: int| 0 <= i < plan_actions(dir, l, r).len() implies is_relative_path(#[trigger] plan_actions(dir, l, r)[i].path()) by {
        lemma_plan_origin(dir, l, r, i);
        if exists|k: int| 0 <= k < l.len() && local_decision(dir, #[trigger] l[k], lookup(r, l[k].path)) == Some(plan_actions(dir, l, r)[i]) {
            let k = choose|k: int| 0 <= k < l.len() && local_decision(dir, #[trigger] l[k], lookup(r, l[k].path)) == Some(plan_actions(dir, l, r)[i]);
            assert(is_relative_path(l[k].path));
        } else {
            let k = choose|k: int| 0 <= k < r.len() && lookup(l, r[k].path) is None && remote_only_decision(dir, #[trigger] r[k]) == plan_actions(dir, l, r)[i];
            assert(is_relative_path(r[k].path));
        }
    }
}

/// Planning is a function of the two indexes and the direction: two plans of the
/// same indexes have the same actions and the same counts.
pub proof fn lemma_plan_is_pure(
    dir: SyncDirection,
    l: Seq<EntryView>,
    r: Seq<EntryView>,
    a1: Seq<ActionView>,
    s1: PlanStats,
    a2: Seq<ActionView>,
    s2: PlanStats,
)
    requires
        a1 == plan_actions(dir, l, r),
        a2 == plan_actions(dir, l, r),
        s1.counts(a1),
        s2.counts(a2),
    ensures
        a1 == a2,
        s1 == s2,
{
}

/// A one-way direction only moves data one way: Push never downloads or deletes
/// locally, Pull never uploads or deletes remotely, and neither reports a conflict.
pub proof fn lemma_one_way_directions(l: Seq<EntryView>, r: Seq<EntryView>)
    ensures
        forall|i: int|
            0 <= i < plan_actions(SyncDirection::Push, l, r).len() ==> {
                let a = #[trigger] plan_actions(SyncDirection::Push, l, r)[i];
                !(a is Download) && !(a is DeleteLocal) && !(a is Conflict)
            },
        forall|i: int|
            0 <= i < plan_actions(SyncDirection::Pull, l, r).len() ==> {
                let a = #[trigger] plan_actions(SyncDirection::Pull, l, r)[i];
                !(a is Upload) && !(a is DeleteRemote) && !(a is Conflict)
            },
{
    assert forall|i: int| 0 <= i < plan_actions(SyncDirection::Push, l, r).len() implies {
        let a = #[trigger] plan_actions(SyncDirection::Push, l, r)[i];
        !(a is Download) && !(a is DeleteLocal) && !(a is Conflict)
    } by {
        lemma_plan_origin(SyncDirection::Push, l, r, i);
    }
    assert forall|i: int| 0 <= i < plan_actions(SyncDirection::Pull, l, r).len() implies {
        let a = #[trigger] plan_actions(SyncDirection::Pull, l, r)[i];
        !(a is Upload) && !(a is DeleteRemote) && !(a is Conflict)
    } by {
        lemma_plan_origin(SyncDirection::Pull, l, r, i);
    }
}

/// Under Bidirectional, a Conflict names a path that both sides list, where each
/// side is newer than the other beyond the tolerated skew.
pub proof fn lemma_conflict_only_when_both_newer(l: Seq<EntryView>, r: Seq<EntryView>)
    ensures
        forall|i: int|
            0 <= i < plan_actions(SyncDirection::Bidirectional, l, r).len()
                && (#[trigger] plan_actions(SyncDirection::Bidirectional, l, r)[i]) is Conflict ==> exists|k: int|
                0 <= k < l.len() && (#[trigger] l[k]).path == plan_actions(SyncDirection::Bidirectional, l, r)[i].path()
                    && match lookup(r, l[k].path) {
                    Some(re) => is_newer(l[k].modified, re.modified) && is_newer(re.modified, l[k].modified),
                    None => false,
                },
{
    let d = SyncDirection::Bidirectional;
    assert forall|i: int|
        0 <= i < plan_actions(d, l, r).len() && (#[trigger] plan_actions(d, l, r)[i]) is Conflict implies exists|k: int|
        0 <= k < l.len() && (#[trigger] l[k]).path == plan_actions(d, l, r)[i].path() && match lookup(r, l[k].path) {
            Some(re) => is_newer(l[k].modified, re.modified) && is_newer(re.modified, l[k].modified),
            None => false,
        } by {
        lemma_plan_origin(d, l, r, i);
        if exists|k: int| 0 <= k < l.len() && local_decision(d, #[trigger] l[k], lookup(r, l[k].path)) == Some(plan_actions(d, l, r)[i]) {
            let k = choose|k: int| 0 <= k < l.len() && local_decision(d, #[trigger] l[k], lookup(r, l[k].path)) == Some(plan_actions(d, l, r)[i]);
            assert(l[k].path == plan_actions(d, l, r)[i].path());
        }
    }
}

/// Under Bidirectional, with indexes of one entry per path, a Conflict names a path
/// that both indexes hold, each entry newer than the other beyond the tolerated skew.
pub proof fn lemma_conflict_paths_both_newer(l: Seq<EntryView>, r: Seq<EntryView>)
    requires
        unique_paths(l),
    ensures
        forall|i: int|
            0 <= i < plan_actions(SyncDirection::Bidirectional, l, r).len()
                && (#[trigger] plan_actions(SyncDirection::Bidirectional, l, r)[i]) is Conflict ==> {
                let p = plan_actions(SyncDirection::Bidirectional, l, r)[i].path();
                match (lookup(l, p), lookup(r, p)) {
                    (Some(le), Some(re)) => is_newer(le.modified, re.modified) && is_newer(re.modified, le.modified),
                    _ => false,
                }
            },
{
    let d = SyncDirection::Bidirectional;
    lemma_conflict_only_when_both_newer(l, r);
    assert forall|i: int|
        0 <= i < plan_actions(d, l, r).len() && (#[trigger] plan_actions(d, l, r)[i]) is Conflict implies {
            let p = plan_actions(d, l, r)[i].path();
            match (lookup(l, p), lookup(r, p)) {
                (Some(le), Some(re)) => is_newer(le.modified, re.modified) && is_newer(re.modified, le.modified),
                _ => false,
            }
        } by {
        let k = choose|k: int|
            0 <= k < l.len() && (#[trigger] l[k]).path == plan_actions(d, l, r)[i].path() && match lookup(r, l[k].path) {
                Some(re) => is_newer(l[k].modified, re.modified) && is_newer(re.modified, l[k].modified),
                None => false,
            };
        lemma_lookup_unique(l, k);
    }
}

/// Two indexes that agree: the same paths on both sides, and no side newer than
/// the other beyond the tolerated skew.
pub open spec fn in_agreement(l: Seq<EntryView>, r: Seq<EntryView>) -> bool {
    &&& forall|k: int| 0 <= k < l.len() ==> match lookup(r, (#[trigger] l[k]).path) {
        Some(re) => !is_newer(l[k].modified, re.modified) && !is_newer(re.modified, l[k].modified),
        None => false,
    }
    &&& forall|k: int| 0 <= k < r.len() ==> lookup(l, (#[trigger] r[k]).path) is Some
}

/// Once the two sides agree, planning again finds nothing to do, in every direction,
/// and every count of the new plan is zero.
pub proof fn lemma_agreeing_sides_plan_nothing(dir: SyncDirection, l: Seq<EntryView>, r: Seq<EntryView>)
    requires
        in_agreement(l, r),
    ensures
        plan_actions(dir, l, r) == Seq::<ActionView>::empty(),
        forall|s: PlanStats| s.counts(plan_actions(dir, l, r)) ==> s.total() == 0,
{
    if plan_actions(dir, l, r).len() > 0 {
        lemma_plan_origin(dir, l, r, 0);
        if exists|k: int| 0 <= k < l.len() && local_decision(dir, #[trigger] l[k], lookup(r, l[k].path)) == Some(plan_actions(dir, l, r)[0]) {
            let k = choose|k: int| 0 <= k < l.len() && local_decision(dir, #[trigger] l[k], lookup(r, l[k].path)) == Some(plan_actions(dir, l, r)[0]);
            assert(lookup(r, l[k].path) is Some);
        } else {
            let k = choose|k: int| 0 <= k < r.len() && lookup(l, r[k].path) is None && remote_only_decision(dir, #[trigger] r[k]) == plan_actions(dir, l, r)[0];
            assert(lookup(l, r[k].path) is Some);
        }
    }
    assert(plan_actions(dir, l, r) =~= Seq::<ActionView>::empty());
}

} // verus!
