//! Which target a changed local path belongs to.

use vstd::prelude::*;
use crate::model::TargetId;

verus! {

/// The local roots watched for one target.
pub struct WatchTarget {
    pub target_id: TargetId,
    pub roots: Vec<String>,
}

/// Something changed under a root of the target.
#[derive(Clone, Copy, PartialEq, Eq, Debug, Structural)]
pub struct WatchEvent {
    pub target_id: TargetId,
}

/// `path` lies at or below `root`, whole components only: `/a/b` lies below `/a`,
/// `/ab` does not.
pub open spec fn path_below(path: Seq<char>, root: Seq<char>) -> bool {
    ||| root.len() == 0
    ||| path == root
    ||| (path.len() > root.len() && path.take(root.len() as int) == root && (root.last() == '/'
        || path[root.len() as int] == '/'))
}

/// Executable form of [`path_below`].
pub fn is_below(path: &str, root: &str) -> (r: bool)
    ensures
        r == path_below(path@, root@),
{
    let rl = root.unicode_len();
    let pl = path.unicode_len();
    if rl == 0 {
        return true;
    }
    let p = path.to_owned();
    let r = root.to_owned();
    if p == r {
        return true;
    }
    if pl <= rl {
        return false;
    }
    let head = path.substring_char(0, rl).to_owned();
    if head != r {
        return false;
    }
    root.get_char(rl - 1) == '/' || path.get_char(rl) == '/'
}

/// The position of the first pair whose root holds `path`.
pub open spec fn first_match_from(roots: Seq<(Seq<char>, TargetId)>, path: Seq<char>, i: int) -> Option<int>
    decreases roots.len() - i,
{
    if i < 0 || i >= roots.len() {
        None
    } else if path_below(path, roots[i].0) {
        Some(i)
    } else {
        first_match_from(roots, path, i + 1)
    }
}

pub open spec fn roots_view(roots: Seq<(String, TargetId)>) -> Seq<(Seq<char>, TargetId)> {
    roots.map_values(|r: (String, TargetId)| (r.0@, r.1))
}

/// The target of the first root, in order, that holds `path`.
pub fn match_target(roots: &Vec<(String, TargetId)>, path: &str) -> (r: Option<TargetId>)
    ensures
        match first_match_from(roots_view(roots@), path@, 0) {
            Some(i) => r == Some(roots@[i].1),
            None => r is None,
        },
{
    let ghost rv = roots_view(roots@);
    let mut i: usize = 0;
    while i < roots.len()
        invariant
            i <= roots@.len(),
            rv == roots_view(roots@),
            first_match_from(rv, path@, i as int) == first_match_from(rv, path@, 0),
        decreases roots@.len() - i,
    {
        if is_below(path, roots[i].0.as_str()) {
            return Some(roots[i].1);
        }
        i = i + 1;
    }
    None
}

/// `root` is one of the roots of a target with id `id`.
pub open spec fn watched_root(targets: Seq<WatchTarget>, root: Seq<char>, id: TargetId) -> bool {
    exists|a: int, b: int|
        0 <= a < targets.len() && 0 <= b < targets[a].roots@.len() && #[trigger] targets[a].roots@[b]@ == root
            && targets[a].target_id == id
}

/// Each root of each target, paired with its target.
pub fn watch_roots(targets: &Vec<WatchTarget>) -> (r: Vec<(String, TargetId)>)
    ensures
        forall|k: int| 0 <= k < r@.len() ==> watched_root(targets@, (#[trigger] r@[k]).0@, r@[k].1),
{
    let mut out: Vec<(String, TargetId)> = Vec::new();
    let mut t: usize = 0;
    while t < targets.len()
        invariant
            t <= targets@.len(),
            forall|k: int| 0 <= k < out@.len() ==> watched_root(targets@, (#[trigger] out@[k]).0@, out@[k].1),
        decreases targets@.len() - t,
    {
        let target = &targets[t];
        let mut j: usize = 0;
        while j < target.roots.len()
            invariant
                t < targets@.len(),
                *target == targets@[t as int],
                j <= target.roots@.len(),
                forall|k: int| 0 <= k < out@.len() ==> watched_root(targets@, (#[trigger] out@[k]).0@, out@[k].1),
            decreases target.roots@.len() - j,
        {
            let ghost before = out@;
            let root = target.roots[j].clone();
            out.push((root, target.target_id));
            proof {
                assert(targets@[t as int].roots@[j as int]@ == root@);
                assert forall|k: int| 0 <= k < out@.len() implies watched_root(targets@, (#[trigger] out@[k]).0@, out@[k].1) by {
                    if k < before.len() {
                        assert(out@[k] == before[k]);
                    }
                }
            }
            j = j + 1;
        }
        t = t + 1;
    }
    out
}

} // verus!
