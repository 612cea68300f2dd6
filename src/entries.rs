//! File entries as a listing yields them, and the index built from a listing.

use vstd::prelude::*;
use crate::paths::is_relative_path;

verus! {

/// What a listed entry is.
#[derive(Clone, Copy, PartialEq, Eq, Debug, Structural)]
pub enum EntryKind {
    File,
    Directory,
}

/// One entry found below a root.
pub struct FileEntry {
    /// The entry's path relative to the root it was listed under.
    pub path: String,
    pub kind: EntryKind,
    /// Length in bytes.
    pub size: u64,
    /// Last modification, in nanoseconds since the Unix epoch.
    pub modified: u64,
}

/// The mathematical value of a [`FileEntry`].
pub struct EntryView {
    pub path: Seq<char>,
    pub kind: EntryKind,
    pub size: u64,
    pub modified: u64,
}

impl View for FileEntry {
    type V = EntryView;

    open spec fn view(&self) -> EntryView {
        EntryView { path: self.path@, kind: self.kind, size: self.size, modified: self.modified }
    }
}

impl Clone for FileEntry {
    fn clone(&self) -> (r: Self)
        ensures
            r@ == self@,
    {
        FileEntry { path: self.path.clone(), kind: self.kind, size: self.size, modified: self.modified }
    }
}

/// The views of a sequence of entries.
pub open spec fn entries_view(s: Seq<FileEntry>) -> Seq<EntryView> {
    s.map_values(|e: FileEntry| e@)
}

/// No two entries share a path.
pub open spec fn unique_paths(s: Seq<EntryView>) -> bool {
    forall|i: int, j: int| 0 <= i < j < s.len() ==> s[i].path != s[j].path
}

/// The position of the last entry with path `p`.
pub open spec fn position_of(s: Seq<EntryView>, p: Seq<char>) -> Option<int>
    decreases s.len(),
{
    if s.len() == 0 {
        None
    } else if s.last().path == p {
        Some(s.len() - 1)
    } else {
        position_of(s.drop_last(), p)
    }
}

/// The last entry with path `p`.
pub open spec fn lookup(s: Seq<EntryView>, p: Seq<char>) -> Option<EntryView> {
    match position_of(s, p) {
        Some(i) => Some(s[i]),
        None => None,
    }
}

/// The index of a listing: one entry per path, in the order in which paths first
/// appear; where a path appears more than once, its last entry counts.
pub open spec fn index_of(s: Seq<EntryView>) -> Seq<EntryView>
    decreases s.len(),
{
    if s.len() == 0 {
        Seq::empty()
    } else {
        let prev = index_of(s.drop_last());
        match position_of(prev, s.last().path) {
            Some(i) => prev.update(i, s.last()),
            None => prev.push(s.last()),
        }
    }
}

/// `position_of` finds an entry with the path, and only where there is one.
pub proof fn lemma_position_of(s: Seq<EntryView>, p: Seq<char>)
    ensures
        match position_of(s, p) {
            Some(i) => 0 <= i < s.len() && s[i].path == p,
            None => forall|j: int| 0 <= j < s.len() ==> s[j].path != p,
        },
    decreases s.len(),
{
    if s.len() > 0 {
        lemma_position_of(s.drop_last(), p);
        if s.last().path != p {
            assert forall|j: int| 0 <= j < s.len() - 1 implies s[j] == s.drop_last()[j] by {}
        }
    }
}

/// In a sequence without repeated paths, the entry with a path is found at its position.
pub proof fn lemma_lookup_unique(s: Seq<EntryView>, k: int)
    requires
        unique_paths(s),
        0 <= k < s.len(),
    ensures
        lookup(s, s[k].path) == Some(s[k]),
{
    lemma_position_of(s, s[k].path);
    match position_of(s, s[k].path) {
        Some(i) => {
            if i != k {
                if i < k {
                    assert(s[i].path != s[k].path);
                } else {
                    assert(s[k].path != s[i].path);
                }
            }
        },
        None => {},
    }
}

/// Every path of `s` is relative.
pub open spec fn all_relative(s: Seq<EntryView>) -> bool {
    forall|i: int| 0 <= i < s.len() ==> is_relative_path(#[trigger] s[i].path)
}

/// Indexing keeps paths relative.
pub proof fn lemma_index_relative(s: Seq<EntryView>)
    requires
        all_relative(s),
    ensures
        all_relative(index_of(s)),
    decreases s.len(),
{
    if s.len() > 0 {
        let t = s.drop_last();
        assert(all_relative(t)) by {
            assert forall|i: int| 0 <= i < t.len() implies is_relative_path(#[trigger] t[i].path) by {
                assert(t[i] == s[i]);
            }
        }
        lemma_index_relative(t);
        let prev = index_of(t);
        assert(is_relative_path(s[s.len() - 1].path));
        match position_of(prev, s.last().path) {
            Some(i) => {
                lemma_position_of(prev, s.last().path);
                assert forall|k: int| 0 <= k < index_of(s).len() implies is_relative_path(#[trigger] index_of(s)[k].path) by {
                    if k != i {
                        assert(index_of(s)[k] == prev[k]);
                    }
                }
            },
            None => {
                assert forall|k: int| 0 <= k < index_of(s).len() implies is_relative_path(#[trigger] index_of(s)[k].path) by {
                    if k < prev.len() {
                        assert(index_of(s)[k] == prev[k]);
                    }
                }
            },
        }
    }
}

/// A listing reduced to one entry per path.
pub struct FileIndex {
    entries: Vec<FileEntry>,
}

impl FileIndex {
    /// No two entries share a path.
    #[verifier::type_invariant]
    spec fn inv(&self) -> bool {
        unique_paths(entries_view(self.entries@))
    }
}

impl View for FileIndex {
    type V = Seq<EntryView>;

    closed spec fn view(&self) -> Seq<EntryView> {
        entries_view(self.entries@)
    }
}

impl Clone for FileIndex {
    fn clone(&self) -> (r: Self)
        ensures
            r@ == self@,
    {
        proof {
            use_type_invariant(self);
        }
        let mut out: Vec<FileEntry> = Vec::new();
        let mut k: usize = 0;
        while k < self.entries.len()
            invariant
                k <= self.entries@.len(),
                entries_view(out@) =~= entries_view(self.entries@).take(k as int),
            decreases self.entries@.len() - k,
        {
            let e = self.entries[k].clone();
            let ghost prev = out@;
            out.push(e);
            assert(entries_view(out@) =~= entries_view(prev).push(e@));
            k = k + 1;
        }
        assert(entries_view(out@) =~= entries_view(self.entries@));
        FileIndex { entries: out }
    }
}

impl FileIndex {
    /// The entries, one per path.
    pub fn entries(&self) -> (r: &Vec<FileEntry>)
        ensures
            entries_view(r@) == self@,
            unique_paths(self@),
    {
        proof {
            use_type_invariant(self);
        }
        &self.entries
    }

    pub fn len(&self) -> (r: usize)
        ensures
            r == self@.len(),
            unique_paths(self@),
    {
        proof {
            use_type_invariant(self);
        }
        self.entries.len()
    }

    /// The entry with the given path, if there is one.
    pub fn get(&self, path: &str) -> (r: Option<&FileEntry>)
        ensures
            match lookup(self@, path@) {
                Some(e) => r is Some && r->Some_0@ == e,
                None => r is None,
            },
    {
        let key = path.to_owned();
        proof {
            lemma_position_of(self@, path@);
        }
        match find_position(&self.entries, &key) {
            Some(i) => {
                assert(self@[i as int] == self.entries@[i as int]@);
                Some(&self.entries[i])
            },
            None => None,
        }
    }
}

/// Executable form of [`position_of`].
fn find_position(v: &Vec<FileEntry>, path: &String) -> (r: Option<usize>)
    ensures
        match r {
            Some(i) => position_of(entries_view(v@), path@) == Some(i as int),
            None => position_of(entries_view(v@), path@) is None,
        },
{
    let ghost s = entries_view(v@);
    let mut i: usize = v.len();
    proof {
        assert(s.subrange(0, i as int) =~= s);
    }
    while i > 0
        invariant
            i <= v@.len(),
            s == entries_view(v@),
            position_of(s.subrange(0, i as int), path@) == position_of(s, path@),
        decreases i,
    {
        let ghost t = s.subrange(0, i as int);
        proof {
            assert(t.drop_last() =~= s.subrange(0, i - 1));
        }
        if v[i - 1].path == *path {
            return Some(i - 1);
        }
        i = i - 1;
    }
    proof {
        assert(s.subrange(0, 0) =~= Seq::<EntryView>::empty());
    }
    None
}

/// Builds the index of a listing (see [`index_of`]).
pub fn index_entries(entries: Vec<FileEntry>) -> (r: FileIndex)
    ensures
        r@ == index_of(entries_view(entries@)),
        unique_paths(r@),
{
    let ghost s = entries_view(entries@);
    let mut out: Vec<FileEntry> = Vec::new();
    let mut k: usize = 0;
    proof {
        assert(s.take(0) =~= Seq::<EntryView>::empty());
    }
    while k < entries.len()
        invariant
            k <= entries@.len(),
            s == entries_view(entries@),
            entries_view(out@) == index_of(s.take(k as int)),
            unique_paths(entries_view(out@)),
        decreases entries@.len() - k,
    {
        let e = entries[k].clone();
        let ghost prev = entries_view(out@);
        proof {
            assert(s.take(k + 1).drop_last() =~= s.take(k as int));
            assert(s.take(k + 1).last() == s[k as int]);
            lemma_position_of(prev, e@.path);
        }
        match find_position(&out, &e.path) {
            Some(i) => {
                assert(position_of(prev, e@.path) == Some(i as int));
                assert(prev[i as int].path == e@.path);
                out.set(i, e);
                assert(entries_view(out@) =~= prev.update(i as int, s[k as int]));
            }
            None => {
                out.push(e);
                assert(entries_view(out@) =~= prev.push(s[k as int]));
            }
        }
        k = k + 1;
    }
    proof {
        assert(s.take(entries@.len() as int) =~= s);
    }
    FileIndex { entries: out }
}

} // verus!
