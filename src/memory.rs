//! A remote store held in memory, for tests and dry runs.

use vstd::prelude::*;
use crate::entries::{EntryKind, FileEntry};
use crate::paths::{is_relative_path, join_path, join_paths, lemma_join_injective};
use crate::clock::current_time_ns;
use crate::store::{lists_all_below, lists_below, lists_path, RemoteStore};

verus! {

/// One stored file.
struct MemoryFile {
    path: String,
    bytes: Vec<u8>,
    modified: u64,
}

impl MemoryFile {
    fn duplicate(&self) -> (r: Self)
        ensures
            r.path@ == self.path@,
            r.bytes@ == self.bytes@,
    {
        MemoryFile { path: self.path.clone(), bytes: copy_bytes(self.bytes.as_slice()), modified: self.modified }
    }
}

/// A copy of the bytes.
fn copy_bytes(b: &[u8]) -> (r: Vec<u8>)
    ensures
        r@ == b@,
{
    let mut out: Vec<u8> = Vec::new();
    let mut i: usize = 0;
    while i < b.len()
        invariant
            i <= b@.len(),
            out@ =~= b@.take(i as int),
        decreases b@.len() - i,
    {
        out.push(b[i]);
        i = i + 1;
    }
    out
}

/// The contents by path; where a path is stored twice, the later file counts.
spec fn files_map(s: Seq<MemoryFile>) -> Map<Seq<char>, Seq<u8>>
    decreases s.len(),
{
    if s.len() == 0 {
        Map::empty()
    } else {
        files_map(s.drop_last()).insert(s.last().path@, s.last().bytes@)
    }
}

/// Every stored path is in the map.
proof fn lemma_stored_paths(s: Seq<MemoryFile>)
    ensures
        forall|i: int| 0 <= i < s.len() ==> files_map(s).contains_key(#[trigger] s[i].path@),
    decreases s.len(),
{
    if s.len() > 0 {
        lemma_stored_paths(s.drop_last());
        assert forall|i: int| 0 <= i < s.len() implies files_map(s).contains_key(#[trigger] s[i].path@) by {
            if i < s.len() - 1 {
                assert(s.drop_last()[i] == s[i]);
            }
        }
    }
}

/// No later file stores the same path as the file at `i`.
spec fn last_of_path(s: Seq<MemoryFile>, i: int) -> bool {
    forall|j: int| i < j < s.len() ==> s[j].path@ != s[i].path@
}

/// A path in the map is stored by a file that no later file shadows, and such a
/// file holds the path's contents.
proof fn lemma_last_files(s: Seq<MemoryFile>)
    ensures
        forall|p: Seq<char>| #[trigger] files_map(s).contains_key(p) ==> exists|i: int|
            0 <= i < s.len() && s[i].path@ == p && last_of_path(s, i),
        forall|i: int| 0 <= i < s.len() && #[trigger] last_of_path(s, i) ==> files_map(s).contains_key(s[i].path@)
            && files_map(s)[s[i].path@] == s[i].bytes@,
    decreases s.len(),
{
    if s.len() > 0 {
        let t = s.drop_last();
        lemma_last_files(t);
        let n = s.len() - 1;
        assert forall|p: Seq<char>| #[trigger] files_map(s).contains_key(p) implies exists|i: int|
            0 <= i < s.len() && s[i].path@ == p && last_of_path(s, i) by {
            if p == s[n].path@ {
                assert(last_of_path(s, n));
                assert(0 <= n < s.len() && s[n].path@ == p && last_of_path(s, n));
            } else {
                assert(files_map(s) == files_map(t).insert(s[n].path@, s[n].bytes@));
                assert(files_map(t).contains_key(p));
                let i = choose|i: int| 0 <= i < t.len() && t[i].path@ == p && last_of_path(t, i);
                assert(s[i] == t[i]);
                assert forall|j: int| i < j < s.len() implies s[j].path@ != s[i].path@ by {
                    if j < n {
                        assert(s[j] == t[j]);
                    }
                }
                assert(0 <= i < s.len() && s[i].path@ == p && last_of_path(s, i));
            }
        }
        assert forall|i: int| 0 <= i < s.len() && #[trigger] last_of_path(s, i) implies files_map(s).contains_key(s[i].path@)
            && files_map(s)[s[i].path@] == s[i].bytes@ by {
            assert(files_map(s) == files_map(t).insert(s[n].path@, s[n].bytes@));
            if i < n {
                assert(s[i] == t[i]);
                assert(s[n].path@ != s[i].path@);
                assert forall|j: int| i < j < t.len() implies t[j].path@ != t[i].path@ by {
                    assert(s[j] == t[j]);
                }
                assert(last_of_path(t, i));
                assert(files_map(t).contains_key(t[i].path@) && files_map(t)[t[i].path@] == t[i].bytes@);
            }
        }
    }
}

/// A remote store whose files live in memory, keyed by full path.
pub struct InMemoryRemote {
    files: Vec<MemoryFile>,
}

impl InMemoryRemote {
    /// No file stored.
    pub fn new() -> (r: Self)
        ensures
            r.files() == Map::<Seq<char>, Seq<u8>>::empty(),
    {
        InMemoryRemote { files: Vec::new() }
    }

    /// The time a write is stamped with.
    fn now() -> (r: u64) {
        current_time_ns()
    }

    /// The position of the file that holds what is stored under `path`.
    fn position(&self, path: &String) -> (r: Option<usize>)
        ensures
            match r {
                Some(i) => i < self.files@.len() && self.files@[i as int].path@ == path@
                    && self.files().contains_key(path@) && self.files()[path@] == self.files@[i as int].bytes@,
                None => !self.files().contains_key(path@),
            },
    {
        let ghost s = self.files@;
        let mut i: usize = self.files.len();
        proof {
            assert(s.take(i as int) =~= s);
        }
        while i > 0
            invariant
                i <= s.len(),
                s == self.files@,
                files_map(s).contains_key(path@) == files_map(s.take(i as int)).contains_key(path@),
                files_map(s).contains_key(path@) ==> files_map(s)[path@] == files_map(s.take(i as int))[path@],
            decreases i,
        {
            proof {
                assert(s.take(i as int).drop_last() =~= s.take(i - 1));
            }
            if self.files[i - 1].path == *path {
                return Some(i - 1);
            }
            i = i - 1;
        }
        proof {
            assert(s.take(0) =~= Seq::<MemoryFile>::empty());
        }
        None
    }

    /// Whether a later file stores the same path as the file at `i`.
    fn shadowed(&self, i: usize) -> (r: bool)
        requires
            i < self.files@.len(),
        ensures
            r == !last_of_path(self.files@, i as int),
    {
        let n = self.files.len();
        let mut j: usize = i + 1;
        while j < n
            invariant
                i < j <= n,
                n == self.files@.len(),
                forall|k: int| i < k < j ==> self.files@[k].path@ != self.files@[i as int].path@,
            decreases n - j,
        {
            if self.files[j].path == self.files[i].path {
                return true;
            }
            j = j + 1;
        }
        false
    }

    /// Drops every file stored under `path`.
    fn remove_path(&mut self, path: &String)
        ensures
            final(self).files() == old(self).files().remove(path@),
    {
        let ghost s = self.files@;
        let mut out: Vec<MemoryFile> = Vec::new();
        let mut k: usize = 0;
        proof {
            assert(s.take(0) =~= Seq::<MemoryFile>::empty());
            assert(files_map(out@) =~= files_map(s.take(0)).remove(path@));
        }
        while k < self.files.len()
            invariant
                k <= s.len(),
                s == self.files@,
                files_map(out@) == files_map(s.take(k as int)).remove(path@),
            decreases s.len() - k,
        {
            let ghost before = out@;
            proof {
                assert(s.take(k + 1).drop_last() =~= s.take(k as int));
            }
            if self.files[k].path != *path {
                out.push(self.files[k].duplicate());
                assert(out@.drop_last() =~= before);
                assert(files_map(out@) =~= files_map(s.take(k + 1)).remove(path@));
            } else {
                assert(files_map(out@) =~= files_map(s.take(k + 1)).remove(path@));
            }
            k = k + 1;
        }
        proof {
            assert(s.take(s.len() as int) =~= s);
        }
        self.files = out;
    }
}

impl Default for InMemoryRemote {
    fn default() -> (r: Self)
        ensures
            r.files() == Map::<Seq<char>, Seq<u8>>::empty(),
    {
        InMemoryRemote::new()
    }
}

/// The path relative to `root` that names `path`, where there is one.
fn relative_to(root: &str, path: &str) -> (r: Option<String>)
    ensures
        r is Some ==> is_relative_path(r->Some_0@) && join_path(root@, r->Some_0@) == path@,
        r is None ==> forall|q: Seq<char>| is_relative_path(q) ==> join_path(root@, q) != path@,
{
    let rl = root.unicode_len();
    let pl = path.unicode_len();
    if rl == 0 {
        if pl > 0 && path.get_char(0) != '/' {
            return Some(path.to_owned());
        }
        return None;
    }
    if pl <= rl {
        proof {
            assert forall|q: Seq<char>| is_relative_path(q) implies join_path(root@, q) != path@ by {
                assert(join_path(root@, q).len() > root@.len());
            }
        }
        return None;
    }
    let head = path.substring_char(0, rl).to_owned();
    if head != root.to_owned() {
        proof {
            assert forall|q: Seq<char>| is_relative_path(q) implies join_path(root@, q) != path@ by {
                if join_path(root@, q) == path@ {
                    assert(path@.subrange(0, rl as int) =~= root@);
                }
            }
        }
        return None;
    }
    if root.get_char(rl - 1) == '/' {
        if path.get_char(rl) == '/' {
            proof {
                assert forall|q: Seq<char>| is_relative_path(q) implies join_path(root@, q) != path@ by {
                    if join_path(root@, q) == path@ {
                        assert(path@[rl as int] == q[0]);
                    }
                }
            }
            return None;
        }
        let rel = path.substring_char(rl, pl).to_owned();
        assert(root@ + rel@ =~= path@);
        Some(rel)
    } else {
        if path.get_char(rl) != '/' || pl <= rl + 1 || path.get_char(rl + 1) == '/' {
            proof {
                assert forall|q: Seq<char>| is_relative_path(q) implies join_path(root@, q) != path@ by {
                    if join_path(root@, q) == path@ {
                        assert(path@[rl as int] == '/');
                        assert(path@[rl + 1] == q[0]);
                    }
                }
            }
            return None;
        }
        let rel = path.substring_char(rl + 1, pl).to_owned();
        assert(root@ + seq!['/'] + rel@ =~= path@);
        Some(rel)
    }
}

impl RemoteStore for InMemoryRemote {
    closed spec fn files(&self) -> Map<Seq<char>, Seq<u8>> {
        files_map(self.files@)
    }

    open spec fn list_error(&self, root: Seq<char>) -> Option<Seq<char>> {
        None
    }

    /// Only a missing file cannot be read.
    open spec fn read_error(&self, path: Seq<char>) -> Option<Seq<char>> {
        if self.files().contains_key(path) {
            None
        } else {
            Some("remote missing "@ + path)
        }
    }

    open spec fn write_error(&self, path: Seq<char>) -> Option<Seq<char>> {
        None
    }

    open spec fn remove_error(&self, path: Seq<char>) -> Option<Seq<char>> {
        None
    }

    open spec fn dir_error(&self, path: Seq<char>) -> Option<Seq<char>> {
        None
    }

    fn list(&self, root: &str) -> (r: Result<Vec<FileEntry>, String>)
        ensures
            r is Ok,
    {
        proof {
            lemma_stored_paths(self.files@);
            lemma_last_files(self.files@);
        }
        let ghost s = self.files@;
        let mut out: Vec<FileEntry> = Vec::new();
        let mut i: usize = 0;
        while i < self.files.len()
            invariant
                i <= s.len(),
                s == self.files@,
                forall|j: int| 0 <= j < s.len() ==> files_map(s).contains_key(#[trigger] s[j].path@),
                forall|j: int| 0 <= j < s.len() && #[trigger] last_of_path(s, j) ==> files_map(s).contains_key(s[j].path@)
                    && files_map(s)[s[j].path@] == s[j].bytes@,
                forall|k: int| 0 <= k < out@.len() ==> lists_below(self.files(), root@, #[trigger] out@[k]@),
                forall|k: int| 0 <= k < out@.len() ==> (#[trigger] out@[k]).size as int == self.files()[join_path(root@, out@[k]@.path)].len(),
                forall|j: int, p: Seq<char>|
                    #![trigger s[j], join_path(root@, p)]
                    0 <= j < i && last_of_path(s, j) && is_relative_path(p) && s[j].path@ == join_path(root@, p) ==> lists_path(out@, p),
            decreases s.len() - i,
        {
            if !self.shadowed(i) {
                let f = &self.files[i];
                match relative_to(root, f.path.as_str()) {
                    Some(rel) => {
                        let ghost before = out@;
                        let e = FileEntry { path: rel, kind: EntryKind::File, size: f.bytes.len() as u64, modified: f.modified };
                        out.push(e);
                        proof {
                            assert(forall|k: int| 0 <= k < before.len() ==> out@[k] == before[k]);
                            assert(out@[before.len() as int] == e);
                            assert forall|j: int, p: Seq<char>|
                                #![trigger s[j], join_path(root@, p)]
                                0 <= j < i + 1 && last_of_path(s, j) && is_relative_path(p) && s[j].path@ == join_path(root@, p)
                                implies lists_path(out@, p) by {
                                if j < i {
                                    let k = choose|k: int| 0 <= k < before.len() && before[k]@.path == p;
                                    assert(out@[k] == before[k]);
                                } else {
                                    lemma_join_injective(root@, p, rel@);
                                    assert(out@[before.len() as int]@.path == p);
                                }
                            }
                        }
                    }
                    None => {}
                }
            }
            i = i + 1;
        }
        proof {
            assert forall|p: Seq<char>| is_relative_path(p) && #[trigger] self.files().contains_key(join_path(root@, p)) implies lists_path(out@, p) by {
                let j = choose|j: int| 0 <= j < s.len() && s[j].path@ == join_path(root@, p) && last_of_path(s, j);
            }
        }
        Ok(out)
    }

    fn read_file(&self, root: &str, rel_path: &str) -> (r: Result<Vec<u8>, String>)
        ensures
            r is Ok <==> self.files().contains_key(join_path(root@, rel_path@)),
    {
        let key = join_paths(root, rel_path);
        match self.position(&key) {
            Some(i) => Ok(copy_bytes(self.files[i].bytes.as_slice())),
            None => {
                let mut msg = String::from_str("remote missing ");
                msg.append(key.as_str());
                Err(msg)
            }
        }
    }

    fn write_file(&mut self, root: &str, rel_path: &str, bytes: &[u8]) -> (r: Result<(), String>)
        ensures
            r is Ok,
    {
        let key = join_paths(root, rel_path);
        let ghost before = self.files();
        self.remove_path(&key);
        let ghost s = self.files@;
        let file = MemoryFile { path: key, bytes: copy_bytes(bytes), modified: Self::now() };
        self.files.push(file);
        proof {
            assert(self.files@.drop_last() =~= s);
            assert(self.files() =~= before.insert(join_path(root@, rel_path@), bytes@));
        }
        Ok(())
    }

    fn remove_file(&mut self, root: &str, rel_path: &str) -> (r: Result<(), String>)
        ensures
            r is Ok,
    {
        let key = join_paths(root, rel_path);
        self.remove_path(&key);
        Ok(())
    }

    fn ensure_dir(&mut self, root: &str, rel_path: &str) -> (r: Result<(), String>)
        ensures
            r is Ok,
    {
        Ok(())
    }
}

} // verus!
