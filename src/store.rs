//! The two storage capabilities that planning and execution are written against.

use vstd::prelude::*;
use crate::entries::{EntryView, FileEntry};
use crate::paths::{is_relative_path, join_path};

verus! {

/// `e` stands for a file of `files` below `root`.
pub open spec fn lists_below(files: Map<Seq<char>, Seq<u8>>, root: Seq<char>, e: EntryView) -> bool {
    is_relative_path(e.path) && files.contains_key(join_path(root, e.path))
}

/// `v` has an entry with path `p`.
pub open spec fn lists_path(v: Seq<FileEntry>, p: Seq<char>) -> bool {
    exists|i: int| 0 <= i < v.len() && v[i]@.path == p
}

/// `v` lists every file of `files` below `root`, each with its length as size.
pub open spec fn lists_all_below(files: Map<Seq<char>, Seq<u8>>, root: Seq<char>, v: Seq<FileEntry>) -> bool {
    &&& forall|p: Seq<char>| is_relative_path(p) && #[trigger] files.contains_key(join_path(root, p)) ==> lists_path(v, p)
    &&& forall|i: int| 0 <= i < v.len() ==> (#[trigger] v[i]).size as int == files[join_path(root, v[i]@.path)].len()
}

/// `r` succeeds where `e` names no error, and fails with `e` where it does.
pub open spec fn outcome_is<T>(r: Result<T, String>, e: Option<Seq<char>>) -> bool {
    match e {
        None => r is Ok,
        Some(m) => r is Err && r->Err_0@ == m,
    }
}

/// The local side: a tree of files reached by root and relative path.
pub trait LocalStore {
    /// The files the store holds, by full path, and their contents. A store that
    /// does not describe its files leaves them unspecified.
    closed spec fn files(&self) -> Map<Seq<char>, Seq<u8>> {
        arbitrary()
    }

    /// Why listing `root` fails, where it does.
    closed spec fn list_error(&self, root: Seq<char>) -> Option<Seq<char>> {
        arbitrary()
    }

    /// Why reading the file at full path `path` fails, where it does.
    closed spec fn read_error(&self, path: Seq<char>) -> Option<Seq<char>> {
        arbitrary()
    }

    /// Why writing the file at full path `path` fails, where it does.
    closed spec fn write_error(&self, path: Seq<char>) -> Option<Seq<char>> {
        arbitrary()
    }

    /// Why removing the file at full path `path` fails, where it does.
    closed spec fn remove_error(&self, path: Seq<char>) -> Option<Seq<char>> {
        arbitrary()
    }

    /// Why creating the directory at full path `path` fails, where it does.
    closed spec fn dir_error(&self, path: Seq<char>) -> Option<Seq<char>> {
        arbitrary()
    }

    /// The files below `root`, with paths relative to it: each of them once, with
    /// its length.
    fn list(&self, root: &str) -> (r: Result<Vec<FileEntry>, String>)
        ensures
            outcome_is(r, self.list_error(root@)),
            r is Ok ==> forall|i: int|
                0 <= i < r->Ok_0@.len() ==> lists_below(self.files(), root@, #[trigger] r->Ok_0@[i]@),
            r is Ok ==> lists_all_below(self.files(), root@, r->Ok_0@),
    ;

    fn read_file(&self, root: &str, rel_path: &str) -> (r: Result<Vec<u8>, String>)
        ensures
            outcome_is(r, self.read_error(join_path(root@, rel_path@))),
            r is Ok ==> self.files().contains_key(join_path(root@, rel_path@)) && r->Ok_0@ == self.files()[join_path(
                root@,
                rel_path@,
            )],
    ;

    fn write_file(&mut self, root: &str, rel_path: &str, bytes: &[u8]) -> (r: Result<(), String>)
        ensures
            outcome_is(r, old(self).write_error(join_path(root@, rel_path@))),
            r is Ok ==> final(self).files() == old(self).files().insert(join_path(root@, rel_path@), bytes@),
    ;

    /// Removing a file that is already absent succeeds.
    fn remove_file(&mut self, root: &str, rel_path: &str) -> (r: Result<(), String>)
        ensures
            outcome_is(r, old(self).remove_error(join_path(root@, rel_path@))),
            !old(self).files().contains_key(join_path(root@, rel_path@)) ==> r is Ok,
            r is Ok ==> final(self).files() == old(self).files().remove(join_path(root@, rel_path@)),
    ;

    /// Creates the directory and its missing ancestors; files, and whether a write
    /// succeeds, are left as they were.
    fn ensure_dir(&mut self, root: &str, rel_path: &str) -> (r: Result<(), String>)
        ensures
            outcome_is(r, old(self).dir_error(join_path(root@, rel_path@))),
            final(self).files() == old(self).files(),
            forall|p: Seq<char>| #[trigger] final(self).write_error(p) == old(self).write_error(p),
    ;
}

/// The remote side, with the same five operations as the local one.
pub trait RemoteStore {
    /// The files the store holds, by full path, and their contents. A store that
    /// does not describe its files leaves them unspecified.
    closed spec fn files(&self) -> Map<Seq<char>, Seq<u8>> {
        arbitrary()
    }

    /// Why listing `root` fails, where it does.
    closed spec fn list_error(&self, root: Seq<char>) -> Option<Seq<char>> {
        arbitrary()
    }

    /// Why reading the file at full path `path` fails, where it does.
    closed spec fn read_error(&self, path: Seq<char>) -> Option<Seq<char>> {
        arbitrary()
    }

    /// Why writing the file at full path `path` fails, where it does.
    closed spec fn write_error(&self, path: Seq<char>) -> Option<Seq<char>> {
        arbitrary()
    }

    /// Why removing the file at full path `path` fails, where it does.
    closed spec fn remove_error(&self, path: Seq<char>) -> Option<Seq<char>> {
        arbitrary()
    }

    /// Why creating the directory at full path `path` fails, where it does.
    closed spec fn dir_error(&self, path: Seq<char>) -> Option<Seq<char>> {
        arbitrary()
    }

    /// The files below `root`, with paths relative to it: each of them once, with
    /// its length.
    fn list(&self, root: &str) -> (r: Result<Vec<FileEntry>, String>)
        ensures
            outcome_is(r, self.list_error(root@)),
            r is Ok ==> forall|i: int|
                0 <= i < r->Ok_0@.len() ==> lists_below(self.files(), root@, #[trigger] r->Ok_0@[i]@),
            r is Ok ==> lists_all_below(self.files(), root@, r->Ok_0@),
    ;

    fn read_file(&self, root: &str, rel_path: &str) -> (r: Result<Vec<u8>, String>)
        ensures
            outcome_is(r, self.read_error(join_path(root@, rel_path@))),
            r is Ok ==> self.files().contains_key(join_path(root@, rel_path@)) && r->Ok_0@ == self.files()[join_path(
                root@,
                rel_path@,
            )],
    ;

    fn write_file(&mut self, root: &str, rel_path: &str, bytes: &[u8]) -> (r: Result<(), String>)
        ensures
            outcome_is(r, old(self).write_error(join_path(root@, rel_path@))),
            r is Ok ==> final(self).files() == old(self).files().insert(join_path(root@, rel_path@), bytes@),
    ;

    fn remove_file(&mut self, root: &str, rel_path: &str) -> (r: Result<(), String>)
        ensures
            outcome_is(r, old(self).remove_error(join_path(root@, rel_path@))),
            r is Ok ==> final(self).files() == old(self).files().remove(join_path(root@, rel_path@)),
    ;

    /// Creates the directory and its missing ancestors; files, and whether a write
    /// succeeds, are left as they were.
    fn ensure_dir(&mut self, root: &str, rel_path: &str) -> (r: Result<(), String>)
        ensures
            outcome_is(r, old(self).dir_error(join_path(root@, rel_path@))),
            final(self).files() == old(self).files(),
            forall|p: Seq<char>| #[trigger] final(self).write_error(p) == old(self).write_error(p),
    ;
}

} // verus!
