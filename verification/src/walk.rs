//! Walking a directory tree for its files.
//!
//! The walk keeps the directories that are still to be listed and the files
//! found so far.  The caller lists one directory at a time and reports its
//! entries.

use vstd::prelude::*;
use crate::llm::texts;

verus! {

/// One entry of a directory listing.
#[derive(Debug)]
pub struct DirEntry {
    pub path: String,
    pub is_file: bool,
    pub is_dir: bool,
}

/// What a `DirEntry` holds.
pub struct DirEntryView {
    pub path: Seq<char>,
    pub is_file: bool,
    pub is_dir: bool,
}

impl View for DirEntry {
    type V = DirEntryView;

    open spec fn view(&self) -> DirEntryView {
        DirEntryView { path: self.path@, is_file: self.is_file, is_dir: self.is_dir }
    }
}

/// The views of a listing.
pub open spec fn entry_views(entries: Seq<DirEntry>) -> Seq<DirEntryView> {
    entries.map_values(|e: DirEntry| e@)
}

/// The paths of the files among `entries`, in order.
pub open spec fn file_paths(entries: Seq<DirEntryView>) -> Seq<Seq<char>>
    decreases entries.len(),
{
    if entries.len() == 0 {
        Seq::empty()
    } else if entries.last().is_file {
        file_paths(entries.drop_last()).push(entries.last().path)
    } else {
        file_paths(entries.drop_last())
    }
}

/// The paths of the directories among `entries`, in order.
pub open spec fn dir_paths(entries: Seq<DirEntryView>) -> Seq<Seq<char>>
    decreases entries.len(),
{
    if entries.len() == 0 {
        Seq::empty()
    } else if entries.last().is_dir {
        dir_paths(entries.drop_last()).push(entries.last().path)
    } else {
        dir_paths(entries.drop_last())
    }
}

/// A walk in progress.
#[derive(Debug)]
pub struct FileWalk {
    /// The directories still to be listed; the last is listed next.
    pub stack: Vec<String>,
    /// The files found so far.
    pub files: Vec<String>,
}

/// What a `FileWalk` holds.
pub struct FileWalkView {
    pub stack: Seq<Seq<char>>,
    pub files: Seq<Seq<char>>,
}

impl View for FileWalk {
    type V = FileWalkView;

    open spec fn view(&self) -> FileWalkView {
        FileWalkView { stack: texts(self.stack@), files: texts(self.files@) }
    }
}

impl FileWalk {
    /// A walk that has only its root to list.
    pub fn new(root: &str) -> (walk: FileWalk)
        ensures
            walk@.stack == seq![root@],
            walk@.files == Seq::<Seq<char>>::empty(),
    {
        let mut stack: Vec<String> = Vec::new();
        stack.push(root.to_owned());
        let walk = FileWalk { stack, files: Vec::new() };
        assert(walk@.stack =~= seq![root@]);
        assert(walk@.files =~= Seq::<Seq<char>>::empty());
        walk
    }

    /// Takes the directory to list next off the stack: the one put there
    /// last.  Nothing is left to list once the stack is empty.
    pub fn next_dir(&mut self) -> (dir: Option<String>)
        ensures
            final(self)@.files == old(self)@.files,
            match dir {
                Some(path) => old(self)@.stack.len() > 0 && path@ == old(self)@.stack.last()
                    && final(self)@.stack == old(self)@.stack.drop_last(),
                None => old(self)@.stack.len() == 0 && final(self)@.stack == old(self)@.stack,
            },
    {
        let ghost before = self.stack@;
        let dir = self.stack.pop();
        assert(dir is Some ==> texts(self.stack@) =~= texts(before).drop_last());
        dir
    }

    /// Takes in the listing of a directory: its files are found, its
    /// directories are to be listed, both in the order of the listing.
    pub fn visit(&mut self, entries: Vec<DirEntry>)
        ensures
            final(self)@.files == old(self)@.files + file_paths(entry_views(entries@)),
            final(self)@.stack == old(self)@.stack + dir_paths(entry_views(entries@)),
    {
        let ghost all = entry_views(entries@);
        let ghost before = self@;
        let mut at: usize = 0;
        assert(all.take(0) =~= Seq::empty());
        assert(before.files + file_paths(all.take(0)) =~= before.files);
        assert(before.stack + dir_paths(all.take(0)) =~= before.stack);
        while at < entries.len()
            invariant
                at <= entries.len(),
                all == entry_views(entries@),
                self@.files == before.files + file_paths(all.take(at as int)),
                self@.stack == before.stack + dir_paths(all.take(at as int)),
            decreases entries.len() - at,
        {
            let ghost files = self.files@;
            let ghost stack = self.stack@;
            assert(all.take(at + 1).drop_last() =~= all.take(at as int));
            assert(all.take(at + 1).last() == entries[at as int]@);
            if entries[at].is_file {
                self.files.push(entries[at].path.clone());
                assert(texts(self.files@) =~= texts(files).push(entries[at as int].path@));
            }
            if entries[at].is_dir {
                self.stack.push(entries[at].path.clone());
                assert(texts(self.stack@) =~= texts(stack).push(entries[at as int].path@));
            }
            assert(self@.files =~= before.files + file_paths(all.take(at + 1)));
            assert(self@.stack =~= before.stack + dir_paths(all.take(at + 1)));
            at = at + 1;
        }
        assert(all.take(at as int) =~= all);
    }

    /// Whether every directory has been listed.
    pub fn is_finished(&self) -> (finished: bool)
        ensures
            finished == (self@.stack.len() == 0),
    {
        self.stack.len() == 0
    }

    /// Hands over the files found.
    pub fn into_files(self) -> (files: Vec<String>)
        ensures
            texts(files@) == self@.files,
    {
        self.files
    }
}

} // verus!
