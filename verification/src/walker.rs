//! Walking the archive's directory tree. The walk itself only decides: it
//! hands out the next directory to list and takes the listing back, so that
//! whoever drives it does the reading.

use crate::errors::MyErrors;
use crate::selector::RecordFile;
use crate::text::texts;
use vstd::prelude::*;

verus! {

/// What a directory entry is.
#[derive(Clone, Copy, Debug, PartialEq, Eq, Structural)]
pub enum EntryKind {
    /// A directory, to be walked in turn.
    Directory,
    /// A regular file.
    File,
    /// Anything else, or an entry whose kind could not be told.
    Other,
}

/// One entry of a directory listing.
#[derive(Debug)]
pub struct Entry {
    /// The entry's name, without its directory.
    pub name: String,
    /// The entry's full path.
    pub path: String,
    /// What the entry is.
    pub kind: EntryKind,
}

/// What a walk does with a directory that cannot be listed.
#[derive(Clone, Copy, Debug, PartialEq, Eq, Structural)]
pub enum WalkMode {
    /// The directory contributes nothing and the walk goes on.
    Lenient,
    /// The walk fails.
    Strict,
}

/// The paths of the directories among `entries`, in order.
pub open spec fn directories_in(entries: Seq<Entry>) -> Seq<Seq<char>>
    decreases entries.len(),
{
    if entries.len() == 0 {
        Seq::empty()
    } else if entries.last().kind == EntryKind::Directory {
        directories_in(entries.drop_last()).push(entries.last().path@)
    } else {
        directories_in(entries.drop_last())
    }
}

/// The regular files among `entries`, each as its name and its path, in
/// order.
pub open spec fn files_in(entries: Seq<Entry>) -> Seq<(Seq<char>, Seq<char>)>
    decreases entries.len(),
{
    if entries.len() == 0 {
        Seq::empty()
    } else if entries.last().kind == EntryKind::File {
        files_in(entries.drop_last()).push((entries.last().name@, entries.last().path@))
    } else {
        files_in(entries.drop_last())
    }
}

/// The name and the path of each of `files`, in order.
pub open spec fn pairs_of(files: Seq<RecordFile>) -> Seq<(Seq<char>, Seq<char>)> {
    files.map_values(|f: RecordFile| (f.name@, f.path@))
}

/// A walk in progress: the directories still to list, the last one first to
/// go, the directory that was handed out last, and the files found since
/// they were last taken.
pub struct TreeWalk {
    mode: WalkMode,
    pending: Vec<String>,
    current: Option<String>,
    files: Vec<RecordFile>,
}

/// The characters of an optional path.
pub open spec fn optional_text(path: Option<String>) -> Option<Seq<char>> {
    match path {
        Some(p) => Some(p@),
        None => None,
    }
}

impl TreeWalk {
    /// How the walk treats a directory that cannot be listed.
    pub closed spec fn mode(&self) -> WalkMode {
        self.mode
    }

    /// The directories still to list; the last one is listed next.
    pub closed spec fn pending(&self) -> Seq<Seq<char>> {
        texts(self.pending@)
    }

    /// The directory that was handed out last; a strict walk that fails has
    /// failed on this one.
    pub closed spec fn current(&self) -> Option<Seq<char>> {
        optional_text(self.current)
    }

    /// The files found and not yet taken, in the order in which they came.
    pub closed spec fn found(&self) -> Seq<(Seq<char>, Seq<char>)> {
        pairs_of(self.files@)
    }

    /// A walk that is about to list `root`.
    pub fn new(root: String, mode: WalkMode) -> (r: TreeWalk)
        ensures
            r.mode() == mode,
            r.pending() == seq![root@],
            r.current() == None::<Seq<char>>,
            r.found() == Seq::<(Seq<char>, Seq<char>)>::empty(),
    {
        let mut pending: Vec<String> = Vec::new();
        pending.push(root);
        let r = TreeWalk { mode, pending, current: None, files: Vec::new() };
        proof {
            assert(r.pending() =~= seq![root@]);
            assert(r.found() =~= Seq::<(Seq<char>, Seq<char>)>::empty());
        }
        r
    }

    /// Whether no directory is left to list.
    pub fn is_done(&self) -> (r: bool)
        ensures
            r == (self.pending().len() == 0),
    {
        self.pending.len() == 0
    }

    /// Hands out the directory to list next, the one that was added last, and
    /// `None` once the walk is over.
    pub fn next_directory(&mut self) -> (r: Option<String>)
        ensures
            final(self).mode() == old(self).mode(),
            final(self).found() == old(self).found(),
            match r {
                Some(directory) => {
                    &&& old(self).pending().len() > 0
                    &&& directory@ == old(self).pending().last()
                    &&& final(self).pending() == old(self).pending().drop_last()
                    &&& final(self).current() == Some(directory@)
                },
                None => {
                    &&& old(self).pending().len() == 0
                    &&& final(self).pending() == old(self).pending()
                    &&& final(self).current() == old(self).current()
                },
            },
    {
        match self.pending.pop() {
            Some(directory) => {
                proof {
                    assert(texts(self.pending@) =~= texts(old(self).pending@).drop_last());
                }
                self.current = Some(directory.clone());
                Some(directory)
            },
            None => None,
        }
    }

    /// The directory that was handed out last, if any was: after a strict
    /// walk has failed, the directory that could not be listed.
    pub fn current_directory(&self) -> (r: Option<String>)
        ensures
            optional_text(r) == self.current(),
    {
        match &self.current {
            Some(directory) => Some(directory.clone()),
            None => None,
        }
    }

    /// Takes the listing of the directory that was handed out last. Its
    /// directories are added to those still to list and its regular files to
    /// those found; other entries are passed over. `None` stands for a
    /// directory that could not be listed: a lenient walk passes over it, a
    /// strict walk fails.
    pub fn absorb(&mut self, listing: Option<Vec<Entry>>) -> (r: Result<(), MyErrors>)
        ensures
            final(self).mode() == old(self).mode(),
            final(self).current() == old(self).current(),
            match listing {
                Some(entries) => {
                    &&& r == Ok::<(), MyErrors>(())
                    &&& final(self).pending() == old(self).pending() + directories_in(entries@)
                    &&& final(self).found() == old(self).found() + files_in(entries@)
                },
                None => {
                    &&& final(self).pending() == old(self).pending()
                    &&& final(self).found() == old(self).found()
                    &&& old(self).mode() == WalkMode::Lenient ==> r == Ok::<(), MyErrors>(())
                    &&& old(self).mode() == WalkMode::Strict ==> r == Err::<(), MyErrors>(
                        MyErrors::CannotReadDirectory,
                    )
                },
            },
    {
        match listing {
            None => {
                match self.mode {
                    WalkMode::Lenient => Ok(()),
                    WalkMode::Strict => Err(MyErrors::CannotReadDirectory),
                }
            },
            Some(entries) => {
                let mut i: usize = 0;
                proof {
                    assert(entries@.take(0) =~= Seq::<Entry>::empty());
                    assert(self.pending() =~= old(self).pending() + directories_in(
                        entries@.take(0),
                    ));
                    assert(self.found() =~= old(self).found() + files_in(entries@.take(0)));
                }
                while i < entries.len()
                    invariant
                        i <= entries.len(),
                        self.mode == old(self).mode,
                        self.current == old(self).current,
                        self.pending() == old(self).pending() + directories_in(
                            entries@.take(i as int),
                        ),
                        self.found() == old(self).found() + files_in(entries@.take(i as int)),
                    decreases entries.len() - i,
                {
                    let ghost pending_before = self.pending();
                    let ghost found_before = self.found();
                    proof {
                        assert(entries@.take(i + 1).drop_last() =~= entries@.take(i as int));
                        assert(entries@.take(i + 1).last() == entries@[i as int]);
                    }
                    match entries[i].kind {
                        EntryKind::Directory => {
                            self.pending.push(entries[i].path.clone());
                            proof {
                                assert(self.pending() =~= pending_before.push(
                                    entries@[i as int].path@,
                                ));
                                assert(self.pending() =~= old(self).pending() + directories_in(
                                    entries@.take(i + 1),
                                ));
                            }
                        },
                        EntryKind::File => {
                            self.files.push(
                                RecordFile {
                                    name: entries[i].name.clone(),
                                    path: entries[i].path.clone(),
                                },
                            );
                            proof {
                                assert(self.found() =~= found_before.push(
                                    (entries@[i as int].name@, entries@[i as int].path@),
                                ));
                                assert(self.found() =~= old(self).found() + files_in(
                                    entries@.take(i + 1),
                                ));
                            }
                        },
                        EntryKind::Other => {},
                    }
                    i = i + 1;
                }
                proof {
                    assert(entries@.take(i as int) =~= entries@);
                }
                Ok(())
            },
        }
    }

    /// Hands out the files found since they were last taken, and forgets them.
    pub fn take_files(&mut self) -> (r: Vec<RecordFile>)
        ensures
            pairs_of(r@) == old(self).found(),
            final(self).found() == Seq::<(Seq<char>, Seq<char>)>::empty(),
            final(self).pending() == old(self).pending(),
            final(self).current() == old(self).current(),
            final(self).mode() == old(self).mode(),
    {
        let mut taken: Vec<RecordFile> = Vec::new();
        std::mem::swap(&mut self.files, &mut taken);
        proof {
            assert(self.found() =~= Seq::<(Seq<char>, Seq<char>)>::empty());
        }
        taken
    }
}

} // verus!
