//! The traversal of the source directories.
//!
//! Reading a directory is left to the caller. A [`Walk`] decides what is
//! read and what is made of it: it asks for one directory at a time, is
//! handed that directory's entries, and collects the regular files in the
//! order of a depth-first descent, never entering a directory whose name is
//! excluded.

use vstd::prelude::*;
use vstd::string::*;
use crate::error::MakeError;
use crate::text::contains;

verus! {

/// What kind of thing a directory entry is.
#[derive(Clone, Copy, Debug, PartialEq, Eq, Structural)]
pub enum EntryKind {
    /// A regular file.
    File,
    /// A directory.
    Directory,
    /// Anything else: a symbolic link, a device, an entry whose kind could
    /// not be read.
    Other,
}

/// One entry of a directory.
#[derive(Debug, PartialEq, Eq)]
pub struct Entry {
    /// The path of the entry, which begins with the path of its directory.
    pub path: String,
    /// The bare name of the entry.
    pub name: String,
    /// What the entry is.
    pub kind: EntryKind,
}

/// An entry as plain values.
pub struct EntryView {
    /// The path of the entry.
    pub path: Seq<char>,
    /// The bare name of the entry.
    pub name: Seq<char>,
    /// What the entry is.
    pub kind: EntryKind,
}

impl View for Entry {
    type V = EntryView;

    open spec fn view(&self) -> EntryView {
        EntryView { path: self.path@, name: self.name@, kind: self.kind }
    }
}

impl DeepView for Entry {
    type V = EntryView;

    open spec fn deep_view(&self) -> EntryView {
        self@
    }
}

/// What a traversal asks of its caller next.
#[derive(Debug, PartialEq, Eq)]
pub enum WalkAction {
    /// Read the directory at this path and hand its entries back.
    List(String),
    /// The traversal is over; these are the files, in the order in which
    /// they were met.
    Finish(Vec<String>),
    /// The traversal is given up.
    Abort(MakeError),
}

/// An action as plain values.
pub enum ActionView {
    /// The directory to read.
    List(Seq<char>),
    /// The files that were found.
    Finish(Seq<Seq<char>>),
    /// The reason for giving up.
    Abort(MakeError),
}

impl View for WalkAction {
    type V = ActionView;

    open spec fn view(&self) -> ActionView {
        match self {
            WalkAction::List(path) => ActionView::List(path@),
            WalkAction::Finish(files) => ActionView::Finish(files.deep_view()),
            WalkAction::Abort(e) => ActionView::Abort(*e),
        }
    }
}

/// The entries of a listing that a traversal takes up: the regular files,
/// and the directories whose name is not in `ignore_dirs`. They stand last
/// first, as they go onto the stack of a traversal.
pub open spec fn admitted(listing: Seq<EntryView>, ignore_dirs: Seq<Seq<char>>) -> Seq<EntryView>
    decreases listing.len(),
{
    if listing.len() == 0 {
        listing
    } else {
        let first = listing[0];
        let rest = admitted(listing.skip(1), ignore_dirs);
        if first.kind is File || !ignore_dirs.contains(first.name) {
            rest.push(first)
        } else {
            rest
        }
    }
}

/// Whether every entry of a listing is a regular file or a directory.
pub open spec fn all_plain(listing: Seq<EntryView>) -> bool {
    forall|i: int| 0 <= i < listing.len() ==> !((#[trigger] listing[i]).kind is Other)
}

/// The state of a traversal as plain values.
pub struct WalkView {
    /// The names of the directories that are not entered.
    pub ignore_dirs: Seq<Seq<char>>,
    /// The entries that are still to be dealt with; the next one is the last.
    pub pending: Seq<EntryView>,
    /// The files found so far.
    pub files: Seq<Seq<char>>,
    /// Whether the traversal has failed.
    pub failed: bool,
}

impl WalkView {
    /// The state in which a traversal of `roots` begins: the roots are to be
    /// read, the first of them next, whatever their names.
    pub open spec fn start(roots: Seq<Seq<char>>, ignore_dirs: Seq<Seq<char>>) -> WalkView {
        WalkView {
            ignore_dirs,
            pending: Seq::new(
                roots.len(),
                |i: int|
                    EntryView {
                        path: roots[roots.len() - 1 - i],
                        name: roots[roots.len() - 1 - i],
                        kind: EntryKind::Directory,
                    },
            ),
            files: Seq::empty(),
            failed: false,
        }
    }

    /// The state once the regular files that are next have been collected: a
    /// directory is next then, or nothing.
    pub open spec fn settled(self) -> WalkView
        decreases self.pending.len(),
    {
        if !self.failed && self.pending.len() > 0 && self.pending.last().kind is File {
            (WalkView {
                pending: self.pending.drop_last(),
                files: self.files.push(self.pending.last().path),
                ..self
            }).settled()
        } else {
            self
        }
    }

    /// What the traversal asks for next.
    pub open spec fn action(self) -> ActionView {
        let s = self.settled();
        if s.failed {
            ActionView::Abort(MakeError::UnreadableRoot)
        } else if s.pending.len() == 0 {
            ActionView::Finish(s.files)
        } else {
            ActionView::List(s.pending.last().path)
        }
    }

    /// The state after the traversal has asked: the files that were next are
    /// collected, and the directory it asked for is no longer pending.
    pub open spec fn asked(self) -> WalkView {
        let s = self.settled();
        if s.failed || s.pending.len() == 0 {
            s
        } else {
            WalkView { pending: s.pending.drop_last(), ..s }
        }
    }

    /// The state after a directory's entries have been handed over. An entry
    /// that is neither a regular file nor a directory fails the traversal;
    /// else the entries that are taken up are dealt with next, in their
    /// order, before what was pending.
    pub open spec fn listed(self, listing: Seq<EntryView>) -> WalkView {
        if self.failed {
            self
        } else if !all_plain(listing) {
            WalkView { failed: true, ..self }
        } else {
            WalkView { pending: self.pending + admitted(listing, self.ignore_dirs), ..self }
        }
    }

    /// The state after a directory could not be read.
    pub open spec fn unreadable(self) -> WalkView {
        WalkView { failed: true, ..self }
    }
}

/// A type used for getting the paths of the files under the root
/// directories.
pub struct Walker {
    paths: Vec<String>,
    ignore_dirs: Vec<String>,
}

/// What a `Walker` holds, as plain sequences.
pub struct WalkerView {
    /// The root directories.
    pub paths: Seq<Seq<char>>,
    /// The names of the directories that are not entered.
    pub ignore_dirs: Seq<Seq<char>>,
}

impl View for Walker {
    type V = WalkerView;

    closed spec fn view(&self) -> WalkerView {
        WalkerView { paths: self.paths.deep_view(), ignore_dirs: self.ignore_dirs.deep_view() }
    }
}

/// A traversal under way.
pub struct Walk {
    ignore_dirs: Vec<String>,
    pending: Vec<Entry>,
    files: Vec<String>,
    failed: bool,
}

impl View for Walk {
    type V = WalkView;

    closed spec fn view(&self) -> WalkView {
        WalkView {
            ignore_dirs: self.ignore_dirs.deep_view(),
            pending: self.pending.deep_view(),
            files: self.files.deep_view(),
            failed: self.failed,
        }
    }
}

/// A copy of a list of strings.
fn copy_of(items: &Vec<String>) -> (r: Vec<String>)
    ensures
        r.deep_view() == items.deep_view(),
{
    let mut r: Vec<String> = Vec::new();
    let mut i: usize = 0;
    while i < items.len()
        invariant
            i <= items.len(),
            r.deep_view() == items.deep_view().take(i as int),
        decreases items.len() - i,
    {
        let ghost before = r.deep_view();
        r.push(items[i].clone());
        proof {
            assert(r.deep_view() =~= before.push(items[i as int]@));
        }
        i += 1;
    }
    r
}

/// Whether every entry is a regular file or a directory.
fn plain(entries: &Vec<Entry>) -> (b: bool)
    ensures
        b == all_plain(entries.deep_view()),
{
    let mut k: usize = 0;
    while k < entries.len()
        invariant
            k <= entries.len(),
            forall|j: int| 0 <= j < k ==> !((#[trigger] entries.deep_view()[j]).kind is Other),
        decreases entries.len() - k,
    {
        match entries[k].kind {
            EntryKind::Other => {
                assert(entries.deep_view()[k as int].kind is Other);
                return false;
            },
            _ => {},
        }
        k += 1;
    }
    true
}

impl Walker {
    /// Create a new Walker.
    pub fn new(paths: Vec<String>, ignore_dirs: Vec<String>) -> (w: Walker)
        ensures
            w@ == (WalkerView { paths: paths.deep_view(), ignore_dirs: ignore_dirs.deep_view() }),
    {
        Walker { paths, ignore_dirs }
    }

    /// Determine if a directory name should be ignored.
    pub fn dir_is_ignored(&self, dir_name: String) -> (b: bool)
        ensures
            b == self@.ignore_dirs.contains(dir_name@),
    {
        contains(&self.ignore_dirs, &dir_name)
    }

    /// Begins the traversal of the root directories. The walk that is
    /// returned finds all files that are not within an ignored directory.
    pub fn walk(&self) -> (walk: Walk)
        ensures
            walk@ == WalkView::start(self@.paths, self@.ignore_dirs),
    {
        let mut pending: Vec<Entry> = Vec::new();
        let mut i: usize = self.paths.len();
        let ghost roots = self.paths.deep_view();
        while i > 0
            invariant
                i <= self.paths.len(),
                roots == self.paths.deep_view(),
                pending.len() == self.paths.len() - i,
                forall|j: int|
                    0 <= j < pending.len() ==> (#[trigger] pending.deep_view()[j]) == (EntryView {
                        path: roots[roots.len() - 1 - j],
                        name: roots[roots.len() - 1 - j],
                        kind: EntryKind::Directory,
                    }),
            decreases i,
        {
            i -= 1;
            let ghost before = pending.deep_view();
            let entry = Entry {
                path: self.paths[i].clone(),
                name: self.paths[i].clone(),
                kind: EntryKind::Directory,
            };
            pending.push(entry);
            proof {
                assert(pending.deep_view() =~= before.push(entry@));
            }
        }
        let walk = Walk {
            ignore_dirs: copy_of(&self.ignore_dirs),
            pending,
            files: Vec::new(),
            failed: false,
        };
        proof {
            assert(walk@.pending =~= WalkView::start(self@.paths, self@.ignore_dirs).pending);
            assert(walk@.files =~= Seq::empty());
        }
        walk
    }
}

impl Walk {
    /// What is to be done next. The regular files that are next are
    /// collected first. Then, if a directory is pending, it is to be read;
    /// if nothing is pending, the traversal is over and hands out its files.
    /// A traversal that has failed is given up.
    pub fn next_action(&mut self) -> (action: WalkAction)
        ensures
            action@ == old(self)@.action(),
            final(self)@ == old(self)@.asked(),
    {
        if self.failed {
            return WalkAction::Abort(MakeError::UnreadableRoot);
        }
        while self.pending.len() > 0
            invariant
                !self.failed,
                self@.settled() == old(self)@.settled(),
            decreases self.pending.len(),
        {
            let ghost before = self@;
            let ghost stack = self.pending.deep_view();
            let entry = self.pending.pop().unwrap();
            proof {
                assert(entry@ == stack.last());
                assert(self.pending.deep_view() =~= stack.drop_last());
            }
            match entry.kind {
                EntryKind::File => {
                    let ghost found = self.files.deep_view();
                    self.files.push(entry.path);
                    proof {
                        assert(self.files.deep_view() =~= found.push(entry@.path));
                        assert(self@ == (WalkView {
                            pending: before.pending.drop_last(),
                            files: before.files.push(before.pending.last().path),
                            ..before
                        }));
                    }
                },
                _ => {
                    proof {
                        assert(before.settled() == before);
                    }
                    return WalkAction::List(entry.path);
                },
            }
        }
        WalkAction::Finish(copy_of(&self.files))
    }

    /// Takes the entries of the directory that was asked for, in the order
    /// in which the directory lists them.
    pub fn listed(&mut self, entries: Vec<Entry>)
        ensures
            final(self)@ == old(self)@.listed(entries.deep_view()),
    {
        if self.failed {
            return ;
        }
        if !plain(&entries) {
            self.failed = true;
            return ;
        }
        let ghost listing = entries.deep_view();
        let ghost stack = self.pending.deep_view();
        let mut entries = entries;
        proof {
            assert(listing.take(listing.len() as int) =~= listing);
            assert(listing.skip(listing.len() as int) =~= Seq::empty());
            assert(self.pending.deep_view() =~= stack + admitted(
                listing.skip(listing.len() as int),
                self.ignore_dirs.deep_view(),
            ));
        }
        while entries.len() > 0
            invariant
                entries.len() <= listing.len(),
                entries.deep_view() == listing.take(entries.len() as int),
                self.ignore_dirs == old(self).ignore_dirs,
                self.files == old(self).files,
                self.failed == old(self).failed,
                self.pending.deep_view() == stack + admitted(
                    listing.skip(entries.len() as int),
                    self.ignore_dirs.deep_view(),
                ),
            decreases entries.len(),
        {
            let ghost n = entries.len() as int;
            let ghost done = self.pending.deep_view();
            let ghost head = entries.deep_view();
            let entry = entries.pop().unwrap();
            proof {
                assert(head[n - 1] == entry@);
                assert(listing.take(n)[n - 1] == listing[n - 1]);
                assert(entries.deep_view() =~= listing.take(n - 1));
                assert(listing.skip(n - 1).skip(1) =~= listing.skip(n));
                assert(listing.skip(n - 1)[0] == listing[n - 1]);
            }
            let wanted = match entry.kind {
                EntryKind::File => true,
                _ => !contains(&self.ignore_dirs, &entry.name),
            };
            if wanted {
                self.pending.push(entry);
                proof {
                    assert(self.pending.deep_view() =~= done.push(entry@));
                    assert(self.pending.deep_view() =~= stack + admitted(
                        listing.skip(n - 1),
                        self.ignore_dirs.deep_view(),
                    ));
                }
            }
        }
        proof {
            assert(listing.skip(0) =~= listing);
        }
    }

    /// Takes note that the directory that was asked for could not be read.
    /// The traversal has failed from then on.
    pub fn unreadable(&mut self)
        ensures
            final(self)@ == old(self)@.unreadable(),
    {
        self.failed = true;
    }
}

} // verus!
