//! A file tree as a traversal meets it, and what a traversal makes of it.
//!
//! Nothing here runs. The tree says what the directories would list; the
//! laws say which files a [`crate::walker::Walk`] finds when it is handed
//! those listings.

use vstd::prelude::*;
use crate::walker::{ActionView, EntryKind, EntryView, WalkView, admitted, all_plain};

verus! {

/// A regular file, or a directory with what it lists.
pub enum Node {
    /// A regular file.
    File { path: Seq<char>, name: Seq<char> },
    /// A directory and its entries, in the order in which it lists them.
    Dir { path: Seq<char>, name: Seq<char>, entries: Seq<Node> },
}

impl Node {
    /// The entry under which a directory lists this node.
    pub open spec fn entry(self) -> EntryView {
        match self {
            Node::File { path, name } => EntryView { path, name, kind: EntryKind::File },
            Node::Dir { path, name, .. } => EntryView { path, name, kind: EntryKind::Directory },
        }
    }
}

/// What a directory with the entries `nodes` lists.
pub open spec fn listing_of(nodes: Seq<Node>) -> Seq<EntryView> {
    Seq::new(nodes.len(), |i: int| nodes[i].entry())
}

/// The files that are to be found at `node`: the file itself, or what is to
/// be found among a directory's entries, and nothing where the directory's
/// name is excluded.
pub open spec fn found_in(node: Node, ignore_dirs: Seq<Seq<char>>) -> Seq<Seq<char>>
    decreases node,
{
    match node {
        Node::File { path, .. } => seq![path],
        Node::Dir { name, entries, .. } => if ignore_dirs.contains(name) {
            Seq::empty()
        } else {
            found_among(entries, ignore_dirs)
        },
    }
}

/// The files that are to be found among `nodes`, node after node.
pub open spec fn found_among(nodes: Seq<Node>, ignore_dirs: Seq<Seq<char>>) -> Seq<Seq<char>>
    decreases nodes,
{
    if nodes.len() == 0 {
        Seq::empty()
    } else {
        found_in(nodes[0], ignore_dirs) + found_among(nodes.skip(1), ignore_dirs)
    }
}

/// The files that a traversal of `roots` is to find, root after root. A root
/// is entered whatever its name.
pub open spec fn found_under(roots: Seq<Node>, ignore_dirs: Seq<Seq<char>>) -> Seq<Seq<char>>
    decreases roots.len(),
{
    if roots.len() == 0 {
        Seq::empty()
    } else {
        found_among(roots[0]->entries, ignore_dirs) + found_under(roots.skip(1), ignore_dirs)
    }
}

/// Whether `path` is the path of a file that is reached from `nodes` through
/// directories none of which has an excluded name.
pub open spec fn reachable(nodes: Seq<Node>, ignore_dirs: Seq<Seq<char>>, path: Seq<char>) -> bool
    decreases nodes,
{
    exists|i: int|
        0 <= i < nodes.len() && match #[trigger] nodes[i] {
            Node::File { path: p, .. } => p == path,
            Node::Dir { name, entries, .. } => !ignore_dirs.contains(name) && reachable(
                entries,
                ignore_dirs,
                path,
            ),
        }
}

/// The paths of the roots.
pub open spec fn paths_of(roots: Seq<Node>) -> Seq<Seq<char>> {
    Seq::new(roots.len(), |i: int| roots[i].entry().path)
}

/// The state of a walk after it has dealt with a directory that it is about
/// to ask for: it asks, is handed what the directory lists, and deals with
/// each entry. A walk that asks for anything else than this directory gets
/// no answer and fails.
pub open spec fn entered(st: WalkView, path: Seq<char>, entries: Seq<Node>) -> WalkView
    decreases entries, 1int,
{
    if st.action() == ActionView::List(path) {
        walked_all(st.asked().listed(listing_of(entries)), entries)
    } else {
        st.unreadable()
    }
}

/// The state of a walk after it has dealt with `node`, an entry that it was
/// handed: it enters a directory unless the name is excluded; a file is
/// left to be collected when the walk next asks.
pub open spec fn walked(st: WalkView, node: Node) -> WalkView
    decreases node, 0int,
{
    match node {
        Node::File { .. } => st,
        Node::Dir { path, name, entries } => if st.ignore_dirs.contains(name) {
            st
        } else {
            entered(st, path, entries)
        },
    }
}

/// The state of a walk after it has dealt with `nodes`, node after node.
pub open spec fn walked_all(st: WalkView, nodes: Seq<Node>) -> WalkView
    decreases nodes, 0int,
{
    if nodes.len() == 0 {
        st
    } else {
        walked_all(walked(st, nodes[0]), nodes.skip(1))
    }
}

/// The state of a walk after it has dealt with `roots`, root after root.
pub open spec fn walked_roots(st: WalkView, roots: Seq<Node>) -> WalkView
    decreases roots.len(),
{
    if roots.len() == 0 {
        st
    } else {
        walked_roots(entered(st, roots[0].entry().path, roots[0]->entries), roots.skip(1))
    }
}

/// A state that is not failed, with `pending` and `files`.
spec fn state(ignore_dirs: Seq<Seq<char>>, pending: Seq<EntryView>, files: Seq<Seq<char>>) -> WalkView {
    WalkView { ignore_dirs, pending, files, failed: false }
}

/// What a directory lists holds regular files and directories only.
proof fn lemma_listing_is_plain(nodes: Seq<Node>)
    ensures
        all_plain(listing_of(nodes)),
{
}

/// The entries that are taken up of a listing, by its first node.
proof fn lemma_admitted_first(nodes: Seq<Node>, ignore_dirs: Seq<Seq<char>>)
    requires
        nodes.len() > 0,
    ensures
        admitted(listing_of(nodes), ignore_dirs) == if nodes[0] is File || !ignore_dirs.contains(
            nodes[0].entry().name,
        ) {
            admitted(listing_of(nodes.skip(1)), ignore_dirs).push(nodes[0].entry())
        } else {
            admitted(listing_of(nodes.skip(1)), ignore_dirs)
        },
{
    assert(listing_of(nodes).skip(1) =~= listing_of(nodes.skip(1)));
}

/// Dealing with nodes whose entries are next on the stack leaves what was
/// beneath them, and adds the files that are to be found among them.
proof fn lemma_walked_all(
    st: WalkView,
    nodes: Seq<Node>,
    base: Seq<EntryView>,
    files: Seq<Seq<char>>,
)
    requires
        !st.failed,
        st.settled() == state(
            st.ignore_dirs,
            base + admitted(listing_of(nodes), st.ignore_dirs),
            files,
        ).settled(),
    ensures
        !walked_all(st, nodes).failed,
        walked_all(st, nodes).ignore_dirs == st.ignore_dirs,
        walked_all(st, nodes).settled() == state(
            st.ignore_dirs,
            base,
            files + found_among(nodes, st.ignore_dirs),
        ).settled(),
    decreases nodes, 0int,
{
    reveal_with_fuel(found_among, 2);
    reveal_with_fuel(walked_all, 2);
    let ignore = st.ignore_dirs;
    if nodes.len() == 0 {
        assert(base + admitted(listing_of(nodes), ignore) =~= base);
        assert(files + found_among(nodes, ignore) =~= files);
    } else {
        let first = nodes[0];
        let rest = nodes.skip(1);
        let below = base + admitted(listing_of(rest), ignore);
        lemma_admitted_first(nodes, ignore);
        match first {
            Node::File { path, name } => {
                let top = state(ignore, base + admitted(listing_of(nodes), ignore), files);
                assert(top.pending =~= below.push(first.entry()));
                assert(top.pending.drop_last() =~= below);
                assert(top.settled() == state(ignore, below, files.push(path)).settled());
                lemma_walked_all(st, rest, base, files.push(path));
                assert(files.push(path) + found_among(rest, ignore) =~= files + found_among(
                    nodes,
                    ignore,
                ));
            },
            Node::Dir { path, name, entries } => {
                if ignore.contains(name) {
                    assert(found_in(first, ignore) + found_among(rest, ignore) =~= found_among(
                        rest,
                        ignore,
                    ));
                    lemma_walked_all(st, rest, base, files);
                } else {
                    lemma_entered(st, path, name, entries, below, files);
                    let next = entered(st, path, entries);
                    lemma_walked_all(next, rest, base, files + found_among(entries, ignore));
                    assert(files + found_among(entries, ignore) + found_among(rest, ignore)
                        =~= files + found_among(nodes, ignore));
                }
            },
        }
    }
}

/// Entering a directory whose entry is next on the stack leaves what was
/// beneath it, and adds the files that are to be found among its entries.
proof fn lemma_entered(
    st: WalkView,
    path: Seq<char>,
    name: Seq<char>,
    entries: Seq<Node>,
    below: Seq<EntryView>,
    files: Seq<Seq<char>>,
)
    requires
        !st.failed,
        st.settled() == state(
            st.ignore_dirs,
            below.push(EntryView { path, name, kind: EntryKind::Directory }),
            files,
        ).settled(),
    ensures
        st.action() == ActionView::List(path),
        !entered(st, path, entries).failed,
        entered(st, path, entries).ignore_dirs == st.ignore_dirs,
        entered(st, path, entries).settled() == state(
            st.ignore_dirs,
            below,
            files + found_among(entries, st.ignore_dirs),
        ).settled(),
    decreases entries, 1int,
{
    let ignore = st.ignore_dirs;
    let entry = EntryView { path, name, kind: EntryKind::Directory };
    let top = state(ignore, below.push(entry), files);
    assert(top.settled() == top);
    assert(top.pending.drop_last() =~= below);
    let asked = st.asked();
    assert(asked == state(ignore, below, files));
    lemma_listing_is_plain(entries);
    let handed = asked.listed(listing_of(entries));
    assert(handed == state(ignore, below + admitted(listing_of(entries), ignore), files));
    lemma_walked_all(handed, entries, below, files);
}

/// The entries of the roots as a walk begins with them, by the first root.
proof fn lemma_start_first(roots: Seq<Node>, ignore_dirs: Seq<Seq<char>>)
    requires
        roots.len() > 0,
        forall|i: int| 0 <= i < roots.len() ==> (#[trigger] roots[i]) is Dir,
    ensures
        WalkView::start(paths_of(roots), ignore_dirs).pending == WalkView::start(
            paths_of(roots.skip(1)),
            ignore_dirs,
        ).pending.push(
            EntryView {
                path: roots[0].entry().path,
                name: roots[0].entry().path,
                kind: EntryKind::Directory,
            },
        ),
{
    let whole = WalkView::start(paths_of(roots), ignore_dirs).pending;
    let tail = WalkView::start(paths_of(roots.skip(1)), ignore_dirs).pending;
    let first = EntryView {
        path: roots[0].entry().path,
        name: roots[0].entry().path,
        kind: EntryKind::Directory,
    };
    assert(whole.len() == tail.len() + 1);
    assert forall|i: int| 0 <= i < whole.len() implies whole[i] == tail.push(first)[i] by {
        if i < tail.len() {
            assert(paths_of(roots.skip(1))[tail.len() - 1 - i] == paths_of(roots)[roots.len() - 1
                - i]);
        }
    }
    assert(whole =~= tail.push(first));
}

/// Dealing with the roots that are next on the stack leaves what was
/// beneath them, and adds the files that are to be found under them.
proof fn lemma_walked_roots(
    st: WalkView,
    roots: Seq<Node>,
    files: Seq<Seq<char>>,
)
    requires
        !st.failed,
        forall|i: int| 0 <= i < roots.len() ==> (#[trigger] roots[i]) is Dir,
        st.settled() == state(
            st.ignore_dirs,
            WalkView::start(paths_of(roots), st.ignore_dirs).pending,
            files,
        ).settled(),
    ensures
        !walked_roots(st, roots).failed,
        walked_roots(st, roots).settled() == state(
            st.ignore_dirs,
            Seq::empty(),
            files + found_under(roots, st.ignore_dirs),
        ).settled(),
    decreases roots.len(),
{
    let ignore = st.ignore_dirs;
    if roots.len() == 0 {
        assert(WalkView::start(paths_of(roots), ignore).pending =~= Seq::empty());
        assert(files + found_under(roots, ignore) =~= files);
    } else {
        let rest = roots.skip(1);
        let path = roots[0].entry().path;
        let entries = roots[0]->entries;
        let below = WalkView::start(paths_of(rest), ignore).pending;
        lemma_start_first(roots, ignore);
        lemma_entered(st, path, path, entries, below, files);
        let next = entered(st, path, entries);
        assert forall|i: int| 0 <= i < rest.len() implies (#[trigger] rest[i]) is Dir by {
            assert(rest[i] == roots[i + 1]);
        }
        lemma_walked_roots(next, rest, files + found_among(entries, ignore));
        assert(files + found_among(entries, ignore) + found_under(rest, ignore) =~= files
            + found_under(roots, ignore));
    }
}

/// A walk that is handed, for every directory it asks for, what that
/// directory lists in a tree, ends by handing out the files that are to be
/// found under the roots of the tree: in the order of a depth-first descent
/// through the listings, and without anything beneath a directory whose
/// name is excluded.
pub proof fn law_walk_finds_the_files(roots: Seq<Node>, ignore_dirs: Seq<Seq<char>>)
    requires
        forall|i: int| 0 <= i < roots.len() ==> (#[trigger] roots[i]) is Dir,
    ensures
        walked_roots(WalkView::start(paths_of(roots), ignore_dirs), roots).action()
            == ActionView::Finish(found_under(roots, ignore_dirs)),
{
    let st = WalkView::start(paths_of(roots), ignore_dirs);
    lemma_walked_roots(st, roots, Seq::empty());
    assert(Seq::<Seq<char>>::empty() + found_under(roots, ignore_dirs) =~= found_under(
        roots,
        ignore_dirs,
    ));
    let end = state(ignore_dirs, Seq::empty(), found_under(roots, ignore_dirs));
    assert(end.settled() == end);
}

/// Nothing is found at a directory whose name is excluded, whatever it
/// holds.
pub proof fn law_excluded_directory_is_skipped(
    path: Seq<char>,
    name: Seq<char>,
    entries: Seq<Node>,
    ignore_dirs: Seq<Seq<char>>,
)
    requires
        ignore_dirs.contains(name),
    ensures
        found_in(Node::Dir { path, name, entries }, ignore_dirs) == Seq::<Seq<char>>::empty(),
{
}

/// What two lists hold together is what one of them holds.
proof fn lemma_contains_of_concat(a: Seq<Seq<char>>, b: Seq<Seq<char>>, x: Seq<char>)
    ensures
        (a + b).contains(x) <==> a.contains(x) || b.contains(x),
{
    if (a + b).contains(x) {
        let k = choose|k: int| 0 <= k < (a + b).len() && (a + b)[k] == x;
        if k < a.len() {
            assert(a[k] == x);
        } else {
            assert(b[k - a.len()] == x);
        }
    }
    if a.contains(x) {
        let k = choose|k: int| 0 <= k < a.len() && a[k] == x;
        assert((a + b)[k] == x);
    }
    if b.contains(x) {
        let k = choose|k: int| 0 <= k < b.len() && b[k] == x;
        assert((a + b)[k + a.len()] == x);
    }
}

/// A path is found among nodes exactly if it is the path of a file that is
/// reached through directories none of which has an excluded name: one
/// excluded directory on the way hides the whole subtree beneath it, and
/// nothing else is hidden.
pub proof fn law_found_is_reachable(nodes: Seq<Node>, ignore_dirs: Seq<Seq<char>>, path: Seq<char>)
    ensures
        found_among(nodes, ignore_dirs).contains(path) <==> reachable(nodes, ignore_dirs, path),
    decreases nodes,
{
    if nodes.len() > 0 {
        let first = nodes[0];
        let rest = nodes.skip(1);
        let here = found_in(first, ignore_dirs);
        let there = found_among(rest, ignore_dirs);
        law_found_is_reachable(rest, ignore_dirs, path);
        if let Node::Dir { entries, .. } = first {
            law_found_is_reachable(entries, ignore_dirs, path);
        }
        let at_first = match first {
            Node::File { path: p, .. } => p == path,
            Node::Dir { name, entries, .. } => !ignore_dirs.contains(name) && reachable(
                entries,
                ignore_dirs,
                path,
            ),
        };
        assert(here.contains(path) <==> at_first) by {
            if let Node::File { path: p, .. } = first {
                assert(here[0] == p);
            }
        }
        lemma_contains_of_concat(here, there, path);
        if reachable(nodes, ignore_dirs, path) {
            let i = choose|i: int|
                0 <= i < nodes.len() && match #[trigger] nodes[i] {
                    Node::File { path: p, .. } => p == path,
                    Node::Dir { name, entries, .. } => !ignore_dirs.contains(name) && reachable(
                        entries,
                        ignore_dirs,
                        path,
                    ),
                };
            if i > 0 {
                assert(rest[i - 1] == nodes[i]);
                assert(reachable(rest, ignore_dirs, path));
            }
        }
        if reachable(rest, ignore_dirs, path) {
            let i = choose|i: int|
                0 <= i < rest.len() && match #[trigger] rest[i] {
                    Node::File { path: p, .. } => p == path,
                    Node::Dir { name, entries, .. } => !ignore_dirs.contains(name) && reachable(
                        entries,
                        ignore_dirs,
                        path,
                    ),
                };
            assert(nodes[i + 1] == rest[i]);
        }
        if at_first {
            assert(nodes[0] == first);
        }
    }
}

/// A path is among the files of a traversal exactly if it is reached from
/// the entries of one of the roots through directories none of which has an
/// excluded name. The name of a root does not matter.
pub proof fn law_found_under_is_reachable(
    roots: Seq<Node>,
    ignore_dirs: Seq<Seq<char>>,
    path: Seq<char>,
)
    ensures
        found_under(roots, ignore_dirs).contains(path) <==> exists|i: int|
            0 <= i < roots.len() && reachable((#[trigger] roots[i])->entries, ignore_dirs, path),
    decreases roots.len(),
{
    if roots.len() > 0 {
        let rest = roots.skip(1);
        let here = found_among(roots[0]->entries, ignore_dirs);
        let there = found_under(rest, ignore_dirs);
        law_found_is_reachable(roots[0]->entries, ignore_dirs, path);
        law_found_under_is_reachable(rest, ignore_dirs, path);
        lemma_contains_of_concat(here, there, path);
        if found_under(roots, ignore_dirs).contains(path) {
            if here.contains(path) {
                assert(reachable(roots[0]->entries, ignore_dirs, path));
            } else {
                let i = choose|i: int|
                    0 <= i < rest.len() && reachable(
                        (#[trigger] rest[i])->entries,
                        ignore_dirs,
                        path,
                    );
                assert(roots[i + 1] == rest[i]);
            }
        }
        if exists|i: int|
            0 <= i < roots.len() && reachable((#[trigger] roots[i])->entries, ignore_dirs, path) {
            let i = choose|i: int|
                0 <= i < roots.len() && reachable(
                    (#[trigger] roots[i])->entries,
                    ignore_dirs,
                    path,
                );
            if i > 0 {
                assert(rest[i - 1] == roots[i]);
            }
        }
    }
}

} // verus!
