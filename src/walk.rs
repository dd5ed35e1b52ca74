//! The file enumerator: a depth-first walk from a root path that visits
//! directory children in listing order and yields every regular file.
//!
//! The walk itself touches no file system. Its caller takes the next path,
//! looks it up, and hands back a `Probe`; the walk decides what follows. An
//! entry that cannot be read becomes a `TraversalError` and the walk goes on
//! with every other pending path.
use vstd::prelude::*;

verus! {

/// What looking up one path found.
pub enum Probe {
    /// A regular file, with its canonical path.
    File(String),
    /// A directory, with the paths of its children in listing order.
    Directory(Vec<String>),
    /// Something that is neither a regular file nor a directory.
    Other,
    /// The path could not be read; the cause is described.
    Failed(String),
}

/// A path whose metadata or listing could not be read.
pub struct TraversalError {
    pub path: String,
    pub cause: String,
}

/// What one step of the walk produced.
pub enum Step {
    /// A regular file, by its canonical path.
    Found(String),
    /// Nothing to report: a directory was opened, or the entry was skipped.
    Nothing,
    /// The entry could not be read.
    Error(TraversalError),
}

/// The paths of a list of strings.
pub open spec fn paths_of(v: Seq<String>) -> Seq<Seq<char>> {
    v.map_values(|s: String| s@)
}

/// The paths still to visit after probing the first pending one: the
/// children of a directory come first, in listing order.
pub open spec fn next_queue(queue: Seq<Seq<char>>, probe: Probe) -> Seq<Seq<char>> {
    match probe {
        Probe::Directory(children) => paths_of(children@) + queue.drop_first(),
        _ => queue.drop_first(),
    }
}

/// The state of a walk: the paths still to visit, the next one first.
pub struct Walk {
    queue: Vec<String>,
}

impl Walk {
    /// The paths still to visit, the next one first.
    pub closed spec fn queue(&self) -> Seq<Seq<char>> {
        paths_of(self.queue@)
    }

    /// A walk that starts at `root`.
    pub fn new(root: &str) -> (w: Walk)
        ensures
            w.queue() == seq![root@],
    {
        let mut queue: Vec<String> = Vec::new();
        queue.push(root.to_owned());
        let w = Walk { queue };
        assert(w.queue() =~= seq![root@]);
        w
    }

    /// Whether every path has been visited.
    pub fn is_done(&self) -> (r: bool)
        ensures
            r <==> self.queue().len() == 0,
    {
        self.queue.len() == 0
    }

    /// The path to look up next, if any is left.
    pub fn next_path(&self) -> (r: Option<&String>)
        ensures
            r is None <==> self.queue().len() == 0,
            r matches Some(p) ==> p@ == self.queue()[0],
    {
        if self.queue.len() == 0 {
            None
        } else {
            Some(&self.queue[0])
        }
    }

    /// Takes the answer for the next path: a file is reported, a directory's
    /// children are visited next, and an unreadable path is reported as an
    /// error; the other pending paths stay as they were.
    pub fn advance(&mut self, probe: Probe) -> (r: Step)
        requires
            old(self).queue().len() > 0,
        ensures
            final(self).queue() == next_queue(old(self).queue(), probe),
            match probe {
                Probe::File(canonical) => r == Step::Found(canonical),
                Probe::Failed(cause) => r matches Step::Error(e) && e.path@ == old(self).queue()[0] && e.cause == cause,
                _ => r is Nothing,
            },
    {
        let ghost old_queue = self.queue();
        let path = self.queue.remove(0);
        assert(self.queue() =~= old_queue.drop_first());
        match probe {
            Probe::File(canonical) => Step::Found(canonical),
            Probe::Directory(children) => {
                let mut next = children;
                let ghost first = next@;
                let ghost rest = self.queue@;
                next.append(&mut self.queue);
                self.queue = next;
                assert(paths_of(first + rest) =~= paths_of(first) + paths_of(rest));
                Step::Nothing
            },
            Probe::Other => Step::Nothing,
            Probe::Failed(cause) => Step::Error(TraversalError { path, cause }),
        }
    }
}

/// A file tree as the walk's caller sees it.
pub enum Entry {
    File { path: Seq<char>, canonical: Seq<char> },
    Directory { path: Seq<char>, children: Seq<Entry> },
    Other { path: Seq<char> },
    Unreadable { path: Seq<char> },
}

impl Entry {
    /// The path by which this entry is looked up.
    pub open spec fn path(self) -> Seq<char> {
        match self {
            Entry::File { path, .. } => path,
            Entry::Directory { path, .. } => path,
            Entry::Other { path } => path,
            Entry::Unreadable { path } => path,
        }
    }

    /// `probe` is a truthful answer for this entry.
    pub open spec fn answered_by(self, probe: Probe) -> bool {
        match (self, probe) {
            (Entry::File { canonical, .. }, Probe::File(c)) => c@ == canonical,
            (Entry::Directory { children, .. }, Probe::Directory(ch)) => paths_of(ch@) == entry_paths(children),
            (Entry::Other { .. }, Probe::Other) => true,
            (Entry::Unreadable { .. }, Probe::Failed(_)) => true,
            _ => false,
        }
    }
}

/// The paths of a list of entries.
pub open spec fn entry_paths(es: Seq<Entry>) -> Seq<Seq<char>> {
    es.map_values(|e: Entry| e.path())
}

/// The number of entries in a tree.
pub open spec fn size(e: Entry) -> nat
    decreases e,
{
    match e {
        Entry::Directory { children, .. } => 1 + sizes(children),
        _ => 1,
    }
}

/// The number of entries in a list of trees.
pub open spec fn sizes(es: Seq<Entry>) -> nat
    decreases es,
{
    if es.len() == 0 {
        0
    } else {
        size(es[0]) + sizes(es.subrange(1, es.len() as int))
    }
}

/// The canonical paths of the regular files in a tree, depth first, each
/// directory's children in listing order.
pub open spec fn files_in(e: Entry) -> Seq<Seq<char>>
    decreases e,
{
    match e {
        Entry::File { canonical, .. } => seq![canonical],
        Entry::Directory { children, .. } => files_in_all(children),
        _ => Seq::empty(),
    }
}

/// The canonical paths of the regular files in a list of trees, in order.
pub open spec fn files_in_all(es: Seq<Entry>) -> Seq<Seq<char>>
    decreases es,
{
    if es.len() == 0 {
        Seq::empty()
    } else {
        files_in(es[0]) + files_in_all(es.subrange(1, es.len() as int))
    }
}

/// The sizes of two lists of trees add up.
proof fn lemma_sizes_concat(a: Seq<Entry>, b: Seq<Entry>)
    ensures
        sizes(a + b) == sizes(a) + sizes(b),
    decreases a.len(),
{
    if a.len() == 0 {
        assert(a + b =~= b);
    } else {
        assert((a + b).subrange(1, (a + b).len() as int) =~= a.subrange(1, a.len() as int) + b);
        lemma_sizes_concat(a.subrange(1, a.len() as int), b);
    }
}

/// The files of two lists of trees follow each other.
proof fn lemma_files_concat(a: Seq<Entry>, b: Seq<Entry>)
    ensures
        files_in_all(a + b) == files_in_all(a) + files_in_all(b),
    decreases a.len(),
{
    if a.len() == 0 {
        assert(a + b =~= b);
        assert(files_in_all(a) + files_in_all(b) =~= files_in_all(b));
    } else {
        assert((a + b).subrange(1, (a + b).len() as int) =~= a.subrange(1, a.len() as int) + b);
        lemma_files_concat(a.subrange(1, a.len() as int), b);
        assert(files_in_all(a + b) =~= files_in_all(a) + files_in_all(b));
    }
}

/// What the walk reports when the caller answers truthfully for the trees
/// in `queue`: `Walk::advance` on the probe of `queue[0]` reports the file
/// found there and leaves the queue of the paths of the remaining trees.
pub open spec fn walk_output(queue: Seq<Entry>) -> Seq<Seq<char>>
    decreases sizes(queue)
    via walk_output_decreases

{
    if queue.len() == 0 {
        Seq::empty()
    } else {
        let rest = queue.subrange(1, queue.len() as int);
        match queue[0] {
            Entry::File { canonical, .. } => seq![canonical] + walk_output(rest),
            Entry::Directory { children, .. } => walk_output(children + rest),
            _ => walk_output(rest),
        }
    }
}

#[via_fn]
proof fn walk_output_decreases(queue: Seq<Entry>) {
    if queue.len() > 0 {
        let rest = queue.subrange(1, queue.len() as int);
        assert(sizes(queue) == size(queue[0]) + sizes(rest));
        match queue[0] {
            Entry::Directory { children, .. } => {
                lemma_sizes_concat(children, rest);
                assert(size(queue[0]) == 1 + sizes(children));
            },
            _ => {
                assert(size(queue[0]) == 1);
            },
        }
    }
}

/// Walking a list of trees and then more trees reports the files of the
/// first list, then what walking the rest reports.
proof fn lemma_walk_concat(es: Seq<Entry>, tail: Seq<Entry>)
    ensures
        walk_output(es + tail) == files_in_all(es) + walk_output(tail),
    decreases sizes(es),
{
    let q = es + tail;
    if es.len() == 0 {
        assert(q =~= tail);
        assert(files_in_all(es) + walk_output(tail) =~= walk_output(tail));
    } else {
        let r = es.subrange(1, es.len() as int);
        assert(q[0] == es[0]);
        assert(q.subrange(1, q.len() as int) =~= r + tail);
        assert(sizes(es) == size(es[0]) + sizes(r));
        match es[0] {
            Entry::File { canonical, .. } => {
                assert(size(es[0]) == 1);
                lemma_walk_concat(r, tail);
                assert(walk_output(q) == seq![canonical] + walk_output(r + tail));
                assert(files_in_all(es) == files_in(es[0]) + files_in_all(r));
                assert(files_in(es[0]) == seq![canonical]);
                assert(walk_output(q) =~= files_in_all(es) + walk_output(tail));
            },
            Entry::Directory { children, .. } => {
                assert(size(es[0]) == 1 + sizes(children));
                lemma_sizes_concat(children, r);
                assert((children + r) + tail =~= children + (r + tail));
                lemma_walk_concat(children + r, tail);
                lemma_files_concat(children, r);
                assert(walk_output(q) == walk_output(children + (r + tail)));
                assert(files_in_all(es) == files_in(es[0]) + files_in_all(r));
                assert(files_in(es[0]) == files_in_all(children));
                assert(walk_output(q) =~= files_in_all(es) + walk_output(tail));
            },
            _ => {
                assert(size(es[0]) == 1);
                lemma_walk_concat(r, tail);
                assert(walk_output(q) == walk_output(r + tail));
                assert(files_in_all(es) == files_in(es[0]) + files_in_all(r));
                assert(files_in(es[0]) =~= Seq::<Seq<char>>::empty());
                assert(walk_output(q) =~= files_in_all(es) + walk_output(tail));
            },
        }
    }
}

/// A walk started at the root of a tree, whose every probe is answered
/// truthfully, reports the canonical path of every regular file of the tree
/// however deep it lies, each once, depth first and in listing order.
pub proof fn lemma_walk_finds_every_file(root: Entry)
    ensures
        walk_output(seq![root]) == files_in(root),
{
    lemma_walk_concat(seq![root], Seq::empty());
    assert(seq![root] + Seq::<Entry>::empty() =~= seq![root]);
    assert(seq![root].subrange(1, 1) =~= Seq::<Entry>::empty());
    assert(files_in_all(Seq::<Entry>::empty()) =~= Seq::<Seq<char>>::empty());
    assert(files_in_all(seq![root]) =~= files_in(root) + files_in_all(Seq::<Entry>::empty()));
}

/// Every file of a directory's child, at any depth, is among the
/// directory's files.
pub proof fn lemma_child_files_found(path: Seq<char>, children: Seq<Entry>, i: int, f: Seq<char>)
    requires
        0 <= i < children.len(),
        files_in(children[i]).contains(f),
    ensures
        files_in(Entry::Directory { path, children }).contains(f),
{
    let before = children.subrange(0, i);
    let after = children.subrange(i, children.len() as int);
    assert(children =~= before + after);
    lemma_files_concat(before, after);
    assert(after[0] == children[i]);
    let k = choose|k: int| 0 <= k < files_in(children[i]).len() && files_in(children[i])[k] == f;
    let all = files_in_all(children);
    assert(all[files_in_all(before).len() + k] == f);
}

/// An unreadable entry in a directory takes nothing from the files found
/// among its siblings: the directory's files are those of the other
/// children, in order.
pub proof fn lemma_unreadable_entry_skipped(path: Seq<char>, children: Seq<Entry>, i: int)
    requires
        0 <= i < children.len(),
        children[i] is Unreadable,
    ensures
        files_in(Entry::Directory { path, children }) == files_in_all(children.remove(i)),
{
    let before = children.subrange(0, i);
    let after = children.subrange(i, children.len() as int);
    let later = children.subrange(i + 1, children.len() as int);
    assert(children =~= before + after);
    assert(children.remove(i) =~= before + later);
    assert(after.subrange(1, after.len() as int) =~= later);
    lemma_files_concat(before, after);
    lemma_files_concat(before, later);
    assert(files_in(after[0]) =~= Seq::<Seq<char>>::empty());
    assert(files_in_all(after) =~= files_in(after[0]) + files_in_all(later));
}

/// The trees left to walk once the first of `queue` has been probed.
pub open spec fn next_entries(queue: Seq<Entry>) -> Seq<Entry> {
    let rest = queue.subrange(1, queue.len() as int);
    match queue[0] {
        Entry::Directory { children, .. } => children + rest,
        _ => rest,
    }
}

/// The file that a step reports for a probe, if any.
pub open spec fn found_by(probe: Probe) -> Seq<Seq<char>> {
    match probe {
        Probe::File(canonical) => seq![canonical@],
        _ => Seq::empty(),
    }
}

/// One step of a walk over a tree, answered truthfully: the queue that
/// `Walk::advance` leaves holds the paths of the trees still to walk, and the
/// file it reports, followed by what the rest of the walk reports, is what
/// walking the whole queue reports.
pub proof fn lemma_advance_follows_tree(queue: Seq<Entry>, probe: Probe)
    requires
        queue.len() > 0,
        queue[0].answered_by(probe),
    ensures
        next_queue(entry_paths(queue), probe) == entry_paths(next_entries(queue)),
        walk_output(queue) == found_by(probe) + walk_output(next_entries(queue)),
{
    let rest = queue.subrange(1, queue.len() as int);
    assert(entry_paths(queue).drop_first() =~= entry_paths(rest));
    match queue[0] {
        Entry::Directory { children, .. } => {
            assert(entry_paths(children + rest) =~= entry_paths(children) + entry_paths(rest));
        },
        _ => {},
    }
    assert(walk_output(queue) =~= found_by(probe) + walk_output(next_entries(queue)));
}

} // verus!
