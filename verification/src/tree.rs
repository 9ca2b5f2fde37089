//! What a plan achieves, stated over a model of the directory tree below the
//! destination.
//!
//! The model is the contract with the caller who carries out a plan: making
//! directories fails where a file is in the way, and otherwise leaves a
//! directory at the path and at each of its ancestors; writing a file fails
//! where its directory is missing or where a directory is in the way, and
//! otherwise leaves a file with exactly the bytes given. Nothing else changes.

use vstd::prelude::*;
use crate::archive::StoredEntry;
use crate::extract::{archive_steps, entry_steps, target, Step, TargetView};
use crate::relpath::{escapes, lemma_escaping_name_is_refused, pieces};

verus! {

/// What lies at a path.
pub ghost enum Node {
    Directory,
    File(Seq<u8>),
}

/// What lies below the destination: a node for each path that exists, the
/// path given by its components. The path without components is the
/// destination itself.
pub type Tree = Map<Seq<Seq<char>>, Node>;

/// Whether a directory lies at `path`.
pub open spec fn is_directory(tree: Tree, path: Seq<Seq<char>>) -> bool {
    tree.dom().contains(path) && tree[path] is Directory
}

/// Whether a file lies at `path`.
pub open spec fn is_file(tree: Tree, path: Seq<Seq<char>>) -> bool {
    tree.dom().contains(path) && tree[path] is File
}

/// The tree after the directory at `path` has been made with all its
/// ancestors; `None` where a file lies at the path or at one of its ancestors.
pub open spec fn make_dirs(tree: Tree, path: Seq<Seq<char>>) -> Option<Tree> {
    if exists|k: int| 0 <= k <= path.len() && is_file(tree, #[trigger] path.take(k)) {
        None
    } else {
        Some(
            Map::new(
                |p: Seq<Seq<char>>| tree.dom().contains(p) || p.is_prefix_of(path),
                |p: Seq<Seq<char>>|
                    if p.is_prefix_of(path) {
                        Node::Directory
                    } else {
                        tree[p]
                    },
            ),
        )
    }
}

/// The tree after `data` has been written to the file at `path`; `None` where
/// the path has no last component, where no directory lies right above it, or
/// where a directory lies at the path itself.
pub open spec fn write(tree: Tree, path: Seq<Seq<char>>, data: Seq<u8>) -> Option<Tree> {
    if path.len() > 0 && is_directory(tree, path.drop_last()) && !is_directory(tree, path) {
        Some(tree.insert(path, Node::File(data)))
    } else {
        None
    }
}

/// The tree after one step; `None` where the step fails.
pub open spec fn apply(tree: Tree, step: Step) -> Option<Tree> {
    match step {
        Step::MakeDirs(path) => make_dirs(tree, path),
        Step::Write(path, data) => write(tree, path, data),
    }
}

/// The tree after all of `steps`, carried out in order; `None` where one of
/// them fails.
pub open spec fn run(tree: Tree, steps: Seq<Step>) -> Option<Tree>
    decreases steps.len(),
{
    if steps.len() == 0 {
        Some(tree)
    } else {
        match run(tree, steps.drop_last()) {
            Some(before) => apply(before, steps.last()),
            None => None,
        }
    }
}

/// A file as an extraction leaves it.
pub ghost struct UnpackedFile {
    pub path: Seq<Seq<char>>,
    pub data: Seq<u8>,
}

/// The file that an entry is unpacked into; `None` where the entry is
/// skipped, marks a directory, or cannot be read.
pub open spec fn unpacked_file(entry: StoredEntry) -> Option<UnpackedFile> {
    match (entry.enclosed, entry.name, entry.data) {
        (Some(true), Some(name), Some(data)) => match target(name) {
            TargetView::File(path) => Some(UnpackedFile { path, data }),
            _ => None,
        },
        _ => None,
    }
}

/// The directory that an entry marks; `None` where the entry is skipped, is a
/// file, or cannot be read.
pub open spec fn unpacked_directory(entry: StoredEntry) -> Option<Seq<Seq<char>>> {
    match (entry.enclosed, entry.name) {
        (Some(true), Some(name)) => match target(name) {
            TargetView::Directory(path) => Some(path),
            _ => None,
        },
        _ => None,
    }
}

/// Carrying out two runs of steps one after the other is carrying out both
/// in one.
pub proof fn lemma_run_concat(tree: Tree, first: Seq<Step>, second: Seq<Step>)
    ensures
        run(tree, first + second) == match run(tree, first) {
            Some(between) => run(between, second),
            None => None,
        },
    decreases second.len(),
{
    if second.len() == 0 {
        assert(first + second == first);
    } else {
        lemma_run_concat(tree, first, second.drop_last());
        assert((first + second).drop_last() == first + second.drop_last());
        assert((first + second).last() == second.last());
    }
}

/// Carrying out one or two steps, spelled out.
proof fn lemma_run_short(tree: Tree, steps: Seq<Step>)
    requires
        steps.len() <= 2,
    ensures
        steps.len() == 0 ==> run(tree, steps) == Some(tree),
        steps.len() == 1 ==> run(tree, steps) == apply(tree, steps[0]),
        steps.len() == 2 ==> run(tree, steps) == match apply(tree, steps[0]) {
            Some(between) => apply(between, steps[1]),
            None => None,
        },
{
    if steps.len() == 1 {
        assert(steps.drop_last().len() == 0);
        assert(run(tree, steps.drop_last()) == Some(tree));
    } else if steps.len() == 2 {
        let first = steps.drop_last();
        assert(first.drop_last().len() == 0);
        assert(run(tree, first.drop_last()) == Some(tree));
        assert(first.last() == steps[0]);
        assert(run(tree, first) == apply(tree, steps[0]));
    }
}

/// A step that succeeds leaves every directory in place.
pub proof fn lemma_step_keeps_directory(tree: Tree, step: Step, path: Seq<Seq<char>>)
    requires
        apply(tree, step) is Some,
        is_directory(tree, path),
    ensures
        is_directory(apply(tree, step)->0, path),
{
}

/// A step that succeeds leaves every file in place, with its bytes, unless it
/// writes that file.
pub proof fn lemma_step_keeps_file(tree: Tree, step: Step, path: Seq<Seq<char>>)
    requires
        apply(tree, step) is Some,
        is_file(tree, path),
        !(step matches Step::Write(written, _) && written == path),
    ensures
        is_file(apply(tree, step)->0, path),
        apply(tree, step)->0[path] == tree[path],
{
    match step {
        Step::MakeDirs(made) => {
            if path.is_prefix_of(made) {
                assert(made.take(path.len() as int) == path);
            }
        },
        Step::Write(written, data) => {},
    }
}

/// The steps of one entry leave every directory in place.
pub proof fn lemma_entry_keeps_directory(tree: Tree, entry: StoredEntry, path: Seq<Seq<char>>)
    requires
        entry_steps(entry) is Some,
        run(tree, entry_steps(entry)->0) is Some,
        is_directory(tree, path),
    ensures
        is_directory(run(tree, entry_steps(entry)->0)->0, path),
{
    let steps = entry_steps(entry)->0;
    lemma_run_short(tree, steps);
    if steps.len() == 1 {
        lemma_step_keeps_directory(tree, steps[0], path);
    } else if steps.len() == 2 {
        lemma_step_keeps_directory(tree, steps[0], path);
        lemma_step_keeps_directory(apply(tree, steps[0])->0, steps[1], path);
    }
}

/// The steps of one entry leave every file in place, with its bytes, unless
/// the entry is unpacked into that file.
pub proof fn lemma_entry_keeps_file(tree: Tree, entry: StoredEntry, path: Seq<Seq<char>>)
    requires
        entry_steps(entry) is Some,
        run(tree, entry_steps(entry)->0) is Some,
        is_file(tree, path),
        !(unpacked_file(entry) matches Some(file) && file.path == path),
    ensures
        is_file(run(tree, entry_steps(entry)->0)->0, path),
        run(tree, entry_steps(entry)->0)->0[path] == tree[path],
{
    let steps = entry_steps(entry)->0;
    lemma_run_short(tree, steps);
    if steps.len() == 1 {
        lemma_step_keeps_file(tree, steps[0], path);
    } else if steps.len() == 2 {
        lemma_step_keeps_file(tree, steps[0], path);
        lemma_step_keeps_file(apply(tree, steps[0])->0, steps[1], path);
    }
}

/// After an extraction that succeeds, every file entry that was not skipped
/// lies at its path with exactly its bytes, unless a later entry was unpacked
/// into the same file. Where several entries name one file, the last one wins.
pub proof fn lemma_round_trip(entries: Seq<StoredEntry>, before: Tree, i: int)
    requires
        0 <= i < entries.len(),
        archive_steps(entries) is Some,
        run(before, archive_steps(entries)->0) is Some,
        unpacked_file(entries[i]) is Some,
        forall|j: int|
            i < j < entries.len() ==> !(unpacked_file(#[trigger] entries[j]) matches Some(later)
                && later.path == unpacked_file(entries[i])->0.path),
    ensures
        ({
            let after = run(before, archive_steps(entries)->0)->0;
            let file = unpacked_file(entries[i])->0;
            after.dom().contains(file.path) && after[file.path] == Node::File(file.data)
        }),
    decreases entries.len(),
{
    let earlier = entries.drop_last();
    let last = entries.last();
    let path = unpacked_file(entries[i])->0.path;
    lemma_run_concat(before, archive_steps(earlier)->0, entry_steps(last)->0);
    let between = run(before, archive_steps(earlier)->0)->0;
    if i == entries.len() - 1 {
        lemma_run_short(between, entry_steps(last)->0);
    } else {
        assert forall|j: int| i < j < earlier.len() implies !(unpacked_file(
            #[trigger] earlier[j],
        ) matches Some(later) && later.path == path) by {
            assert(earlier[j] == entries[j]);
        }
        assert(earlier[i] == entries[i]);
        lemma_round_trip(earlier, before, i);
        assert(last == entries[entries.len() - 1]);
        lemma_entry_keeps_file(between, last, path);
    }
}

/// After an extraction that succeeds, a directory lies at every ancestor of
/// every file that was unpacked, whether or not the archive holds an entry for
/// that directory.
pub proof fn lemma_directories_exist(entries: Seq<StoredEntry>, before: Tree, i: int, k: int)
    requires
        0 <= i < entries.len(),
        archive_steps(entries) is Some,
        run(before, archive_steps(entries)->0) is Some,
        unpacked_file(entries[i]) is Some,
        0 <= k < unpacked_file(entries[i])->0.path.len(),
    ensures
        is_directory(
            run(before, archive_steps(entries)->0)->0,
            unpacked_file(entries[i])->0.path.take(k),
        ),
    decreases entries.len(),
{
    let earlier = entries.drop_last();
    let last = entries.last();
    let path = unpacked_file(entries[i])->0.path;
    lemma_run_concat(before, archive_steps(earlier)->0, entry_steps(last)->0);
    let between = run(before, archive_steps(earlier)->0)->0;
    if i == entries.len() - 1 {
        let steps = entry_steps(last)->0;
        lemma_run_short(between, steps);
        let made = make_dirs(between, path.drop_last())->0;
        assert(path.take(k).is_prefix_of(path.drop_last()));
        assert(is_directory(made, path.take(k)));
        lemma_step_keeps_directory(made, steps[1], path.take(k));
    } else {
        assert(earlier[i] == entries[i]);
        lemma_directories_exist(earlier, before, i, k);
        lemma_entry_keeps_directory(between, last, path.take(k));
    }
}

/// After an extraction that succeeds, a directory lies where every directory
/// entry that was not skipped puts it, and at each of its ancestors.
pub proof fn lemma_marked_directories_exist(
    entries: Seq<StoredEntry>,
    before: Tree,
    i: int,
    k: int,
)
    requires
        0 <= i < entries.len(),
        archive_steps(entries) is Some,
        run(before, archive_steps(entries)->0) is Some,
        unpacked_directory(entries[i]) is Some,
        0 <= k <= unpacked_directory(entries[i])->0.len(),
    ensures
        is_directory(
            run(before, archive_steps(entries)->0)->0,
            unpacked_directory(entries[i])->0.take(k),
        ),
    decreases entries.len(),
{
    let earlier = entries.drop_last();
    let last = entries.last();
    let path = unpacked_directory(entries[i])->0;
    lemma_run_concat(before, archive_steps(earlier)->0, entry_steps(last)->0);
    let between = run(before, archive_steps(earlier)->0)->0;
    if i == entries.len() - 1 {
        lemma_run_short(between, entry_steps(last)->0);
        assert(path.take(k).is_prefix_of(path));
    } else {
        assert(earlier[i] == entries[i]);
        lemma_marked_directories_exist(earlier, before, i, k);
        lemma_entry_keeps_directory(between, last, path.take(k));
    }
}

/// An entry whose stored name escapes is skipped. No step is planned for it,
/// so nothing is written for it anywhere.
pub proof fn lemma_escaping_entry_is_skipped(entry: StoredEntry)
    requires
        entry.name matches Some(name) && escapes(pieces(name)),
    ensures
        entry_steps(entry) matches Some(steps) ==> steps.len() == 0,
        unpacked_file(entry) is None,
        unpacked_directory(entry) is None,
{
    lemma_escaping_name_is_refused(entry.name->0);
}

} // verus!
