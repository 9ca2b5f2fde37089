//! Planning the extraction of an archive.
//!
//! The library writes nothing itself. It reads the archive, decides for each
//! entry whether it is skipped, names a directory or holds a file, and hands
//! back the operations that unpack the archive below a destination directory,
//! in the order in which they have to be carried out.

use vstd::prelude::*;
use crate::archive::{
    archive_entries, entry_count, entry_data, entry_is_enclosed, entry_name, open_archive,
    zip_directory, StoredEntry,
};
use crate::error::EpubError;
use crate::relpath::{
    all_plain, ends_with_separator, is_directory_marker, lemma_normalized_is_plain, normalize,
    path_under, RelPath,
};

verus! {

/// One step of an extraction.
#[derive(Debug, PartialEq, Eq)]
pub enum FsOp {
    /// Make sure that the directory at `path` exists, with all its ancestors.
    CreateDirAll { path: String },
    /// Create the file at `path`, or empty the one that is there, and write
    /// `data` to it.
    WriteFile { path: String, data: Vec<u8> },
}

/// An [`FsOp`] as plain values.
pub ghost enum FsOpView {
    CreateDirAll { path: Seq<char> },
    WriteFile { path: Seq<char>, data: Seq<u8> },
}

impl View for FsOp {
    type V = FsOpView;

    open spec fn view(&self) -> FsOpView {
        match *self {
            FsOp::CreateDirAll { path } => FsOpView::CreateDirAll { path: path@ },
            FsOp::WriteFile { path, data } => FsOpView::WriteFile { path: path@, data: data@ },
        }
    }
}

impl DeepView for FsOp {
    type V = FsOpView;

    open spec fn deep_view(&self) -> FsOpView {
        self@
    }
}

/// What becomes of an entry.
#[derive(Debug, PartialEq, Eq)]
pub enum Target {
    /// The stored name is refused: the entry is left out.
    Skip,
    /// The entry marks the directory at this path.
    Directory(RelPath),
    /// The entry is the file at this path.
    File(RelPath),
}

/// A [`Target`] as plain values.
pub ghost enum TargetView {
    Skip,
    Directory(Seq<Seq<char>>),
    File(Seq<Seq<char>>),
}

impl View for Target {
    type V = TargetView;

    open spec fn view(&self) -> TargetView {
        match *self {
            Target::Skip => TargetView::Skip,
            Target::Directory(path) => TargetView::Directory(path@),
            Target::File(path) => TargetView::File(path@),
        }
    }
}

/// What becomes of the entry stored under `name`: it is skipped where the name
/// cannot be normalized, a directory where the name ends with a separator, and
/// a file otherwise.
pub open spec fn target(name: Seq<char>) -> TargetView {
    match normalize(name) {
        None => TargetView::Skip,
        Some(components) => if is_directory_marker(name) {
            TargetView::Directory(components)
        } else {
            TargetView::File(components)
        },
    }
}

/// One step of an extraction, with its path given by components below the
/// destination. No components stand for the destination itself.
pub ghost enum Step {
    /// Make sure that the directory exists, with all its ancestors.
    MakeDirs(Seq<Seq<char>>),
    /// Create or empty the file, and write the bytes to it.
    Write(Seq<Seq<char>>, Seq<u8>),
}

/// The operation that carries out `step` below `root`.
pub open spec fn render(step: Step, root: Seq<char>) -> FsOpView {
    match step {
        Step::MakeDirs(components) => FsOpView::CreateDirAll { path: path_under(root, components) },
        Step::Write(components, data) => FsOpView::WriteFile {
            path: path_under(root, components),
            data,
        },
    }
}

/// The operations that carry out `steps` below `root`, in the same order.
pub open spec fn rendered(steps: Seq<Step>, root: Seq<char>) -> Seq<FsOpView> {
    steps.map_values(|step: Step| render(step, root))
}

/// The step that unpacks a directory entry.
pub open spec fn directory_steps(components: Seq<Seq<char>>) -> Seq<Step> {
    seq![Step::MakeDirs(components)]
}

/// The steps that unpack a file entry: its directory is made first, whether
/// or not the archive holds an entry for it.
pub open spec fn file_steps(components: Seq<Seq<char>>, data: Seq<u8>) -> Seq<Step> {
    seq![Step::MakeDirs(components.drop_last()), Step::Write(components, data)]
}

/// The steps that unpack one entry; `None` where the reader fails on a part of
/// the entry that the extraction needs.
///
/// An entry is skipped where the reader does not accept its name as enclosed,
/// or where the name cannot be normalized. Its content is asked for only where
/// it is a file.
pub open spec fn entry_steps(entry: StoredEntry) -> Option<Seq<Step>> {
    match entry.enclosed {
        None => None,
        Some(false) => Some(Seq::empty()),
        Some(true) => match entry.name {
            None => None,
            Some(name) => match target(name) {
                TargetView::Skip => Some(Seq::empty()),
                TargetView::Directory(components) => Some(directory_steps(components)),
                TargetView::File(components) => match entry.data {
                    None => None,
                    Some(data) => Some(file_steps(components, data)),
                },
            },
        },
    }
}

/// The steps that unpack `entries`, entry after entry in the stored order;
/// `None` where the reader fails on one of them.
pub open spec fn archive_steps(entries: Seq<StoredEntry>) -> Option<Seq<Step>>
    decreases entries.len(),
{
    if entries.len() == 0 {
        Some(Seq::empty())
    } else {
        match (archive_steps(entries.drop_last()), entry_steps(entries.last())) {
            (Some(before), Some(steps)) => Some(before + steps),
            _ => None,
        }
    }
}

/// The outcome of planning the extraction of the archive `bytes` below `root`.
pub open spec fn extraction(bytes: Seq<u8>, root: Seq<char>) -> Result<Seq<FsOpView>, EpubError> {
    match zip_directory(bytes) {
        None => Err(EpubError::ArchiveFormat),
        Some(entries) => match archive_steps(entries) {
            None => Err(EpubError::ArchiveFormat),
            Some(steps) => Ok(rendered(steps, root)),
        },
    }
}

/// An extraction fails as soon as the reader fails on one entry, whatever follows.
pub proof fn lemma_failure_is_final(entries: Seq<StoredEntry>, k: int)
    requires
        0 <= k <= entries.len(),
        archive_steps(entries.take(k)) is None,
    ensures
        archive_steps(entries) is None,
    decreases entries.len() - k,
{
    if k == entries.len() {
        assert(entries.take(k) == entries);
    } else {
        assert(entries.take(k + 1).drop_last() == entries.take(k));
        lemma_failure_is_final(entries, k + 1);
    }
}

/// Whether a step stays below the destination: its path is made of plain
/// components, and a file is never the destination itself.
pub open spec fn stays_below(step: Step) -> bool {
    match step {
        Step::MakeDirs(path) => all_plain(path),
        Step::Write(path, _) => path.len() > 0 && all_plain(path),
    }
}

/// Whether an operation stays below `root`: it carries out, below `root`, a
/// step that stays below the destination.
pub open spec fn lies_below(op: FsOpView, root: Seq<char>) -> bool {
    exists|step: Step| stays_below(step) && op == #[trigger] render(step, root)
}

/// Every step of a plan stays below the destination.
pub proof fn lemma_plan_stays_below(entries: Seq<StoredEntry>, k: int)
    requires
        archive_steps(entries) is Some,
        0 <= k < archive_steps(entries)->0.len(),
    ensures
        stays_below(archive_steps(entries)->0[k]),
    decreases entries.len(),
{
    let earlier = entries.drop_last();
    let last = entries.last();
    let before = archive_steps(earlier)->0;
    if k < before.len() {
        lemma_plan_stays_below(earlier, k);
    } else {
        let name = last.name->0;
        lemma_normalized_is_plain(name);
    }
}

/// Every operation that is planned for an archive stays below the destination
/// that was given.
pub proof fn lemma_extraction_stays_below(bytes: Seq<u8>, root: Seq<char>)
    requires
        extraction(bytes, root) is Ok,
    ensures
        forall|k: int|
            0 <= k < extraction(bytes, root)->Ok_0.len() ==> lies_below(
                #[trigger] extraction(bytes, root)->Ok_0[k],
                root,
            ),
{
    let entries = zip_directory(bytes)->0;
    let ops = extraction(bytes, root)->Ok_0;
    assert forall|k: int| 0 <= k < ops.len() implies lies_below(#[trigger] ops[k], root) by {
        let step = archive_steps(entries)->0[k];
        lemma_plan_stays_below(entries, k);
        assert(ops[k] == render(step, root));
    }
}

/// Decides what becomes of the entry stored under `name`.
pub fn target_of(name: &str) -> (t: Target)
    ensures
        t@ == target(name@),
{
    match RelPath::parse(name) {
        None => Target::Skip,
        Some(path) => {
            if ends_with_separator(name) {
                Target::Directory(path)
            } else {
                Target::File(path)
            }
        },
    }
}

/// Plans the unpacking of a directory entry below `root`.
pub fn directory_op(root: &str, path: &RelPath) -> (op: FsOp)
    ensures
        seq![op@] == rendered(directory_steps(path@), root@),
{
    FsOp::CreateDirAll { path: path.below(root) }
}

/// Plans the unpacking of a file entry below `root`: first its directory, then
/// the file itself.
pub fn file_ops(root: &str, path: &RelPath, data: Vec<u8>) -> (ops: (FsOp, FsOp))
    ensures
        seq![ops.0@, ops.1@] == rendered(file_steps(path@, data@), root@),
{
    (
        FsOp::CreateDirAll { path: path.parent_below(root) },
        FsOp::WriteFile { path: path.below(root), data },
    )
}

/// Plans the extraction of the ZIP archive held in `archive` below
/// `output_directory`.
///
/// The entries are taken in the order in which the archive stores them, and
/// none is left out for having the target of another: where two entries name
/// one path, the plan writes both, the later one last. The first entry that
/// the reader fails on ends the planning, and no plan is given. Whatever the
/// archive holds, no operation of the plan leaves `output_directory`.
pub fn extract_zipfile(archive: Vec<u8>, output_directory: &str) -> (r: Result<Vec<FsOp>, EpubError>)
    ensures
        match r {
            Ok(ops) => extraction(archive@, output_directory@) == Ok::<Seq<FsOpView>, EpubError>(
                ops.deep_view(),
            ),
            Err(e) => extraction(archive@, output_directory@) == Err::<Seq<FsOpView>, EpubError>(e),
        },
        r matches Ok(ops) ==> forall|k: int|
            0 <= k < ops.len() ==> lies_below(#[trigger] ops.deep_view()[k], output_directory@),
{
    let ghost bytes = archive@;
    let mut reader = match open_archive(archive) {
        Ok(reader) => reader,
        Err(_) => {
            return Err(EpubError::ArchiveFormat);
        },
    };
    let ghost entries = archive_entries(reader);
    let count = entry_count(&reader);
    let mut ops: Vec<FsOp> = Vec::new();
    let mut i: usize = 0;
    assert(entries.take(0) == Seq::<StoredEntry>::empty());
    assert(ops.deep_view() == Seq::<FsOpView>::empty());
    while i < count
        invariant
            i <= count,
            count == entries.len(),
            bytes == archive@,
            zip_directory(bytes) == Some(entries),
            archive_entries(reader) == entries,
            archive_steps(entries.take(i as int)) is Some,
            ops.deep_view() == rendered(archive_steps(entries.take(i as int))->0, output_directory@),
        decreases count - i,
    {
        proof {
            assert(entries.take(i + 1).drop_last() == entries.take(i as int));
            assert(entries.take(i + 1).last() == entries[i as int]);
            if entry_steps(entries[i as int]) is None {
                lemma_failure_is_final(entries, i + 1);
            }
        }
        let ghost before = ops.deep_view();
        let enclosed = match entry_is_enclosed(&mut reader, i) {
            Ok(enclosed) => enclosed,
            Err(_) => {
                return Err(EpubError::ArchiveFormat);
            },
        };
        if enclosed {
            let name = match entry_name(&mut reader, i) {
                Ok(name) => name,
                Err(_) => {
                    return Err(EpubError::ArchiveFormat);
                },
            };
            match target_of(name.as_str()) {
                Target::Skip => {},
                Target::Directory(path) => {
                    let op = directory_op(output_directory, &path);
                    ops.push(op);
                    assert(ops.deep_view() == before + seq![op@]);
                },
                Target::File(path) => {
                    let data = match entry_data(&mut reader, i) {
                        Ok(data) => data,
                        Err(_) => {
                            return Err(EpubError::ArchiveFormat);
                        },
                    };
                    let (make, write) = file_ops(output_directory, &path, data);
                    ops.push(make);
                    ops.push(write);
                    assert(ops.deep_view() == before + seq![make@, write@]);
                },
            }
        }
        assert(ops.deep_view() == before + rendered(
            entry_steps(entries[i as int])->0,
            output_directory@,
        ));
        i = i + 1;
    }
    proof {
        assert(entries.take(count as int) == entries);
        lemma_extraction_stays_below(bytes, output_directory@);
        let planned = extraction(bytes, output_directory@)->Ok_0;
        assert(planned == ops.deep_view());
        assert forall|k: int| 0 <= k < ops.len() implies lies_below(
            #[trigger] ops.deep_view()[k],
            output_directory@,
        ) by {
            assert(lies_below(planned[k], output_directory@));
        }
    }
    Ok(ops)
}

} // verus!
