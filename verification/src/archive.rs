//! The archive reader.
//!
//! Decoding the ZIP format is the work of the `zip` crate. Nothing in this
//! module is proved: it declares the crate's types, names what the crate
//! reports of an archive, and wraps each call that the extraction makes. The
//! archive is held in memory, so no call here touches a file.

use vstd::prelude::*;

verus! {

/// `zip::ZipArchive`, the reader of an archive. Nothing is known of what is
/// inside a value of it but what [`archive_entries`] names.
#[verifier::external_type_specification]
#[verifier::external_body]
#[verifier::reject_recursive_types(R)]
pub struct ExZipArchive<R>(zip::ZipArchive<R>);

/// `std::io::Cursor`, through which the reader reads bytes held in memory.
#[verifier::external_type_specification]
#[verifier::external_body]
#[verifier::reject_recursive_types(T)]
pub struct ExCursor<T>(std::io::Cursor<T>);

/// `zip::result::ZipError`, the reader's failure. It is carried, never looked
/// into: every failure of the reader is reported as a malformed archive.
#[verifier::external_type_specification]
#[verifier::external_body]
pub struct ExZipError(zip::result::ZipError);

/// What the reader reports of one stored entry. A field is `None` where the
/// reader fails when asked for it.
pub ghost struct StoredEntry {
    /// Whether the reader takes the stored name for a path that stays inside
    /// the directory it is extracted into.
    pub enclosed: Option<bool>,
    /// The stored name.
    pub name: Option<Seq<char>>,
    /// The decompressed content.
    pub data: Option<Seq<u8>>,
}

/// What `zip::ZipArchive::new` makes of `bytes`: the entries of the archive
/// that it opens, in the order of their indices, or `None` where it refuses
/// the bytes.
pub uninterp spec fn zip_directory(bytes: Seq<u8>) -> Option<Seq<StoredEntry>>;

/// What an opened archive holds: its entries, in the order of their indices.
pub uninterp spec fn archive_entries(archive: zip::ZipArchive<std::io::Cursor<Vec<u8>>>) -> Seq<
    StoredEntry,
>;

/// `zip::ZipArchive::new` over a `std::io::Cursor` on `bytes`: opens the
/// archive by reading its central directory. Claimed: whether the bytes are
/// refused, and what the opened archive holds, depends on the bytes alone.
#[verifier::external_body]
pub(crate) fn open_archive(bytes: Vec<u8>) -> (r: Result<
    zip::ZipArchive<std::io::Cursor<Vec<u8>>>,
    zip::result::ZipError,
>)
    ensures
        match r {
            Ok(archive) => zip_directory(bytes@) == Some(archive_entries(archive)),
            Err(_) => zip_directory(bytes@) is None,
        },
{
    zip::ZipArchive::new(std::io::Cursor::new(bytes))
}

/// `zip::ZipArchive::len`. Claimed: it is the number of entries that the
/// archive holds.
#[verifier::external_body]
pub(crate) fn entry_count(archive: &zip::ZipArchive<std::io::Cursor<Vec<u8>>>) -> (n: usize)
    ensures
        n == archive_entries(*archive).len(),
{
    archive.len()
}

/// `zip::ZipArchive::by_index`, then `zip::read::ZipFile::enclosed_name`:
/// whether the reader accepts the name of entry `index` as a path that stays
/// inside the extraction directory. Claimed: asking leaves the entries as they
/// were, and the answer is that of the entry's `enclosed` field.
#[verifier::external_body]
pub(crate) fn entry_is_enclosed(
    archive: &mut zip::ZipArchive<std::io::Cursor<Vec<u8>>>,
    index: usize,
) -> (r: Result<bool, zip::result::ZipError>)
    requires
        index < archive_entries(*old(archive)).len(),
    ensures
        archive_entries(*final(archive)) == archive_entries(*old(archive)),
        match r {
            Ok(enclosed) => archive_entries(*old(archive))[index as int].enclosed == Some(enclosed),
            Err(_) => archive_entries(*old(archive))[index as int].enclosed is None,
        },
{
    Ok(archive.by_index(index)?.enclosed_name().is_some())
}

/// `zip::ZipArchive::by_index`, then `zip::read::ZipFile::name`: the stored
/// name of entry `index`. Claimed: asking leaves the entries as they were, and
/// the answer is that of the entry's `name` field.
#[verifier::external_body]
pub(crate) fn entry_name(
    archive: &mut zip::ZipArchive<std::io::Cursor<Vec<u8>>>,
    index: usize,
) -> (r: Result<String, zip::result::ZipError>)
    requires
        index < archive_entries(*old(archive)).len(),
    ensures
        archive_entries(*final(archive)) == archive_entries(*old(archive)),
        match r {
            Ok(name) => archive_entries(*old(archive))[index as int].name == Some(name@),
            Err(_) => archive_entries(*old(archive))[index as int].name is None,
        },
{
    Ok(archive.by_index(index)?.name()?.into_owned())
}

/// `zip::ZipArchive::by_index`, then `std::io::Read::read_to_end` on the
/// entry: its decompressed content. Claimed: asking leaves the entries as they
/// were, and the answer is that of the entry's `data` field.
#[verifier::external_body]
pub(crate) fn entry_data(
    archive: &mut zip::ZipArchive<std::io::Cursor<Vec<u8>>>,
    index: usize,
) -> (r: Result<Vec<u8>, zip::result::ZipError>)
    requires
        index < archive_entries(*old(archive)).len(),
    ensures
        archive_entries(*final(archive)) == archive_entries(*old(archive)),
        match r {
            Ok(data) => archive_entries(*old(archive))[index as int].data == Some(data@),
            Err(_) => archive_entries(*old(archive))[index as int].data is None,
        },
{
    let mut data = Vec::new();
    std::io::Read::read_to_end(&mut archive.by_index(index)?, &mut data)?;
    Ok(data)
}

} // verus!
