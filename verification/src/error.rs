//! The ways in which unpacking a book can fail.

use vstd::prelude::*;

verus! {

/// Why an archive could not be unpacked or a book could not be opened. Every
/// failure ends the operation it occurs in: nothing is retried and no partial
/// result is given.
///
/// The library touches no file, so a failure to read or write one is not among
/// these: it is the caller's to report.
#[derive(Clone, Copy, Debug, PartialEq, Eq, Structural)]
pub enum EpubError {
    /// The archive is not a ZIP container that the reader can decode.
    ArchiveFormat,
    /// The `mimetype` file does not hold the expected text, or the container
    /// descriptor lacks the expected element or attributes.
    SchemaValidation,
    /// The container descriptor names a package document of another media type.
    UnexpectedMediaType,
}

impl EpubError {
    /// A short description of the failure.
    pub fn message(&self) -> (text: &'static str)
        ensures
            text@ == match *self {
                EpubError::ArchiveFormat => "not a readable ZIP archive"@,
                EpubError::SchemaValidation => "unexpected mimetype or container descriptor"@,
                EpubError::UnexpectedMediaType => "unexpected media type of the package document"@,
            },
    {
        match self {
            EpubError::ArchiveFormat => "not a readable ZIP archive",
            EpubError::SchemaValidation => "unexpected mimetype or container descriptor",
            EpubError::UnexpectedMediaType => "unexpected media type of the package document",
        }
    }
}

} // verus!
