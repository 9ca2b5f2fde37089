//! The container descriptor, `META-INF/container.xml`, once it has been parsed.
//!
//! The descriptor has one fixed shape:
//!
//! ```text
//! container
//!   rootfiles
//!     rootfile (attributes: full-path, media-type)
//! ```
//!
//! Reading the XML text into these types is the caller's part. What the
//! library decides is whether the descriptor that was read names a package
//! document.

use vstd::prelude::*;
use crate::error::EpubError;
use crate::text::same_text;

verus! {

/// The media type that the root file of a book has to declare.
pub const PACKAGE_MEDIA_TYPE: &'static str = "application/oebps-package+xml";

/// The `rootfile` element: where the package document lies, and what it is.
#[derive(Debug, PartialEq, Eq)]
pub struct Rootfile {
    /// The `full-path` attribute: the path of the package document, relative
    /// to the directory that the book was extracted into.
    pub full_path: String,
    /// The `media-type` attribute.
    pub media_type: String,
}

/// The `rootfiles` element.
#[derive(Debug, PartialEq, Eq)]
pub struct Rootfiles {
    pub rootfile: Rootfile,
}

/// The `container` element, the root of the descriptor.
#[derive(Debug, PartialEq, Eq)]
pub struct Container {
    pub rootfiles: Rootfiles,
}

/// What a descriptor says: the two attributes of its root file.
pub ghost struct RootfileView {
    pub full_path: Seq<char>,
    pub media_type: Seq<char>,
}

impl View for Rootfile {
    type V = RootfileView;

    open spec fn view(&self) -> RootfileView {
        RootfileView { full_path: self.full_path@, media_type: self.media_type@ }
    }
}

impl View for Container {
    type V = RootfileView;

    open spec fn view(&self) -> RootfileView {
        self.rootfiles.rootfile@
    }
}

/// What was read from `container.xml`: `None` where the text does not have
/// the shape of a descriptor.
pub open spec fn described(container: Option<Container>) -> Option<RootfileView> {
    match container {
        Some(c) => Some(c@),
        None => None,
    }
}

/// The outcome of resolving what was read from `container.xml`: the path of
/// the package document, as the descriptor writes it, where the root file
/// declares the media type of a package document.
pub open spec fn resolution(descriptor: Option<RootfileView>) -> Result<Seq<char>, EpubError> {
    match descriptor {
        None => Err(EpubError::SchemaValidation),
        Some(rootfile) => if rootfile.media_type == PACKAGE_MEDIA_TYPE@ {
            Ok(rootfile.full_path)
        } else {
            Err(EpubError::UnexpectedMediaType)
        },
    }
}

impl Container {
    /// Builds a descriptor from the two attributes of its root file.
    pub fn new(full_path: String, media_type: String) -> (c: Container)
        ensures
            c@ == (RootfileView { full_path: full_path@, media_type: media_type@ }),
    {
        Container { rootfiles: Rootfiles { rootfile: Rootfile { full_path, media_type } } }
    }

    /// Resolves the descriptor: gives the path of the package document, as it
    /// is written in the descriptor, where the root file declares the media
    /// type of a package document. Whether anything lies at that path is not
    /// looked at.
    pub fn resolve(container: Option<Container>) -> (r: Result<String, EpubError>)
        ensures
            match r {
                Ok(path) => resolution(described(container)) == Ok::<Seq<char>, EpubError>(path@),
                Err(e) => resolution(described(container)) == Err::<Seq<char>, EpubError>(e),
            },
    {
        match container {
            None => Err(EpubError::SchemaValidation),
            Some(c) => {
                if same_text(c.rootfiles.rootfile.media_type.as_str(), PACKAGE_MEDIA_TYPE) {
                    Ok(c.rootfiles.rootfile.full_path)
                } else {
                    Err(EpubError::UnexpectedMediaType)
                }
            },
        }
    }
}

} // verus!
