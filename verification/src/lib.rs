//! Unpacking an EPUB archive and finding its package document.
//!
//! An EPUB is a ZIP archive that holds a `mimetype` file and a container
//! descriptor at `META-INF/container.xml`. This library
//!
//! - derives the name of a book from the path of its archive
//!   ([`name::strip_filename`]),
//! - plans the extraction of the archive below a directory, leaving out every
//!   entry whose name would lead outside of it ([`extract::extract_zipfile`]),
//! - checks what was read back from the extracted tree and resolves the path
//!   of the package document ([`epub::Epub::new`]).
//!
//! The library does no I/O. It takes the archive as bytes and the two files as
//! what was read from them, and gives back what is to be written as a list of
//! operations. What carrying out these operations achieves is stated and
//! proved in [`tree`], over a model of the directory tree.

pub mod archive;
pub mod container;
pub mod epub;
pub mod error;
pub mod extract;
pub mod name;
pub mod relpath;
mod text;
pub mod tree;

pub use crate::epub::Epub;
pub use crate::error::EpubError;
pub use crate::extract::{extract_zipfile, FsOp};
pub use crate::name::strip_filename;
