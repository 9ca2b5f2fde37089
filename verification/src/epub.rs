//! The handle of an unpacked book.

use vstd::prelude::*;
use vstd::string::StringExecFns;
use crate::container::{described, resolution, Container, RootfileView};
use crate::error::EpubError;
use crate::extract::{extract_zipfile, extraction, lies_below, FsOp, FsOpView};
use crate::name::{book_name, strip_filename};
use crate::text::same_text;

verus! {

/// The text that the `mimetype` file of a book holds, to the letter.
pub const EPUB_MIMETYPE: &'static str = "application/epub+zip";

/// Where the `mimetype` file lies in an unpacked book.
pub const MIMETYPE: &'static str = "mimetype";

/// Where the container descriptor lies in an unpacked book.
pub const CONTAINER: &'static str = "META-INF/container.xml";

/// The path of `file` in the directory that the book `name` is unpacked into.
pub open spec fn book_file(name: Seq<char>, file: Seq<char>) -> Seq<char> {
    name + seq!['/'] + file
}

/// The outcome of checking the text read from the `mimetype` file.
pub open spec fn mimetype_check(contents: Seq<char>) -> Result<(), EpubError> {
    if contents == EPUB_MIMETYPE@ {
        Ok(())
    } else {
        Err(EpubError::SchemaValidation)
    }
}

/// The outcome of opening a book: the mimetype is checked first, and the
/// descriptor is looked at only where that check has passed.
pub open spec fn opening(
    filename: Seq<char>,
    mimetype: Seq<char>,
    descriptor: Option<RootfileView>,
) -> Result<EpubView, EpubError> {
    match mimetype_check(mimetype) {
        Err(e) => Err(e),
        Ok(_) => match resolution(descriptor) {
            Err(e) => Err(e),
            Ok(content_file) => Ok(
                EpubView { name: book_name(filename), filename, content_file },
            ),
        },
    }
}

/// The path of `file` in the directory that the book `name` is unpacked into.
pub fn path_in_book(name: &str, file: &str) -> (path: String)
    ensures
        path@ == book_file(name@, file@),
{
    proof {
        reveal_strlit("/");
        assert("/"@ == seq!['/']);
    }
    let mut path = name.to_owned();
    path.append("/");
    path.append(file);
    path
}

/// An unpacked book: its name, the archive it came from, and the path of its
/// package document.
#[derive(Debug, PartialEq, Eq)]
pub struct Epub {
    name: String,
    filename: String,
    content_file: String,
}

/// An [`Epub`] as plain values.
pub ghost struct EpubView {
    /// The book's name, which is also the directory it is unpacked into.
    pub name: Seq<char>,
    /// The path of the archive.
    pub filename: Seq<char>,
    /// The path of the package document, relative to the book's directory.
    pub content_file: Seq<char>,
}

impl View for Epub {
    type V = EpubView;

    closed spec fn view(&self) -> EpubView {
        EpubView { name: self.name@, filename: self.filename@, content_file: self.content_file@ }
    }
}

impl Epub {
    /// A handle is named after the archive it came from.
    pub open spec fn well_formed(&self) -> bool {
        self@.name == book_name(self@.filename)
    }

    /// Opens the book that was unpacked from the archive at `filename`.
    ///
    /// `mimetype` is the text read from the book's `mimetype` file, and
    /// `container` the descriptor read from `META-INF/container.xml`, or `None`
    /// where that file does not have the shape of a descriptor. The mimetype
    /// is checked first: where it is wrong, the descriptor plays no part.
    /// There is no handle unless both checks pass.
    pub fn new(filename: &str, mimetype: &str, container: Option<Container>) -> (r: Result<
        Epub,
        EpubError,
    >)
        ensures
            match r {
                Ok(epub) => epub.well_formed() && opening(
                    filename@,
                    mimetype@,
                    described(container),
                ) == Ok::<EpubView, EpubError>(epub@),
                Err(e) => opening(filename@, mimetype@, described(container)) == Err::<
                    EpubView,
                    EpubError,
                >(e),
            },
            mimetype@ != EPUB_MIMETYPE@ ==> (r matches Err(e) && e == EpubError::SchemaValidation),
    {
        let mut e = Epub {
            name: strip_filename(filename),
            content_file: String::new(),
            filename: filename.to_owned(),
        };
        match Epub::verify_mimetype(mimetype) {
            Err(err) => {
                return Err(err);
            },
            Ok(_) => {},
        }
        match e.get_content_file(container) {
            Err(err) => Err(err),
            Ok(_) => Ok(e),
        }
    }

    /// The path of `file` inside the book's directory.
    pub fn _path(&self, file: &str) -> (path: String)
        ensures
            path@ == book_file(self@.name, file@),
    {
        path_in_book(self.name.as_str(), file)
    }

    /// Checks the text read from the book's `mimetype` file. It has to be
    /// exactly [`EPUB_MIMETYPE`]: a trailing newline is a mismatch.
    pub fn verify_mimetype(contents: &str) -> (r: Result<(), EpubError>)
        ensures
            r == mimetype_check(contents@),
    {
        if same_text(contents, EPUB_MIMETYPE) {
            Ok(())
        } else {
            Err(EpubError::SchemaValidation)
        }
    }

    /// Takes the path of the package document from the container descriptor.
    /// Where the descriptor is refused, the handle stays as it was.
    fn get_content_file(&mut self, container: Option<Container>) -> (r: Result<(), EpubError>)
        ensures
            match resolution(described(container)) {
                Ok(path) => r is Ok && final(self)@ == (EpubView { content_file: path, ..old(self)@ }),
                Err(e) => r == Err::<(), EpubError>(e) && final(self)@ == old(self)@,
            },
            old(self).well_formed() ==> final(self).well_formed(),
    {
        match Container::resolve(container) {
            Ok(path) => {
                self.content_file = path;
                Ok(())
            },
            Err(e) => Err(e),
        }
    }

    /// Plans the unpacking of the archive at `filename`, whose bytes are
    /// `archive`, into the directory named after the book.
    pub fn extract(filename: &str, archive: Vec<u8>) -> (r: Result<Vec<FsOp>, EpubError>)
        ensures
            match r {
                Ok(ops) => extraction(archive@, book_name(filename@)) == Ok::<
                    Seq<FsOpView>,
                    EpubError,
                >(ops.deep_view()),
                Err(e) => extraction(archive@, book_name(filename@)) == Err::<
                    Seq<FsOpView>,
                    EpubError,
                >(e),
            },
            r matches Ok(ops) ==> forall|k: int|
                0 <= k < ops.len() ==> lies_below(
                    #[trigger] ops.deep_view()[k],
                    book_name(filename@),
                ),
    {
        let name = strip_filename(filename);
        extract_zipfile(archive, name.as_str())
    }

    /// The book's name.
    pub fn name(&self) -> (name: &str)
        ensures
            name@ == self@.name,
    {
        self.name.as_str()
    }

    /// The path of the archive that the book came from.
    pub fn filename(&self) -> (filename: &str)
        ensures
            filename@ == self@.filename,
    {
        self.filename.as_str()
    }

    /// The path of the package document, relative to the book's directory.
    pub fn content_file(&self) -> (path: &str)
        ensures
            path@ == self@.content_file,
    {
        self.content_file.as_str()
    }
}

} // verus!
