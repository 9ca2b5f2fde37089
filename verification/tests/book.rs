use std::io::{Cursor, Write};

use epub_unpack::container::{Container, Rootfile, Rootfiles, PACKAGE_MEDIA_TYPE};
use epub_unpack::epub::{path_in_book, Epub, CONTAINER, EPUB_MIMETYPE, MIMETYPE};
use epub_unpack::error::EpubError;
use epub_unpack::extract::FsOp;
use zip::write::SimpleFileOptions;
use zip::ZipWriter;

fn container(full_path: &str, media_type: &str) -> Container {
    Container::new(full_path.to_string(), media_type.to_string())
}

fn dune() -> Epub {
    Epub::new(
        "/home/user/books/Dune.epub",
        "application/epub+zip",
        Some(container("OEBPS/content.opf", "application/oebps-package+xml")),
    )
    .unwrap()
}

#[test]
fn a_book_is_opened() {
    let epub = dune();
    assert_eq!(epub.name(), "Dune");
    assert_eq!(epub.filename(), "/home/user/books/Dune.epub");
    assert_eq!(epub.content_file(), "OEBPS/content.opf");
}

#[test]
fn the_package_path_is_taken_verbatim() {
    let descriptor = container("OEBPS/content.opf", "application/oebps-package+xml");
    assert_eq!(Container::resolve(Some(descriptor)), Ok("OEBPS/content.opf".to_string()));
    let odd = container("./a//b/../c.opf ", "application/oebps-package+xml");
    assert_eq!(Container::resolve(Some(odd)), Ok("./a//b/../c.opf ".to_string()));
}

#[test]
fn another_media_type_is_refused() {
    let descriptor = container("OEBPS/content.opf", "text/plain");
    assert_eq!(Container::resolve(Some(descriptor)), Err(EpubError::UnexpectedMediaType));
    let r = Epub::new(
        "Dune.epub",
        "application/epub+zip",
        Some(container("OEBPS/content.opf", "text/plain")),
    );
    assert_eq!(r, Err(EpubError::UnexpectedMediaType));
}

#[test]
fn the_media_type_is_compared_to_the_letter() {
    for media_type in
        ["", "application/oebps-package+xml ", "Application/oebps-package+xml", "application/oebps-package"]
    {
        let descriptor = container("content.opf", media_type);
        assert_eq!(Container::resolve(Some(descriptor)), Err(EpubError::UnexpectedMediaType));
    }
}

#[test]
fn a_missing_descriptor_is_a_schema_failure() {
    assert_eq!(Container::resolve(None), Err(EpubError::SchemaValidation));
    assert_eq!(
        Epub::new("Dune.epub", "application/epub+zip", None),
        Err(EpubError::SchemaValidation)
    );
}

#[test]
fn a_descriptor_is_built_field_by_field() {
    let by_fields = Container {
        rootfiles: Rootfiles {
            rootfile: Rootfile {
                full_path: "content.opf".to_string(),
                media_type: PACKAGE_MEDIA_TYPE.to_string(),
            },
        },
    };
    assert_eq!(by_fields, container("content.opf", "application/oebps-package+xml"));
    assert_eq!(Container::resolve(Some(by_fields)), Ok("content.opf".to_string()));
}

#[test]
fn the_mimetype_is_compared_to_the_letter() {
    assert_eq!(Epub::verify_mimetype("application/epub+zip"), Ok(()));
    assert_eq!(Epub::verify_mimetype(EPUB_MIMETYPE), Ok(()));
    for contents in [
        "",
        "application/epub+zip\n",
        "application/epub+zip ",
        " application/epub+zip",
        "application/zip",
        "APPLICATION/EPUB+ZIP",
        "text/plain",
    ] {
        assert_eq!(Epub::verify_mimetype(contents), Err(EpubError::SchemaValidation));
    }
}

#[test]
fn a_wrong_mimetype_fails_whatever_the_descriptor_holds() {
    let good = container("OEBPS/content.opf", "application/oebps-package+xml");
    let bad = container("OEBPS/content.opf", "text/plain");
    assert_eq!(Epub::new("Dune.epub", "application/zip", Some(good)), Err(EpubError::SchemaValidation));
    assert_eq!(Epub::new("Dune.epub", "application/zip", Some(bad)), Err(EpubError::SchemaValidation));
    assert_eq!(Epub::new("Dune.epub", "application/zip", None), Err(EpubError::SchemaValidation));
}

#[test]
fn the_name_keeps_only_what_precedes_the_first_dot() {
    let epub = Epub::new(
        "archive.tar.epub",
        "application/epub+zip",
        Some(container("content.opf", "application/oebps-package+xml")),
    )
    .unwrap();
    assert_eq!(epub.name(), "archive");
    assert_eq!(epub.filename(), "archive.tar.epub");
}

#[test]
fn paths_inside_the_book() {
    let epub = dune();
    assert_eq!(epub._path("mimetype"), "Dune/mimetype");
    assert_eq!(epub._path(CONTAINER), "Dune/META-INF/container.xml");
    assert_eq!(epub._path(epub.content_file()), "Dune/OEBPS/content.opf");
    assert_eq!(epub._path(""), "Dune/");
    assert_eq!(path_in_book("Dune", MIMETYPE), "Dune/mimetype");
    assert_eq!(path_in_book("", MIMETYPE), "/mimetype");
}

#[test]
fn a_book_is_unpacked_into_the_directory_named_after_it() {
    let mut writer = ZipWriter::new(Cursor::new(Vec::new()));
    writer.start_file("mimetype", SimpleFileOptions::default()).unwrap();
    writer.write_all(b"application/epub+zip").unwrap();
    writer.start_file("META-INF/container.xml", SimpleFileOptions::default()).unwrap();
    writer.write_all(b"<container/>").unwrap();
    let archive = writer.finish().unwrap().into_inner();
    let ops = Epub::extract("/home/user/books/Dune.epub", archive).unwrap();
    assert_eq!(
        ops,
        vec![
            FsOp::CreateDirAll { path: "Dune".to_string() },
            FsOp::WriteFile { path: "Dune/mimetype".to_string(), data: b"application/epub+zip".to_vec() },
            FsOp::CreateDirAll { path: "Dune/META-INF".to_string() },
            FsOp::WriteFile {
                path: "Dune/META-INF/container.xml".to_string(),
                data: b"<container/>".to_vec()
            },
        ]
    );
    assert_eq!(Epub::extract("Dune.epub", b"no archive".to_vec()), Err(EpubError::ArchiveFormat));
}

#[test]
fn failures_describe_themselves() {
    assert_eq!(EpubError::ArchiveFormat.message(), "not a readable ZIP archive");
    assert_eq!(
        EpubError::SchemaValidation.message(),
        "unexpected mimetype or container descriptor"
    );
    assert_eq!(
        EpubError::UnexpectedMediaType.message(),
        "unexpected media type of the package document"
    );
}
