use std::io::{Cursor, Write};

use epub_unpack::error::EpubError;
use epub_unpack::extract::{extract_zipfile, target_of, FsOp, Target};
use zip::write::SimpleFileOptions;
use zip::{CompressionMethod, ZipWriter};

fn dir(path: &str) -> FsOp {
    FsOp::CreateDirAll { path: path.to_string() }
}

fn file(path: &str, data: &[u8]) -> FsOp {
    FsOp::WriteFile { path: path.to_string(), data: data.to_vec() }
}

fn archive_of(entries: &[(&str, &[u8])], method: CompressionMethod) -> Vec<u8> {
    let mut writer = ZipWriter::new(Cursor::new(Vec::new()));
    let options = SimpleFileOptions::default().compression_method(method);
    for (name, data) in entries {
        if name.ends_with('/') {
            writer.add_directory(*name, options).unwrap();
        } else {
            writer.start_file(*name, options).unwrap();
            writer.write_all(data).unwrap();
        }
    }
    writer.finish().unwrap().into_inner()
}

fn position_of(haystack: &[u8], needle: &[u8]) -> usize {
    haystack.windows(needle.len()).position(|w| w == needle).unwrap()
}

#[test]
fn every_file_entry_is_written_with_its_bytes() {
    let archive = archive_of(
        &[
            ("mimetype", b"application/epub+zip"),
            ("META-INF/container.xml", b"<container/>"),
            ("OEBPS/text/ch1.xhtml", b"<html>one</html>"),
        ],
        CompressionMethod::Stored,
    );
    let ops = extract_zipfile(archive, "Dune").unwrap();
    assert_eq!(
        ops,
        vec![
            dir("Dune"),
            file("Dune/mimetype", b"application/epub+zip"),
            dir("Dune/META-INF"),
            file("Dune/META-INF/container.xml", b"<container/>"),
            dir("Dune/OEBPS/text"),
            file("Dune/OEBPS/text/ch1.xhtml", b"<html>one</html>"),
        ]
    );
}

#[test]
fn bytes_come_out_as_they_went_in() {
    let data: Vec<u8> = (0..=255u8).cycle().take(3000).collect();
    let archive = archive_of(&[("bin/all.bytes", &data)], CompressionMethod::Deflated);
    let ops = extract_zipfile(archive, "out").unwrap();
    assert_eq!(ops, vec![dir("out/bin"), file("out/bin/all.bytes", &data)]);
}

#[test]
fn deflated_entries_come_out_decompressed() {
    let text = vec![b'a'; 4096];
    let archive = archive_of(&[("book/long.txt", &text)], CompressionMethod::Deflated);
    assert!(archive.len() < 1024);
    let ops = extract_zipfile(archive, "out").unwrap();
    assert_eq!(ops, vec![dir("out/book"), file("out/book/long.txt", &text)]);
}

#[test]
fn directories_are_made_without_an_entry_for_them() {
    let archive = archive_of(&[("a/b/c/d.txt", b"deep")], CompressionMethod::Stored);
    let ops = extract_zipfile(archive, "root").unwrap();
    assert_eq!(ops, vec![dir("root/a/b/c"), file("root/a/b/c/d.txt", b"deep")]);
}

#[test]
fn directory_entries_are_made() {
    let archive = archive_of(
        &[("OEBPS/", b""), ("OEBPS/images/", b""), ("OEBPS/content.opf", b"<package/>")],
        CompressionMethod::Stored,
    );
    let ops = extract_zipfile(archive, "Dune").unwrap();
    assert_eq!(
        ops,
        vec![
            dir("Dune/OEBPS"),
            dir("Dune/OEBPS/images"),
            dir("Dune/OEBPS"),
            file("Dune/OEBPS/content.opf", b"<package/>"),
        ]
    );
}

#[test]
fn entries_keep_their_stored_order() {
    let archive = archive_of(
        &[("z.txt", b"1"), ("a.txt", b"2"), ("m/n.txt", b"3")],
        CompressionMethod::Stored,
    );
    let ops = extract_zipfile(archive, "r").unwrap();
    assert_eq!(
        ops,
        vec![
            dir("r"),
            file("r/z.txt", b"1"),
            dir("r"),
            file("r/a.txt", b"2"),
            dir("r/m"),
            file("r/m/n.txt", b"3"),
        ]
    );
}

#[test]
fn the_last_entry_for_a_path_is_written_last() {
    let archive = archive_of(
        &[("a.txt", b"first"), ("./a.txt", b"second"), ("b/../a.txt", b"third")],
        CompressionMethod::Stored,
    );
    let ops = extract_zipfile(archive, "r").unwrap();
    assert_eq!(
        ops,
        vec![
            dir("r"),
            file("r/a.txt", b"first"),
            dir("r"),
            file("r/a.txt", b"second"),
            dir("r"),
            file("r/a.txt", b"third"),
        ]
    );
}

#[test]
fn parent_escape_is_skipped() {
    let archive = archive_of(
        &[("../evil.txt", b"x"), ("a/../../evil.txt", b"y"), ("good.txt", b"z")],
        CompressionMethod::Stored,
    );
    let ops = extract_zipfile(archive, "root").unwrap();
    assert_eq!(ops, vec![dir("root"), file("root/good.txt", b"z")]);
}

#[test]
fn absolute_name_is_skipped() {
    let archive =
        archive_of(&[("/etc/passwd", b"root::0:0"), ("ok.txt", b"fine")], CompressionMethod::Stored);
    let ops = extract_zipfile(archive, "root").unwrap();
    assert_eq!(ops, vec![dir("root"), file("root/ok.txt", b"fine")]);
}

#[test]
fn the_reader_can_refuse_a_name_too() {
    let name = "C:..\\x.txt";
    assert!(matches!(target_of(name), Target::File(_)));
    let archive = archive_of(&[(name, b"x"), ("ok.txt", b"fine")], CompressionMethod::Stored);
    let ops = extract_zipfile(archive, "root").unwrap();
    assert_eq!(ops, vec![dir("root"), file("root/ok.txt", b"fine")]);
}

#[test]
fn extraction_into_the_working_directory() {
    let archive =
        archive_of(&[("mimetype", b"m"), ("OEBPS/c.opf", b"c")], CompressionMethod::Stored);
    let ops = extract_zipfile(archive, "").unwrap();
    assert_eq!(ops, vec![dir(""), file("mimetype", b"m"), dir("OEBPS"), file("OEBPS/c.opf", b"c")]);
}

#[test]
fn an_empty_archive_has_an_empty_plan() {
    let archive = archive_of(&[], CompressionMethod::Stored);
    assert_eq!(extract_zipfile(archive, "root"), Ok(Vec::new()));
}

#[test]
fn garbage_is_not_an_archive() {
    assert_eq!(extract_zipfile(b"this is no zip".to_vec(), "root"), Err(EpubError::ArchiveFormat));
    assert_eq!(extract_zipfile(Vec::new(), "root"), Err(EpubError::ArchiveFormat));
}

#[test]
fn a_truncated_archive_is_refused() {
    let mut archive = archive_of(&[("a.txt", b"hello")], CompressionMethod::Stored);
    archive.truncate(archive.len() / 2);
    assert_eq!(extract_zipfile(archive, "root"), Err(EpubError::ArchiveFormat));
}

#[test]
fn a_damaged_file_entry_ends_the_extraction() {
    let mut archive = archive_of(
        &[("first.txt", b"intact"), ("second.txt", b"damage-me-please")],
        CompressionMethod::Stored,
    );
    let at = position_of(&archive, b"damage-me-please");
    archive[at] ^= 0xff;
    assert_eq!(extract_zipfile(archive, "root"), Err(EpubError::ArchiveFormat));
}

#[test]
fn the_content_of_a_skipped_entry_is_not_read() {
    let mut archive = archive_of(
        &[("../skipped.txt", b"damage-me-please"), ("kept.txt", b"intact")],
        CompressionMethod::Stored,
    );
    let at = position_of(&archive, b"damage-me-please");
    archive[at] ^= 0xff;
    let ops = extract_zipfile(archive, "root").unwrap();
    assert_eq!(ops, vec![dir("root"), file("root/kept.txt", b"intact")]);
}

#[test]
fn any_damage_is_survived() {
    let archive = archive_of(
        &[("mimetype", b"application/epub+zip"), ("OEBPS/", b""), ("OEBPS/c.opf", &[b'x'; 200])],
        CompressionMethod::Deflated,
    );
    for at in 0..archive.len() {
        for mask in [0x01u8, 0x80, 0xff] {
            let mut damaged = archive.clone();
            damaged[at] ^= mask;
            match extract_zipfile(damaged, "root") {
                Ok(ops) => assert!(ops.len() <= 6),
                Err(e) => assert_eq!(e, EpubError::ArchiveFormat),
            }
        }
    }
    for keep in 0..archive.len() {
        let cut = archive[..keep].to_vec();
        match extract_zipfile(cut, "root") {
            Ok(ops) => assert!(ops.len() <= 6),
            Err(e) => assert_eq!(e, EpubError::ArchiveFormat),
        }
    }
}
