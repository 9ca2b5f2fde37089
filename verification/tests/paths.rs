use epub_unpack::extract::{directory_op, file_ops, target_of, FsOp, Target};
use epub_unpack::relpath::{ends_with_separator, RelPath};

fn parts(names: &[&str]) -> Option<Vec<String>> {
    Some(names.iter().map(|s| s.to_string()).collect())
}

fn normalized(name: &str) -> Option<Vec<String>> {
    RelPath::parse(name).map(|path| path.components().clone())
}

fn path(name: &str) -> RelPath {
    RelPath::parse(name).unwrap()
}

#[test]
fn plain_names_are_cut_at_slashes() {
    assert_eq!(normalized("mimetype"), parts(&["mimetype"]));
    assert_eq!(normalized("META-INF/container.xml"), parts(&["META-INF", "container.xml"]));
    assert_eq!(normalized("a/b/c/d.txt"), parts(&["a", "b", "c", "d.txt"]));
}

#[test]
fn backslashes_separate_too() {
    assert_eq!(normalized("OEBPS\\content.opf"), parts(&["OEBPS", "content.opf"]));
    assert_eq!(normalized("a\\b/c\\d"), parts(&["a", "b", "c", "d"]));
    assert_eq!(normalized("a\\..\\..\\b"), None);
}

#[test]
fn empty_pieces_and_dots_change_nothing() {
    assert_eq!(normalized("a//b"), parts(&["a", "b"]));
    assert_eq!(normalized("./a/./b/."), parts(&["a", "b"]));
    assert_eq!(normalized("a/b/"), parts(&["a", "b"]));
    assert_eq!(normalized("a/b///"), parts(&["a", "b"]));
}

#[test]
fn parent_gives_up_the_last_component() {
    assert_eq!(normalized("a/../b"), parts(&["b"]));
    assert_eq!(normalized("a/b/../../c/d"), parts(&["c", "d"]));
    assert_eq!(normalized("a/b/.."), parts(&["a"]));
}

#[test]
fn escapes_are_refused() {
    assert_eq!(normalized("../evil.txt"), None);
    assert_eq!(normalized(".."), None);
    assert_eq!(normalized("a/../../evil.txt"), None);
    assert_eq!(normalized("a/../../a/ok.txt"), None);
    assert_eq!(normalized("./../x"), None);
}

#[test]
fn absolute_names_are_refused() {
    assert_eq!(normalized("/etc/passwd"), None);
    assert_eq!(normalized("\\windows\\system32"), None);
    assert_eq!(normalized("/"), None);
}

#[test]
fn names_with_nul_are_refused() {
    assert_eq!(normalized("a\0b"), None);
    assert_eq!(normalized("ok/name\0"), None);
    assert_eq!(normalized("\0"), None);
}

#[test]
fn names_of_the_destination_itself_are_refused() {
    assert_eq!(normalized(""), None);
    assert_eq!(normalized("."), None);
    assert_eq!(normalized("./"), None);
    assert_eq!(normalized("a/.."), None);
}

#[test]
fn dots_inside_a_component_are_ordinary() {
    assert_eq!(normalized("..."), parts(&["..."]));
    assert_eq!(normalized("..a/b.."), parts(&["..a", "b.."]));
    assert_eq!(normalized(".hidden"), parts(&[".hidden"]));
}

#[test]
fn what_is_joined_normalizes_to_itself() {
    for name in ["a/./b/../c//d.txt", "x\\y", "OEBPS/content.opf", "..a/b.."] {
        let once = path(name);
        let again = path(&once.below(""));
        assert_eq!(once, again);
    }
}

#[test]
fn a_trailing_separator_marks_a_directory() {
    assert!(ends_with_separator("OEBPS/"));
    assert!(ends_with_separator("OEBPS\\"));
    assert!(ends_with_separator("/"));
    assert!(!ends_with_separator("OEBPS"));
    assert!(!ends_with_separator(""));
    assert!(!ends_with_separator("a/b"));
}

#[test]
fn targets() {
    assert_eq!(target_of("OEBPS/"), Target::Directory(path("OEBPS")));
    assert_eq!(target_of("OEBPS/images/"), Target::Directory(path("OEBPS/images")));
    assert_eq!(target_of("OEBPS/content.opf"), Target::File(path("OEBPS/content.opf")));
    assert_eq!(target_of("../x"), Target::Skip);
    assert_eq!(target_of("../x/"), Target::Skip);
    assert_eq!(target_of("/x"), Target::Skip);
    assert_eq!(target_of(""), Target::Skip);
}

#[test]
fn paths_below_a_root() {
    let chapter = path("OEBPS/text/ch1.xhtml");
    assert_eq!(chapter.below("Dune"), "Dune/OEBPS/text/ch1.xhtml");
    assert_eq!(chapter.parent_below("Dune"), "Dune/OEBPS/text");
    assert_eq!(chapter.below("out/books/Dune"), "out/books/Dune/OEBPS/text/ch1.xhtml");
    assert_eq!(path("mimetype").below("Dune"), "Dune/mimetype");
    assert_eq!(path("mimetype").parent_below("Dune"), "Dune");
}

#[test]
fn paths_below_the_working_directory() {
    let package = path("OEBPS/content.opf");
    assert_eq!(package.below(""), "OEBPS/content.opf");
    assert_eq!(package.parent_below(""), "OEBPS");
    assert_eq!(path("mimetype").below(""), "mimetype");
    assert_eq!(path("mimetype").parent_below(""), "");
}

#[test]
fn a_directory_takes_one_step() {
    assert_eq!(
        directory_op("Dune", &path("OEBPS/images/")),
        FsOp::CreateDirAll { path: "Dune/OEBPS/images".to_string() }
    );
}

#[test]
fn a_file_takes_its_directory_first() {
    let (make, write) = file_ops("Dune", &path("OEBPS/text/ch1.xhtml"), b"<p/>".to_vec());
    assert_eq!(make, FsOp::CreateDirAll { path: "Dune/OEBPS/text".to_string() });
    assert_eq!(
        write,
        FsOp::WriteFile { path: "Dune/OEBPS/text/ch1.xhtml".to_string(), data: b"<p/>".to_vec() }
    );
}

#[test]
fn a_file_at_the_top_has_the_root_made() {
    let (make, write) = file_ops("Dune", &path("mimetype"), b"application/epub+zip".to_vec());
    assert_eq!(make, FsOp::CreateDirAll { path: "Dune".to_string() });
    assert_eq!(
        write,
        FsOp::WriteFile { path: "Dune/mimetype".to_string(), data: b"application/epub+zip".to_vec() }
    );
}
