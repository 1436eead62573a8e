use sonic262::metadata::Frontmatter;
use sonic262::metadata::extract_frontmatter;
use sonic262::metadata::find_marker;

#[test]
fn no_marker_reports_no_metadata() {
    assert_eq!(extract_frontmatter("var x = 1;\n"), Frontmatter::NoMetadata);
    assert_eq!(extract_frontmatter(""), Frontmatter::NoMetadata);
}

#[test]
fn open_without_close_is_malformed() {
    assert_eq!(
        extract_frontmatter("/*---\nincludes: [a.js]\n"),
        Frontmatter::Malformed
    );
}

#[test]
fn close_before_open_is_malformed() {
    assert_eq!(
        extract_frontmatter("---*/ junk /*--- body"),
        Frontmatter::Malformed
    );
}

#[test]
fn overlapping_markers_are_malformed() {
    assert_eq!(extract_frontmatter("/*---*/"), Frontmatter::Malformed);
}

#[test]
fn block_between_markers_is_extracted() {
    assert_eq!(
        extract_frontmatter("/*---\nincludes: [a.js]\n---*/\nvar x = 1;\n"),
        Frontmatter::Block(String::from("\nincludes: [a.js]\n"))
    );
}

#[test]
fn empty_block_is_extracted() {
    assert_eq!(
        extract_frontmatter("/*------*/ body"),
        Frontmatter::Block(String::new())
    );
}

#[test]
fn first_close_marker_ends_the_block() {
    assert_eq!(
        extract_frontmatter("/*---a---*/ x ---*/"),
        Frontmatter::Block(String::from("a"))
    );
}

#[test]
fn find_marker_reports_leftmost_occurrence() {
    assert_eq!(find_marker("abcabc", "bc"), Some(1));
    assert_eq!(find_marker("abcabc", "zz"), None);
    assert_eq!(find_marker("aaa", "aa"), Some(0));
}
