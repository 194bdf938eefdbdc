use gage::resolve::first_line;

#[test]
fn first_line_strips_heading_marker() {
    assert_eq!(first_line("# Enable thinking\n\nbody"), "Enable thinking");
    assert_eq!(first_line("### Triple\nbody"), "Triple");
}

#[test]
fn first_line_passes_plain_through() {
    assert_eq!(first_line("Plain summary\nrest"), "Plain summary");
}

#[test]
fn first_line_skips_leading_blanks() {
    assert_eq!(first_line("\n\n# Heading"), "Heading");
}

#[test]
fn first_line_does_not_strip_hash_without_space() {
    assert_eq!(first_line("##hashtag"), "##hashtag");
}

#[test]
fn first_line_empty_when_no_content() {
    assert_eq!(first_line(""), "");
    assert_eq!(first_line("\n\n   \n"), "");
}

#[test]
fn first_line_handles_crlf_and_indent() {
    assert_eq!(first_line("\r\n  \t\r\n   ## Title here  \r\nnext"), "Title here  ");
    assert_eq!(first_line("  plain\r\n"), "plain");
    assert_eq!(first_line("line\r"), "line\r");
}

#[test]
fn first_line_keeps_bare_hashes() {
    assert_eq!(first_line("###"), "###");
    assert_eq!(first_line("# \nbody"), "");
    assert_eq!(first_line("#\u{3000}wide space"), "wide space");
}
