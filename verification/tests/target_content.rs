use gage::target_content::{
    dim_italic_text, render_placeholder, render_session_content, render_target_cell,
};

#[test]
fn cell_wraps_locator_then_content() {
    assert_eq!(
        render_target_cell("Memory safety without garbage collection.", "body", 15),
        "Memory safety\nwithout garbage\ncollection.\n\nbody"
    );
    assert_eq!(render_target_cell("gage://scan/1", "x", 80), "gage://scan/1\n\nx");
}

#[test]
fn session_content_by_line() {
    assert_eq!(
        render_session_content(None, Some("ignored"), 80),
        "\x1b[2;3mWhole session\x1b[22;23m"
    );
    assert_eq!(
        render_session_content(Some(4), Some("Memory safety without garbage collection."), 15),
        "Memory safety\nwithout garbage\ncollection."
    );
    assert_eq!(render_session_content(Some(4), None, 15), "");
}

#[test]
fn placeholders_are_dim() {
    assert_eq!(render_placeholder("gage://project/p"), "\x1b[2;3mgage://project/p\x1b[22;23m");
    assert_eq!(dim_italic_text(""), "\x1b[2;3m\x1b[22;23m");
}
