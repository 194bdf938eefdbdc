use gage::author::resolve_author;

#[test]
fn author_prefers_flag() {
    assert_eq!(resolve_author(Some("alice".into()), Some("bob".into())), "user:alice");
    assert_eq!(resolve_author(None, Some("bob".into())), "user:bob");
    assert_eq!(resolve_author(None, None), "user:unknown");
}
