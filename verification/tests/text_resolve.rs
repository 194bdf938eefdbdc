use gage::text_resolve::{scheme_name, TextResolveError, TextResolver, TextResolverScheme};

struct EchoScheme;
impl TextResolverScheme for EchoScheme {
    fn resolve(&self, input: &str) -> Result<String, TextResolveError> {
        Ok(format!("echo:{input}"))
    }
}

struct FailScheme;
impl TextResolverScheme for FailScheme {
    fn resolve(&self, _input: &str) -> Result<String, TextResolveError> {
        Err(TextResolveError::SchemeResolve("boom".into()))
    }
}

struct UpperScheme;
impl TextResolverScheme for UpperScheme {
    fn resolve(&self, input: &str) -> Result<String, TextResolveError> {
        Ok(input.to_uppercase())
    }
}

#[test]
fn literal_passes_through() {
    let r = TextResolver::new();
    assert_eq!(r.resolve("plain text".into()).unwrap(), "plain text");
    assert_eq!(r.resolve("TODO: do it".into()).unwrap(), "TODO: do it");
}

#[test]
fn unregistered_scheme_errors() {
    let r = TextResolver::new();
    let err = r.resolve("http://example.com".into()).unwrap_err();
    assert!(matches!(err, TextResolveError::UnsupportedScheme(s) if s == "http"));
}

#[test]
fn registered_scheme_dispatches() {
    let r = TextResolver::new().with_scheme("foo", EchoScheme);
    assert_eq!(r.resolve("foo:bar".into()).unwrap(), "echo:foo:bar");
}

#[test]
fn scheme_error_propagates() {
    let r = TextResolver::new().with_scheme("foo", FailScheme);
    let err = r.resolve("foo:bar".into()).unwrap_err();
    assert!(matches!(err, TextResolveError::SchemeResolve(s) if s == "boom"));
}

#[test]
fn scheme_name_validates() {
    assert_eq!(scheme_name("scanner:foo"), Some("scanner"));
    assert_eq!(scheme_name("a+b-c.d:rest"), Some("a+b-c.d"));
    assert_eq!(scheme_name("TODO: do"), None);
    assert_eq!(scheme_name("9bad:foo"), None);
    assert_eq!(scheme_name(":empty"), None);
}

#[test]
fn scheme_name_edge_cases() {
    assert_eq!(scheme_name("no colon here"), None);
    assert_eq!(scheme_name(""), None);
    assert_eq!(scheme_name("a:"), Some("a"));
    assert_eq!(scheme_name("x9:y:z"), Some("x9"));
    assert_eq!(scheme_name("ab_c:d"), None);
    assert_eq!(scheme_name("aB:d"), None);
}

#[test]
fn later_registration_replaces_earlier() {
    let r = TextResolver::new()
        .with_scheme("foo", FailScheme)
        .with_scheme("foo", EchoScheme);
    assert_eq!(r.resolve("foo:x".into()).unwrap(), "echo:foo:x");
}

#[test]
fn schemes_dispatch_by_name() {
    let r = TextResolver::new()
        .with_scheme("echo", EchoScheme)
        .with_scheme("up", UpperScheme);
    assert_eq!(r.resolve("up:abc".into()).unwrap(), "UP:ABC");
    assert_eq!(r.resolve("echo:abc".into()).unwrap(), "echo:echo:abc");
    let err = r.resolve("other:abc".into()).unwrap_err();
    assert!(matches!(err, TextResolveError::UnsupportedScheme(s) if s == "other"));
}

#[test]
fn error_messages() {
    let e = TextResolveError::UnsupportedScheme("http".into());
    assert_eq!(e.message(), "unsupported URI scheme 'http:'");
    let e = TextResolveError::SchemeResolve("boom".into());
    assert_eq!(e.message(), "boom");
}
