use gage::doc::Entry;
use gage::json::Json;

fn entry(members: Vec<(&str, Json)>) -> Entry {
    Entry { value: Json::Object(members.into_iter().map(|(k, v)| (k.to_string(), v)).collect()) }
}

#[test]
fn entry_type_defaults_to_empty() {
    assert_eq!(entry(vec![("type", Json::Str("user".to_string()))]).entry_type(), "user");
    assert_eq!(entry(vec![("type", Json::Int(1))]).entry_type(), "");
    assert_eq!(entry(vec![]).entry_type(), "");
}

#[test]
fn label_prefers_meaningful_subtype() {
    let e = entry(vec![("type", Json::Str("assistant".to_string()))]);
    assert_eq!(e.label(Some("tool_use")), "tool_use");
    assert_eq!(e.label(Some("text")), "assistant");
    assert_eq!(e.label(None), "assistant");
}

#[test]
fn message_member() {
    let e = entry(vec![("message", Json::Str("m".to_string()))]);
    assert!(matches!(e.message(), Some(Json::Str(s)) if s == "m"));
    assert!(entry(vec![]).message().is_none());
}
