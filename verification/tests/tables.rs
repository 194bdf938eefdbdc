use gage::json::Json;
use gage::tables::entry::{
    entry_row, entry_rows, entry_rows_of_sessions, remaining_after, SessionLines, SessionRecord,
};
use gage::tables::message::{
    entry_text, message_row, message_rows, message_rows_of_sessions, tool_calls, tool_result_text,
    trim_end_str, MessageFacts, SessionMessages,
};
use gage::tables::session::{
    count_message_lines, line_is_message, projection_is_cheap_only,
    projection_is_message_count_only, scan_mode, scan_session_entries, session_title_from_body,
    entry_has_content, truncate_with_ellipsis, unparsed_columns, walk_limit, EntryFacts, ScanMode,
};

fn s(x: &str) -> Json {
    Json::Str(x.to_string())
}

fn obj(members: Vec<(&str, Json)>) -> Json {
    Json::Object(members.into_iter().map(|(k, v)| (k.to_string(), v)).collect())
}

fn message(kind: &str, content: Json) -> Json {
    obj(vec![("type", s(kind)), ("message", obj(vec![("content", content)]))])
}

#[test]
fn user_string_content_is_text() {
    let e = message("user", s("hello"));
    assert_eq!(entry_text(&e, &vec![]), Some("hello".to_string()));
}

#[test]
fn blocks_join_with_blank_lines() {
    let e = message(
        "assistant",
        Json::Array(vec![
            obj(vec![("type", s("thinking")), ("thinking", s("Let me use the Read tool"))]),
            obj(vec![("type", s("text")), ("text", s("Reading now."))]),
            obj(vec![
                ("type", s("tool_use")),
                ("name", s("Read")),
                ("input", obj(vec![("file_path", s("main.rs"))])),
            ]),
        ]),
    );
    let calls = tool_calls(&e);
    assert_eq!(calls.len(), 1);
    assert_eq!(calls[0].name, "Read");
    assert_eq!(calls[0].input.map(|m| m.len()), Some(1));
    let rendered = vec!["Read:\n  file_path: main.rs\n".to_string()];
    assert_eq!(
        entry_text(&e, &rendered),
        Some("Let me use the Read tool\n\nReading now.\n\nRead:\n  file_path: main.rs".to_string())
    );
}

#[test]
fn user_blocks_keep_tool_results_but_not_thinking() {
    let e = message(
        "user",
        Json::Array(vec![
            obj(vec![("type", s("thinking")), ("thinking", s("hidden"))]),
            obj(vec![
                ("type", s("tool_result")),
                ("content", Json::Array(vec![obj(vec![("text", s("a"))]), obj(vec![("text", s("b"))])])),
            ]),
            obj(vec![("type", s("tool_use")), ("name", s("X"))]),
        ]),
    );
    assert!(tool_calls(&e).is_empty());
    assert_eq!(entry_text(&e, &vec![]), Some("a\nb".to_string()));
}

#[test]
fn non_messages_and_empty_content_have_no_text() {
    assert_eq!(entry_text(&message("system", s("x")), &vec![]), None);
    assert_eq!(entry_text(&message("user", Json::Array(vec![])), &vec![]), None);
    assert_eq!(entry_text(&obj(vec![("type", s("user"))]), &vec![]), None);
    assert_eq!(entry_text(&message("user", Json::Int(3)), &vec![]), None);
}

#[test]
fn empty_text_block_is_kept() {
    let e = message("user", Json::Array(vec![obj(vec![("type", s("text")), ("text", s(""))])]));
    assert_eq!(entry_text(&e, &vec![]), Some(String::new()));
}

#[test]
fn missing_rendering_is_empty() {
    let e = message("assistant", Json::Array(vec![obj(vec![("type", s("tool_use"))])]));
    let calls = tool_calls(&e);
    assert_eq!(calls.len(), 1);
    assert_eq!(calls[0].name, "");
    assert!(calls[0].input.is_none());
    assert_eq!(entry_text(&e, &vec![]), Some(String::new()));
}

#[test]
fn tool_result_shapes() {
    assert_eq!(tool_result_text(&obj(vec![("content", s("done"))])), "done");
    assert_eq!(
        tool_result_text(&obj(vec![(
            "content",
            Json::Array(vec![obj(vec![("text", s("x"))]), obj(vec![("image", s("..."))]), obj(vec![("text", s("y"))])])
        )])),
        "x\ny"
    );
    assert_eq!(tool_result_text(&obj(vec![])), "");
}

#[test]
fn trimming_and_truncation() {
    assert_eq!(trim_end_str("abc \n\t"), "abc");
    assert_eq!(truncate_with_ellipsis("short", 60), "short");
    assert_eq!(truncate_with_ellipsis("abcdef", 3), "abc...");
    assert_eq!(truncate_with_ellipsis("ab  cdef", 4), "ab...");
    assert_eq!(truncate_with_ellipsis("\u{e9}\u{e9}\u{e9}\u{e9}", 3), "\u{e9}\u{e9}\u{e9}...");
}

#[test]
fn titles_from_bodies() {
    assert_eq!(session_title_from_body("  Read and explain main.rs  \nmore"), Some("Read and explain main.rs".to_string()));
    assert_eq!(session_title_from_body("   \nsecond line"), None);
    assert_eq!(session_title_from_body(""), None);
    let long = "x".repeat(70);
    assert_eq!(session_title_from_body(&long), Some(format!("{}...", "x".repeat(60))));
}

#[test]
fn message_line_detection() {
    assert!(line_is_message(r#"{"type":"user","message":{}}"#));
    assert!(line_is_message(r#"{"a": 1, "type": "assistant"}"#));
    assert!(!line_is_message(r#"{"type":"summary"}"#));
    assert!(!line_is_message(""));
    let lines: Vec<String> = vec![
        r#"{"type":"user"}"#.into(),
        r#"{"type":"ai-title"}"#.into(),
        r#"{"type": "assistant"}"#.into(),
        "garbage".into(),
    ];
    assert_eq!(count_message_lines(&lines), 2);
}

#[test]
fn projections_choose_scan_path() {
    assert!(projection_is_cheap_only(Some(&vec![0, 1, 4])));
    assert!(!projection_is_cheap_only(Some(&vec![0, 5])));
    assert!(!projection_is_cheap_only(None));
    assert!(projection_is_message_count_only(Some(&vec![0, 7])));
    assert!(!projection_is_message_count_only(Some(&vec![6])));
    assert_eq!(scan_mode(Some(&vec![4])), ScanMode::CheapOnly);
    assert_eq!(scan_mode(Some(&vec![0, 7])), ScanMode::CountOnly);
    assert_eq!(scan_mode(Some(&vec![5])), ScanMode::FullParse);
    assert_eq!(scan_mode(None), ScanMode::FullParse);
    assert_eq!(walk_limit(false, Some(1)), Some(1));
    assert_eq!(walk_limit(true, Some(1)), None);
}

fn usage(i: i64, o: i64) -> Json {
    obj(vec![("input_tokens", Json::Int(i)), ("output_tokens", Json::Int(o)), ("cache_read_input_tokens", Json::Int(10))])
}

fn facts(user_body: Option<&str>, text_body: &str) -> EntryFacts {
    EntryFacts { user_body: user_body.map(|t| t.to_string()), text_body: text_body.to_string() }
}

#[test]
fn session_summary() {
    let entries = vec![
        obj(vec![("type", s("permission-mode"))]),
        obj(vec![("type", s("user")), ("message", obj(vec![("content", s("Read and explain main.rs"))]))]),
        obj(vec![
            ("type", s("assistant")),
            ("message", obj(vec![("model", s("model-sonnet-4-20250514")), ("usage", usage(500, 90))])),
        ]),
        obj(vec![("type", s("user")), ("message", obj(vec![("content", s("thanks"))]))]),
        obj(vec![("type", s("assistant")), ("message", obj(vec![("model", s("other")), ("usage", usage(250, 10))]))]),
    ];
    let f = vec![
        facts(None, ""),
        facts(Some("Read and explain main.rs"), "Read and explain main.rs"),
        facts(None, ""),
        facts(Some("thanks"), "thanks"),
        facts(None, ""),
    ];
    let (row, read) = scan_session_entries(&entries, &f);
    assert_eq!(read, 5);
    assert_eq!(row.message_count, 4);
    assert_eq!(row.input_tokens, 750);
    assert_eq!(row.output_tokens, 100);
    assert_eq!(row.cache_read_input_tokens, 20);
    assert_eq!(row.cache_creation_input_tokens, 0);
    assert_eq!(row.model.as_deref(), Some("model-sonnet-4-20250514"));
    assert_eq!(row.title.as_deref(), Some("Read and explain main.rs"));
    assert!(!row.is_empty);
}

#[test]
fn ai_title_overrides_and_empty_sessions() {
    let entries = vec![
        obj(vec![("type", s("user"))]),
        obj(vec![("type", s("ai-title")), ("aiTitle", s("Better title"))]),
    ];
    let f = vec![facts(None, "first"), facts(None, "")];
    let (row, _) = scan_session_entries(&entries, &f);
    assert_eq!(row.title.as_deref(), Some("Better title"));
    assert!(row.is_empty);
    assert_eq!(row.message_count, 1);
    assert!(row.model.is_none());
}

fn record(line: u32, value: Json) -> SessionRecord {
    SessionRecord { line, value, raw: "{}".to_string() }
}

#[test]
fn entry_rows_extract_fields() {
    let r = record(
        3,
        obj(vec![("type", s("user")), ("uuid", s("u-1")), ("timestamp", s("2024-01-01T00:00:00.500Z"))]),
    );
    let row = entry_row("sess", &r);
    assert_eq!(row.session_id, "sess");
    assert_eq!(row.line, 3);
    assert_eq!(row.uuid.as_deref(), Some("u-1"));
    assert_eq!(row.entry_type.as_deref(), Some("user"));
    assert_eq!(row.timestamp_ms, Some(1_704_067_200_500));
    assert_eq!(row.raw, "{}");
    let bad = record(4, obj(vec![("timestamp", s("yesterday")), ("type", Json::Int(1))]));
    let row = entry_row("sess", &bad);
    assert_eq!(row.timestamp_ms, None);
    assert_eq!(row.entry_type, None);
    assert_eq!(row.uuid, None);
}

#[test]
fn entry_rows_respect_limit() {
    let recs = vec![record(1, Json::Null), record(2, Json::Null), record(5, Json::Null)];
    assert_eq!(entry_rows("s", &recs, None).len(), 3);
    let rows = entry_rows("s", &recs, Some(2));
    assert_eq!(rows.iter().map(|r| r.line).collect::<Vec<_>>(), vec![1, 2]);
    assert_eq!(entry_rows("s", &recs, Some(0)).len(), 0);
    assert_eq!(remaining_after(Some(5), 3), Some(2));
    assert_eq!(remaining_after(Some(2), 3), Some(0));
    assert_eq!(remaining_after(None, 3), None);
}

fn plain_facts() -> MessageFacts {
    MessageFacts { subtype: None, attachments: None, rendered: vec![] }
}

/// Keeps the text as it is, with no IDE tags.
fn no_tags(t: &str) -> (String, Option<String>) {
    (t.to_string(), None)
}

/// Splits off a leading `<ide>...</ide>` tag, if any.
fn ide_split(t: &str) -> (String, Option<String>) {
    match t.strip_prefix("<ide>").and_then(|rest| rest.split_once("</ide>")) {
        Some((tag, body)) => (body.trim_start().to_string(), Some(tag.to_string())),
        None => (t.to_string(), None),
    }
}

#[test]
fn message_row_takes_fields_and_facts() {
    let mut value = message("assistant", s("<ide>open main.rs</ide> hi"));
    if let Json::Object(ms) = &mut value {
        ms.push(("uuid".to_string(), s("m-1")));
        ms.push(("timestamp".to_string(), s("2024-01-01T00:00:01Z")));
    }
    let rec = SessionRecord { line: 7, value, raw: "{\"raw\":1}".to_string() };
    let facts = MessageFacts {
        subtype: Some("tool_use".to_string()),
        attachments: Some("[]".to_string()),
        rendered: vec![],
    };
    let row = message_row("sess", &rec, &facts, &ide_split).expect("assistant message");
    assert_eq!(row.session_id, "sess");
    assert_eq!(row.line, 7);
    assert_eq!(row.uuid.as_deref(), Some("m-1"));
    assert_eq!(row.message_type, "assistant");
    assert_eq!(row.subtype.as_deref(), Some("tool_use"));
    assert_eq!(row.text, "hi");
    assert_eq!(row.timestamp_ms, Some(1_704_067_201_000));
    assert_eq!(row.attachments.as_deref(), Some("[]"));
    assert_eq!(row.ide_tags.as_deref(), Some("open main.rs"));
    assert_eq!(row.raw, "{\"raw\":1}");
}

#[test]
fn message_row_skips_other_entries() {
    let f = plain_facts();
    assert!(message_row("s", &record(1, message("system", s("x"))), &f, &no_tags).is_none());
    assert!(message_row("s", &record(2, obj(vec![("type", s("user"))])), &f, &no_tags).is_none());
    assert!(message_row("s", &record(3, message("user", Json::Int(1))), &f, &no_tags).is_none());
    assert!(message_row("s", &record(4, message("user", Json::Array(vec![]))), &f, &no_tags).is_some());
}

#[test]
fn message_rows_filter_then_limit() {
    let recs = vec![
        record(1, message("user", s("a"))),
        record(2, obj(vec![("type", s("summary"))])),
        record(3, message("assistant", s("b"))),
        record(4, message("user", s("c"))),
    ];
    let facts: Vec<MessageFacts> = (0..4).map(|_| plain_facts()).collect();
    let rows = message_rows("s", &recs, &facts, None, &no_tags);
    assert_eq!(rows.iter().map(|r| r.line).collect::<Vec<_>>(), vec![1, 3, 4]);
    assert_eq!(rows.iter().map(|r| r.text.as_str()).collect::<Vec<_>>(), vec!["a", "b", "c"]);
    let rows = message_rows("s", &recs, &facts, Some(2), &no_tags);
    assert_eq!(rows.iter().map(|r| r.line).collect::<Vec<_>>(), vec![1, 3]);
    assert!(message_rows("s", &recs, &facts, Some(0), &no_tags).is_empty());
}

#[test]
fn unparsed_paths_fill_defaults() {
    let row = unparsed_columns(0);
    assert!(row.title.is_none() && row.model.is_none());
    assert_eq!((row.message_count, row.input_tokens, row.output_tokens), (0, 0, 0));
    assert_eq!((row.cache_read_input_tokens, row.cache_creation_input_tokens), (0, 0));
    assert!(!row.is_empty);
    assert_eq!(unparsed_columns(12).message_count, 12);
}

#[test]
fn entry_rows_across_sessions_share_the_budget() {
    let sessions = vec![
        SessionLines { session_id: "a".to_string(), records: vec![record(1, Json::Null), record(2, Json::Null)] },
        SessionLines { session_id: "b".to_string(), records: vec![] },
        SessionLines { session_id: "c".to_string(), records: vec![record(4, Json::Null), record(9, Json::Null)] },
    ];
    let ids = |rows: &Vec<gage::tables::entry::EntryRow>| {
        rows.iter().map(|r| (r.session_id.clone(), r.line)).collect::<Vec<_>>()
    };
    let all = entry_rows_of_sessions(&sessions, None);
    assert_eq!(
        ids(&all),
        vec![("a".to_string(), 1), ("a".to_string(), 2), ("c".to_string(), 4), ("c".to_string(), 9)]
    );
    let three = entry_rows_of_sessions(&sessions, Some(3));
    assert_eq!(ids(&three), vec![("a".to_string(), 1), ("a".to_string(), 2), ("c".to_string(), 4)]);
    assert!(entry_rows_of_sessions(&sessions, Some(0)).is_empty());
    assert_eq!(entry_rows_of_sessions(&sessions, Some(10)).len(), 4);
}

#[test]
fn message_rows_across_sessions_share_the_budget() {
    let first = SessionMessages {
        session_id: "a".to_string(),
        records: vec![record(1, message("user", s("hi"))), record(2, obj(vec![("type", s("summary"))]))],
        facts: vec![plain_facts(), plain_facts()],
    };
    let second = SessionMessages {
        session_id: "b".to_string(),
        records: vec![record(1, message("assistant", s("yo"))), record(3, message("user", s("ok")))],
        facts: vec![plain_facts(), plain_facts()],
    };
    let sessions = vec![first, second];
    let rows = message_rows_of_sessions(&sessions, None, &no_tags);
    let got: Vec<(String, i64)> = rows.iter().map(|r| (r.session_id.clone(), r.line)).collect();
    assert_eq!(got, vec![("a".to_string(), 1), ("b".to_string(), 1), ("b".to_string(), 3)]);
    let rows = message_rows_of_sessions(&sessions, Some(2), &no_tags);
    assert_eq!(rows.iter().map(|r| r.text.as_str()).collect::<Vec<_>>(), vec!["hi", "yo"]);
    assert!(message_rows_of_sessions(&sessions, Some(0), &no_tags).is_empty());
}

#[test]
fn content_test_of_entries() {
    let assistant = obj(vec![("type", s("assistant"))]);
    assert!(entry_has_content(&assistant, None));
    let user_text = message("user", s("<ide_opened_file>x</ide_opened_file>  "));
    assert!(!entry_has_content(&user_text, Some("  \n ")));
    assert!(entry_has_content(&user_text, Some(" hi ")));
    assert!(!entry_has_content(&user_text, None));
    assert!(entry_has_content(&message("user", Json::Array(vec![Json::Null])), None));
    assert!(!entry_has_content(&message("user", Json::Array(vec![])), None));
    assert!(!entry_has_content(&obj(vec![("type", s("permission-mode"))]), Some("x")));
    assert!(!entry_has_content(&obj(vec![("type", s("user"))]), Some("x")));
}

#[test]
fn session_titles_come_from_the_first_user_text() {
    let entries = vec![
        message("user", s("ignored")),
        message("user", s("second")),
    ];
    let f = vec![facts(Some("   "), "  \n  rest"), facts(Some("second"), "  Second line one\nmore")];
    let (row, _) = scan_session_entries(&entries, &f);
    assert_eq!(row.title.as_deref(), Some("Second line one"));
    assert!(!row.is_empty);
}

#[test]
fn message_text_is_the_entry_text() {
    let value = message(
        "assistant",
        Json::Array(vec![
            obj(vec![("type", s("text")), ("text", s("Reading."))]),
            obj(vec![("type", s("tool_use")), ("name", s("Read"))]),
        ]),
    );
    let facts = MessageFacts { subtype: None, attachments: None, rendered: vec!["Read: {}\n".to_string()] };
    let row = message_row("s", &record(2, value), &facts, &no_tags).expect("message");
    assert_eq!(row.text, "Reading.\n\nRead: {}");
    let empty = message_row("s", &record(3, message("user", Json::Array(vec![]))), &plain_facts(), &no_tags)
        .expect("message");
    assert_eq!(empty.text, "");
    assert!(empty.ide_tags.is_none());
}

#[test]
fn limited_message_rows_are_a_prefix() {
    let session = SessionMessages {
        session_id: "a".to_string(),
        records: vec![
            record(1, message("user", s("one"))),
            record(2, message("assistant", s("two"))),
            record(3, message("user", s("three"))),
        ],
        facts: vec![plain_facts(), plain_facts(), plain_facts()],
    };
    let sessions = vec![session];
    let full = message_rows_of_sessions(&sessions, None, &no_tags);
    for l in 0..5 {
        let limited = message_rows_of_sessions(&sessions, Some(l), &no_tags);
        assert_eq!(limited.len(), l.min(full.len()));
        for (a, b) in limited.iter().zip(full.iter()) {
            assert_eq!((a.line, &a.text), (b.line, &b.text));
        }
    }
}
