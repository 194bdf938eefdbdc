use gage::json::Json;
use gage::session_reader::{session_line, session_records};

#[test]
fn blank_and_invalid_lines_give_nothing() {
    assert!(session_line(1, "").is_none());
    assert!(session_line(2, "  \t ").is_none());
    assert!(session_line(3, "{not json").is_none());
}

#[test]
fn a_line_parses_into_the_model() {
    let rec = session_line(4, r#"{ "type" : "user", "n": 7 }"#).expect("valid line");
    assert_eq!(rec.line, 4);
    assert_eq!(rec.raw, r#"{"n":7,"type":"user"}"#);
    match rec.value {
        Json::Object(members) => {
            let ty = members.iter().find(|(k, _)| k == "type").map(|(_, v)| v);
            assert!(matches!(ty, Some(Json::Str(s)) if s == "user"));
            let n = members.iter().find(|(k, _)| k == "n").map(|(_, v)| v);
            assert!(matches!(n, Some(Json::Int(7))));
        }
        _ => panic!("object expected"),
    }
    let big = session_line(1, "18446744073709551615").expect("number");
    assert!(matches!(big.value, Json::Number(t) if t == "18446744073709551615"));
}

#[test]
fn records_keep_file_line_numbers() {
    let lines: Vec<String> =
        vec!["", r#"{"a":1}"#, "nope", "   ", "[1, 2]"].into_iter().map(String::from).collect();
    let recs = session_records(&lines);
    assert_eq!(recs.iter().map(|r| r.line).collect::<Vec<_>>(), vec![2, 5]);
    assert_eq!(recs[1].raw, "[1,2]");
}
