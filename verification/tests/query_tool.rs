use gage::json::Json;
use gage::query_tool::{query_reply, sql_param, QueryReply, RESULT_CAP_BYTES};

#[test]
fn sql_parameter_must_be_a_string() {
    let params = Json::Object(vec![("sql".to_string(), Json::Str("SELECT 1".to_string()))]);
    assert_eq!(sql_param(&params), Ok("SELECT 1"));
    let wrong = Json::Object(vec![("sql".to_string(), Json::Int(1))]);
    assert_eq!(sql_param(&wrong), Err("missing or non-string `sql`".to_string()));
    assert_eq!(sql_param(&Json::Object(vec![])), Err("missing or non-string `sql`".to_string()));
}

#[test]
fn replies_by_rows_and_size() {
    assert_eq!(query_reply(&vec![], 0), QueryReply::NoRows);
    assert_eq!(query_reply(&vec![0, 0], 2), QueryReply::NoRows);
    assert_eq!(query_reply(&vec![2, 0, 3], 100), QueryReply::Rows);
    assert_eq!(query_reply(&vec![1], RESULT_CAP_BYTES), QueryReply::Rows);
    assert_eq!(
        query_reply(&vec![2, 0, 3], 60_001),
        QueryReply::TooLarge { bytes: 60_001, cap_bytes: 60_000, rows: 5 }
    );
}
