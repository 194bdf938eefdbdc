//! Reading session files: the lines of an NDJSON session log, numbered and
//! parsed into the library's JSON model.
use vstd::prelude::*;

use crate::json::Json;
use crate::tables::entry::SessionRecord;
use crate::tables::session::{blank, is_blank};

verus! {

#[verifier::external_type_specification]
#[verifier::external_body]
pub struct ExJsonValue(serde_json::Value);

/// Converts a parsed `serde_json::Value` into the library's JSON model,
/// one variant for one, keeping member order; a number becomes `Int` when
/// `Number::as_i64` gives it, otherwise its text.
///
/// Trusted: a recursive one-for-one conversion of serde_json's value
/// (needed by `parse_json`, whose body cannot hold a recursive item).
/// Nothing is stated of it; what parsing and conversion give together is
/// named by `parsed_json`.
#[verifier::external_body]
fn json_of_value(v: &serde_json::Value) -> Json {
    match v {
        serde_json::Value::Null => Json::Null,
        serde_json::Value::Bool(b) => Json::Bool(*b),
        serde_json::Value::Number(n) => n.as_i64().map_or_else(|| Json::Number(n.to_string()), Json::Int),
        serde_json::Value::String(t) => Json::Str(t.clone()),
        serde_json::Value::Array(a) => Json::Array(a.iter().map(json_of_value).collect()),
        serde_json::Value::Object(m) => Json::Object(
            m.iter().map(|(k, x)| (k.clone(), json_of_value(x))).collect(),
        ),
    }
}

/// What serde_json makes of `text`: the parsed value in the library's
/// JSON model, and that value serialized back to compact JSON text;
/// `None` when `text` is not valid JSON.
pub uninterp spec fn parsed_json(text: Seq<char>) -> Option<(Json, Seq<char>)>;

/// Parses one line of JSON.
///
/// Trusted: calls `serde_json::from_str::<serde_json::Value>`, converts a
/// parsed value with `json_of_value` and serializes it back with
/// `to_string`. Parsing depends on the text alone; what it accepts and
/// produces is named by `parsed_json`, not stated.
#[verifier::external_body]
fn parse_json(text: &str) -> (r: Option<(Json, String)>)
    ensures
        match r {
            Some((j, raw)) => parsed_json(text@) == Some((j, raw@)),
            None => parsed_json(text@) is None,
        },
{
    serde_json::from_str::<serde_json::Value>(text).ok().map(|v| (json_of_value(&v), v.to_string()))
}

/// `rec` is line number `line` of a session file, holding `text`.
pub open spec fn is_record_of(rec: SessionRecord, line: int, text: Seq<char>) -> bool {
    &&& rec.line == line
    &&& parsed_json(text) == Some((rec.value, rec.raw@))
}

/// One line of a session file: `None` for a blank line or one that is not
/// valid JSON; otherwise the parsed record under number `line`.
pub fn session_line(line: u32, text: &str) -> (r: Option<SessionRecord>)
    ensures
        match r {
            Some(rec) => !is_blank(text@) && is_record_of(rec, line as int, text@),
            None => is_blank(text@) || parsed_json(text@) is None,
        },
{
    if blank(text) {
        return None;
    }
    match parse_json(text) {
        Some((value, raw)) => Some(SessionRecord { line, value, raw }),
        None => None,
    }
}

/// The positions, in order, of the lines among the first `n` that give a
/// record: not blank, and valid JSON.
pub open spec fn record_positions(lines: Seq<String>, n: int) -> Seq<int>
    decreases n,
{
    if n <= 0 {
        Seq::empty()
    } else {
        let prev = record_positions(lines, n - 1);
        let t = lines[n - 1]@;
        if !is_blank(t) && parsed_json(t) is Some {
            prev.push(n - 1)
        } else {
            prev
        }
    }
}

/// The records of a session file's lines, in order. Lines are numbered
/// from 1, blank and invalid lines included; those lines give no record.
pub fn session_records(lines: &Vec<String>) -> (r: Vec<SessionRecord>)
    requires
        lines@.len() <= u32::MAX,
    ensures
        r@.len() == record_positions(lines@, lines@.len() as int).len(),
        forall|k: int|
            0 <= k < r@.len() ==> {
                let p = #[trigger] record_positions(lines@, lines@.len() as int)[k];
                0 <= p < lines@.len() && is_record_of(r@[k], p + 1, lines@[p]@)
            },
{
    let mut records: Vec<SessionRecord> = Vec::new();
    let mut i: usize = 0;
    while i < lines.len()
        invariant
            i <= lines@.len(),
            lines@.len() <= u32::MAX,
            records@.len() == record_positions(lines@, i as int).len(),
            forall|k: int|
                0 <= k < records@.len() ==> {
                    let p = #[trigger] record_positions(lines@, i as int)[k];
                    0 <= p < i && is_record_of(records@[k], p + 1, lines@[p]@)
                },
        decreases lines.len() - i,
    {
        let ghost before = records@;
        let ghost prev = record_positions(lines@, i as int);
        match session_line((i + 1) as u32, lines[i].as_str()) {
            Some(rec) => {
                records.push(rec);
                assert(record_positions(lines@, i + 1) == prev.push(i as int));
                assert forall|k: int| 0 <= k < records@.len() implies {
                    let p = #[trigger] record_positions(lines@, i + 1)[k];
                    0 <= p < i + 1 && is_record_of(records@[k], p + 1, lines@[p]@)
                } by {
                    if k < before.len() {
                        assert(records@[k] == before[k]);
                        assert(record_positions(lines@, i + 1)[k] == prev[k]);
                    }
                }
            },
            None => {
                assert(record_positions(lines@, i + 1) == prev);
            },
        }
        i = i + 1;
    }
    records
}

} // verus!
