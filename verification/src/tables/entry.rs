//! The entry table: one row per parsed line of a session file.
use vstd::prelude::*;

use crate::json::{member, opt_str, text_of, Json};

verus! {

/// A parsed line of a session file: its 1-based line number (blank and
/// unparseable lines count too), the parsed value, and that value
/// serialized back to JSON text.
pub struct SessionRecord {
    pub line: u32,
    pub value: Json,
    pub raw: String,
}

/// One row of the entry table.
pub struct EntryRow {
    pub session_id: String,
    pub line: i64,
    pub uuid: Option<String>,
    pub entry_type: Option<String>,
    /// The entry's `timestamp`, in epoch milliseconds, when it parses as
    /// RFC 3339.
    pub timestamp_ms: Option<i64>,
    pub raw: String,
}

/// The instant that chrono's RFC 3339 parser reads from `s`, in epoch
/// milliseconds; `None` when `s` does not parse.
pub uninterp spec fn rfc3339_millis(s: Seq<char>) -> Option<i64>;

/// Parses an RFC 3339 timestamp to epoch milliseconds.
///
/// Trusted: calls `chrono::DateTime::parse_from_rfc3339` and reads a
/// successful result with `timestamp_millis`. The result depends on `s`
/// alone; what the parser accepts and the instant it computes are named by
/// `rfc3339_millis`, not stated.
#[verifier::external_body]
pub(crate) fn parse_rfc3339_millis(s: &str) -> (r: Option<i64>)
    ensures
        r == rfc3339_millis(s@),
{
    chrono::DateTime::parse_from_rfc3339(s).ok().map(|dt| dt.timestamp_millis())
}

/// An owned copy of an optional string.
pub(crate) fn owned(s: Option<&str>) -> (r: Option<String>)
    ensures
        match r {
            Some(t) => s is Some && t@ == s->0@,
            None => s is None,
        },
{
    match s {
        Some(t) => Some(t.to_owned()),
        None => None,
    }
}

/// The text of an optional owned string.
pub open spec fn opt_view(s: Option<String>) -> Option<Seq<char>> {
    match s {
        Some(t) => Some(t@),
        None => None,
    }
}

/// `row` is the entry-table row of `record` in session `session_id`.
pub open spec fn is_entry_row(row: EntryRow, session_id: Seq<char>, record: SessionRecord) -> bool {
    &&& row.session_id@ == session_id
    &&& row.line == record.line
    &&& opt_view(row.uuid) == text_of(member(record.value, "uuid"@))
    &&& opt_view(row.entry_type) == text_of(member(record.value, "type"@))
    &&& row.timestamp_ms == match text_of(member(record.value, "timestamp"@)) {
        Some(ts) => rfc3339_millis(ts),
        None => None,
    }
    &&& row.raw@ == record.raw@
}

/// The entry-table row of one parsed line.
pub fn entry_row(session_id: &str, record: &SessionRecord) -> (row: EntryRow)
    ensures
        is_entry_row(row, session_id@, *record),
{
    let v = &record.value;
    let timestamp_ms = match opt_str(v.get("timestamp")) {
        Some(s) => parse_rfc3339_millis(s),
        None => None,
    };
    EntryRow {
        session_id: session_id.to_owned(),
        line: record.line as i64,
        uuid: owned(opt_str(v.get("uuid"))),
        entry_type: owned(opt_str(v.get("type"))),
        timestamp_ms,
        raw: record.raw.clone(),
    }
}

/// How many rows a session contributes under a row limit.
pub open spec fn rows_taken(available: nat, limit: Option<usize>) -> nat {
    match limit {
        Some(l) => if available <= l {
            available
        } else {
            l as nat
        },
        None => available,
    }
}

/// The entry-table rows of a session's parsed lines, in line order,
/// stopping once `limit` rows are produced.
pub fn entry_rows(session_id: &str, records: &Vec<SessionRecord>, limit: Option<usize>) -> (rows:
    Vec<EntryRow>)
    ensures
        rows@.len() == rows_taken(records@.len(), limit),
        forall|i: int| 0 <= i < rows@.len() ==> is_entry_row(#[trigger] rows@[i], session_id@, records@[i]),
{
    let mut rows: Vec<EntryRow> = Vec::new();
    let mut count: usize = 0;
    while count < records.len()
        invariant
            count <= records@.len(),
            rows@.len() == count,
            limit matches Some(l) ==> count <= l,
            forall|i: int| 0 <= i < count ==> is_entry_row(#[trigger] rows@[i], session_id@, records@[i]),
        ensures
            rows@.len() == count,
            count == rows_taken(records@.len(), limit),
            forall|i: int| 0 <= i < count ==> is_entry_row(#[trigger] rows@[i], session_id@, records@[i]),
        decreases records.len() - count,
    {
        match limit {
            Some(l) => if count >= l {
                break;
            },
            None => {},
        }
        let row = entry_row(session_id, &records[count]);
        rows.push(row);
        count = count + 1;
    }
    rows
}

/// The row budget left after a session contributed `added` rows.
pub fn remaining_after(remaining: Option<usize>, added: usize) -> (r: Option<usize>)
    ensures
        r == match remaining {
            Some(n) => Some(if n >= added {
                (n - added) as usize
            } else {
                0usize
            }),
            None => None,
        },
{
    match remaining {
        Some(n) => Some(n.saturating_sub(added)),
        None => None,
    }
}

/// One session's parsed lines, under its id.
pub struct SessionLines {
    pub session_id: String,
    pub records: Vec<SessionRecord>,
}

/// Every parsed line of the sessions, in session order and then line
/// order, each with its session's id.
pub open spec fn entry_sources(sessions: Seq<SessionLines>) -> Seq<(Seq<char>, SessionRecord)>
    decreases sessions.len(),
{
    if sessions.len() == 0 {
        Seq::empty()
    } else {
        let last = sessions.last();
        entry_sources(sessions.drop_last()) + last.records@.map_values(
            |r: SessionRecord| (last.session_id@, r),
        )
    }
}

/// The lines of fewer sessions come first among the lines of more.
pub proof fn lemma_entry_sources_prefix(sessions: Seq<SessionLines>, m: int)
    requires
        0 <= m <= sessions.len(),
    ensures
        entry_sources(sessions.take(m)).len() <= entry_sources(sessions).len(),
        forall|k: int|
            0 <= k < entry_sources(sessions.take(m)).len() ==> #[trigger] entry_sources(
                sessions.take(m),
            )[k] == entry_sources(sessions)[k],
    decreases sessions.len() - m,
{
    if m < sessions.len() {
        lemma_entry_sources_prefix(sessions, m + 1);
        assert(sessions.take(m + 1).drop_last() =~= sessions.take(m));
        let shorter = entry_sources(sessions.take(m));
        let longer = entry_sources(sessions.take(m + 1));
        assert forall|k: int| 0 <= k < shorter.len() implies #[trigger] shorter[k] == longer[k] by {}
    } else {
        assert(sessions.take(m) =~= sessions);
    }
}

/// The entry-table rows of several sessions, in order, stopping once
/// `limit` rows are produced: exactly the first `limit` (or all) of their
/// lines' rows. Each session gets the budget the earlier ones left.
pub fn entry_rows_of_sessions(sessions: &Vec<SessionLines>, limit: Option<usize>) -> (rows: Vec<
    EntryRow,
>)
    ensures
        rows@.len() == rows_taken(entry_sources(sessions@).len(), limit),
        forall|k: int|
            0 <= k < rows@.len() ==> is_entry_row(
                #[trigger] rows@[k],
                entry_sources(sessions@)[k].0,
                entry_sources(sessions@)[k].1,
            ),
{
    let mut rows: Vec<EntryRow> = Vec::new();
    let mut remaining = limit;
    let mut exhausted = limit == Some(0usize);
    let mut si: usize = 0;
    assert(sessions@.take(0) =~= Seq::<SessionLines>::empty());
    while si < sessions.len() && !exhausted
        invariant
            si <= sessions@.len(),
            rows@.len() == rows_taken(entry_sources(sessions@.take(si as int)).len(), limit),
            remaining == match limit {
                Some(l) => Some((l - rows@.len()) as usize),
                None => None::<usize>,
            },
            exhausted == (remaining == Some(0usize)),
            forall|k: int|
                0 <= k < rows@.len() ==> is_entry_row(
                    #[trigger] rows@[k],
                    entry_sources(sessions@.take(si as int))[k].0,
                    entry_sources(sessions@.take(si as int))[k].1,
                ),
        decreases sessions.len() - si,
    {
        let ghost src = entry_sources(sessions@.take(si as int));
        let session = &sessions[si];
        let mut part = entry_rows(session.session_id.as_str(), &session.records, remaining);
        let ghost before = rows@;
        let ghost added = part@;
        let ghost mapped = session.records@.map_values(
            |r: SessionRecord| (session.session_id@, r),
        );
        proof {
            assert(sessions@.take(si + 1).drop_last() =~= sessions@.take(si as int));
            assert(sessions@.take(si + 1).last() == *session);
            assert(entry_sources(sessions@.take(si + 1)) == src + mapped);
        }
        let n = part.len();
        rows.append(&mut part);
        remaining = remaining_after(remaining, n);
        exhausted = match remaining {
            Some(r) => r == 0,
            None => false,
        };
        proof {
            let next = src + mapped;
            assert forall|k: int| 0 <= k < rows@.len() implies is_entry_row(
                #[trigger] rows@[k],
                entry_sources(sessions@.take(si + 1))[k].0,
                entry_sources(sessions@.take(si + 1))[k].1,
            ) by {
                if k < before.len() {
                    assert(rows@[k] == before[k]);
                    assert(next[k] == src[k]);
                } else {
                    let j = k - before.len();
                    assert(rows@[k] == added[j]);
                    assert(next[k] == mapped[j]);
                }
            }
        }
        si = si + 1;
    }
    proof {
        lemma_entry_sources_prefix(sessions@, si as int);
        let src = entry_sources(sessions@.take(si as int));
        assert forall|k: int| 0 <= k < rows@.len() implies is_entry_row(
            #[trigger] rows@[k],
            entry_sources(sessions@)[k].0,
            entry_sources(sessions@)[k].1,
        ) by {
            assert(src[k] == entry_sources(sessions@)[k]);
        }
        if si == sessions@.len() {
            assert(sessions@.take(si as int) =~= sessions@);
        }
    }
    rows
}

} // verus!
