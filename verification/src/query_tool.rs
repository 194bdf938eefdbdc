//! The SQL query tool offered to agents: which parameter carries the query,
//! and how the serialized result is answered.
use vstd::prelude::*;

use crate::json::{member, opt_str, text_of, Json};
use crate::text::push_str;

verus! {

/// Largest serialized query result, in bytes, that is answered as is.
/// Sized to stay well under an agent harness's tool-result cap.
pub const RESULT_CAP_BYTES: usize = 60000;

/// The `sql` parameter of a query request, or the invalid-parameters
/// message when it is missing or not a string.
pub fn sql_param(params: &Json) -> (r: Result<&str, String>)
    ensures
        match r {
            Ok(sql) => text_of(member(*params, "sql"@)) == Some(sql@),
            Err(msg) => text_of(member(*params, "sql"@)) is None && msg@
                == "missing or non-string `sql`"@,
        },
{
    match opt_str(params.get("sql")) {
        Some(sql) => Ok(sql),
        None => {
            let mut msg = String::new();
            push_str(&mut msg, "missing or non-string `sql`");
            Err(msg)
        },
    }
}

/// The sum of the row counts.
pub open spec fn total_rows(counts: Seq<usize>) -> int
    decreases counts.len(),
{
    if counts.len() == 0 {
        0
    } else {
        total_rows(counts.drop_last()) + counts.last()
    }
}

/// How a query result is answered.
#[derive(Debug, Clone, Copy, PartialEq, Eq)]
pub enum QueryReply {
    /// No rows: the answer is an empty JSON array.
    NoRows,
    /// The serialized rows exceed the cap: the answer is a size-cap error
    /// that reports the serialized size, the cap and the row count, with
    /// hints on narrowing the query.
    TooLarge { bytes: usize, cap_bytes: usize, rows: usize },
    /// The answer is the serialized rows themselves.
    Rows,
}

/// The reply to a query whose result batches hold `row_counts` rows and
/// serialize to `json_bytes` bytes of JSON.
pub fn query_reply(row_counts: &Vec<usize>, json_bytes: usize) -> (r: QueryReply)
    requires
        total_rows(row_counts@) <= usize::MAX,
    ensures
        r == (if total_rows(row_counts@) == 0 {
            QueryReply::NoRows
        } else if json_bytes > RESULT_CAP_BYTES {
            QueryReply::TooLarge {
                bytes: json_bytes,
                cap_bytes: RESULT_CAP_BYTES,
                rows: total_rows(row_counts@) as usize,
            }
        } else {
            QueryReply::Rows
        }),
{
    let mut rows: usize = 0;
    let mut i: usize = 0;
    while i < row_counts.len()
        invariant
            i <= row_counts@.len(),
            rows == total_rows(row_counts@.take(i as int)),
            total_rows(row_counts@) <= usize::MAX,
        decreases row_counts.len() - i,
    {
        assert(row_counts@.take(i + 1).drop_last() =~= row_counts@.take(i as int));
        proof {
            lemma_total_rows_prefix(row_counts@, i + 1);
        }
        rows = rows + row_counts[i];
        i = i + 1;
    }
    assert(row_counts@.take(row_counts@.len() as int) =~= row_counts@);
    if rows == 0 {
        QueryReply::NoRows
    } else if json_bytes > RESULT_CAP_BYTES {
        QueryReply::TooLarge { bytes: json_bytes, cap_bytes: RESULT_CAP_BYTES, rows }
    } else {
        QueryReply::Rows
    }
}

/// The rows of a prefix are no more than the rows of the whole.
pub proof fn lemma_total_rows_prefix(counts: Seq<usize>, n: int)
    requires
        0 <= n <= counts.len(),
    ensures
        total_rows(counts.take(n)) <= total_rows(counts),
    decreases counts.len() - n,
{
    if n < counts.len() {
        lemma_total_rows_prefix(counts, n + 1);
        assert(counts.take(n + 1).drop_last() =~= counts.take(n));
    } else {
        assert(counts.take(n) =~= counts);
    }
}

} // verus!
