//! The session table: per-session summary columns.
//!
//! Cheap columns come from the directory walk; expensive ones from reading
//! the session's lines. Which path a scan takes depends on the columns the
//! query projects.
use vstd::prelude::*;

use crate::json::{int_of, member, member_of, opt_str, text_of, Json};
use crate::tables::message::trim_end;
use crate::text::{chars_of, char_slice, is_unicode_whitespace, push_str};

verus! {

/// Index of the first expensive column (`title`).
pub const EXPENSIVE_START: usize = 5;

/// Index of the `message_count` column.
pub const COL_MESSAGE_COUNT: usize = 7;

/// Maximum number of characters of source text kept when deriving a title
/// from a user message.
pub const MAX_TITLE_LEN_FROM_MSG: usize = 60;

// ---------------------------------------------------------------------------
// Choosing how much of each session to read
// ---------------------------------------------------------------------------

/// How a scan fills the expensive columns.
#[derive(Debug, Clone, Copy, PartialEq, Eq)]
pub enum ScanMode {
    /// Only cheap columns are projected: expensive ones get defaults.
    CheapOnly,
    /// Besides cheap columns only `message_count` is projected: count
    /// message lines without parsing JSON.
    CountOnly,
    /// Parse every line.
    FullParse,
}

/// Every column index in `ix` is a cheap column.
pub open spec fn all_cheap(ix: Seq<usize>) -> bool {
    forall|k: int| 0 <= k < ix.len() ==> #[trigger] ix[k] < EXPENSIVE_START
}

/// Every column index in `ix` is a cheap column or `message_count`.
pub open spec fn all_cheap_or_count(ix: Seq<usize>) -> bool {
    forall|k: int| 0 <= k < ix.len() ==> #[trigger] ix[k] < EXPENSIVE_START || ix[k] == COL_MESSAGE_COUNT
}

/// The projection touches only cheap columns (no projection means all
/// columns).
pub open spec fn cheap_only(projection: Option<Seq<usize>>) -> bool {
    match projection {
        Some(ix) => all_cheap(ix),
        None => false,
    }
}

/// The projection touches only cheap columns and `message_count`.
pub open spec fn message_count_only(projection: Option<Seq<usize>>) -> bool {
    match projection {
        Some(ix) => all_cheap_or_count(ix),
        None => false,
    }
}

/// True if the requested projection only touches cheap columns (those
/// filled from the directory walk).
pub fn projection_is_cheap_only(projection: Option<&Vec<usize>>) -> (r: bool)
    ensures
        r == cheap_only(
            match projection {
                Some(v) => Some(v@),
                None => None,
            },
        ),
{
    match projection {
        Some(indices) => {
            let mut k: usize = 0;
            while k < indices.len()
                invariant
                    k <= indices@.len(),
                    projection == Some(indices),
                    forall|j: int| 0 <= j < k ==> #[trigger] indices@[j] < EXPENSIVE_START,
                decreases indices.len() - k,
            {
                if indices[k] >= EXPENSIVE_START {
                    assert(!(indices@[k as int] < EXPENSIVE_START));
                    return false;
                }
                k = k + 1;
            }
            true
        },
        None => false,
    }
}

/// True if the projection only needs `message_count` (and any cheap
/// columns), which lets a scan count lines instead of parsing JSON.
pub fn projection_is_message_count_only(projection: Option<&Vec<usize>>) -> (r: bool)
    ensures
        r == message_count_only(
            match projection {
                Some(v) => Some(v@),
                None => None,
            },
        ),
{
    match projection {
        Some(indices) => {
            let mut k: usize = 0;
            while k < indices.len()
                invariant
                    k <= indices@.len(),
                    projection == Some(indices),
                    forall|j: int|
                        0 <= j < k ==> #[trigger] indices@[j] < EXPENSIVE_START || indices@[j]
                            == COL_MESSAGE_COUNT,
                decreases indices.len() - k,
            {
                if !(indices[k] < EXPENSIVE_START || indices[k] == COL_MESSAGE_COUNT) {
                    assert(!(indices@[k as int] < EXPENSIVE_START || indices@[k as int]
                        == COL_MESSAGE_COUNT));
                    return false;
                }
                k = k + 1;
            }
            true
        },
        None => false,
    }
}

/// The scan path for a projection.
pub fn scan_mode(projection: Option<&Vec<usize>>) -> (m: ScanMode)
    ensures
        ({
            let p = match projection {
                Some(v) => Some(v@),
                None => None,
            };
            m == if cheap_only(p) {
                ScanMode::CheapOnly
            } else if message_count_only(p) {
                ScanMode::CountOnly
            } else {
                ScanMode::FullParse
            }
        }),
{
    if projection_is_cheap_only(projection) {
        ScanMode::CheapOnly
    } else if projection_is_message_count_only(projection) {
        ScanMode::CountOnly
    } else {
        ScanMode::FullParse
    }
}

/// A projection is served by counting lines alone exactly when it names
/// only cheap columns (`id`, `project`, `path`, `mtime`, `size`: 0..=4)
/// and `message_count` (7).
pub proof fn law_count_only_names_only_counts(ix: Seq<usize>)
    ensures
        message_count_only(Some(ix)) <==> forall|k: int|
            0 <= k < ix.len() ==> #[trigger] ix[k] <= 4 || ix[k] == 7,
        cheap_only(Some(ix)) <==> forall|k: int| 0 <= k < ix.len() ==> #[trigger] ix[k] <= 4,
{
}

/// A projection that names `title` (5), `model` (6), a token total
/// (8..=11) or `is_empty` (12) needs every line parsed: it is neither
/// cheap-only nor count-only.
pub proof fn law_parsed_columns_force_full_parse(ix: Seq<usize>, k: int)
    requires
        0 <= k < ix.len(),
        ix[k] == 5 || ix[k] == 6 || (8 <= ix[k] <= 12),
    ensures
        !cheap_only(Some(ix)),
        !message_count_only(Some(ix)),
{
}

/// How many sessions the directory walk may stop after. A limit is pushed
/// into the walk only when no `id` filter could reject walked sessions
/// afterwards.
pub fn walk_limit(has_id_filter: bool, limit: Option<usize>) -> (r: Option<usize>)
    ensures
        r == if has_id_filter {
            None
        } else {
            limit
        },
{
    if has_id_filter {
        None
    } else {
        limit
    }
}

// ---------------------------------------------------------------------------
// Counting message lines without parsing
// ---------------------------------------------------------------------------

/// `needle` occurs in `hay` starting at position `i`.
pub open spec fn occurs_at(hay: Seq<char>, needle: Seq<char>, i: int) -> bool {
    0 <= i && i + needle.len() <= hay.len() && hay.subrange(i, i + needle.len()) == needle
}

/// `needle` occurs somewhere in `hay`.
pub open spec fn contains_text(hay: Seq<char>, needle: Seq<char>) -> bool {
    exists|i: int| occurs_at(hay, needle, i)
}

/// A raw line that looks like a user or assistant message: it contains
/// `"type":"user"` or `"type":"assistant"`, with or without a space after
/// the colon.
pub open spec fn looks_like_message(line: Seq<char>) -> bool {
    ||| contains_text(line, "\"type\":\"user\""@)
    ||| contains_text(line, "\"type\": \"user\""@)
    ||| contains_text(line, "\"type\":\"assistant\""@)
    ||| contains_text(line, "\"type\": \"assistant\""@)
}

/// Whether `needle` occurs in `hay`.
pub fn contains_str(hay: &str, needle: &str) -> (r: bool)
    ensures
        r == contains_text(hay@, needle@),
{
    let h = chars_of(hay);
    let n = chars_of(needle);
    if n.len() > h.len() {
        proof {
            assert forall|i: int| !occurs_at(hay@, needle@, i) by {}
        }
        return false;
    }
    let hl = h.len();
    let nl = n.len();
    let last = hl - nl;
    let mut i: usize = 0;
    loop
        invariant
            h@ == hay@,
            n@ == needle@,
            hl == h@.len(),
            nl == n@.len(),
            last == hl - nl,
            i <= last,
            forall|j: int| 0 <= j < i ==> !#[trigger] occurs_at(hay@, needle@, j),
        ensures
            forall|j: int| 0 <= j <= last ==> !#[trigger] occurs_at(hay@, needle@, j),
        decreases last - i,
    {
        let mut k: usize = 0;
        loop
            invariant
                k <= nl,
                i + nl <= hl,
                hl == h@.len(),
                nl == n@.len(),
                h@ == hay@,
                n@ == needle@,
                forall|m: int| 0 <= m < k ==> h@[i + m] == n@[m],
            ensures
                k <= nl,
                forall|m: int| 0 <= m < k ==> h@[i + m] == n@[m],
                k == nl || h@[i + k] != n@[k as int],
            decreases nl - k,
        {
            if k >= nl {
                break;
            }
            if h[i + k] != n[k] {
                break;
            }
            k = k + 1;
        }
        if k == nl {
            assert(hay@.subrange(i as int, i + needle@.len()) =~= needle@);
            assert(occurs_at(hay@, needle@, i as int));
            return true;
        }
        assert(!occurs_at(hay@, needle@, i as int)) by {
            if occurs_at(hay@, needle@, i as int) {
                assert(hay@.subrange(i as int, i + needle@.len())[k as int] == h@[i + k]);
            }
        }
        if i == last {
            break;
        }
        i = i + 1;
    }
    proof {
        assert forall|j: int| !occurs_at(hay@, needle@, j) by {
            if occurs_at(hay@, needle@, j) {
                assert(0 <= j <= last);
            }
        }
    }
    false
}

/// Whether a raw session line looks like a user or assistant message.
pub fn line_is_message(line: &str) -> (r: bool)
    ensures
        r == looks_like_message(line@),
{
    contains_str(line, "\"type\":\"user\"") || contains_str(line, "\"type\": \"user\"")
        || contains_str(line, "\"type\":\"assistant\"") || contains_str(
        line,
        "\"type\": \"assistant\"",
    )
}

/// Number of lines among `lines` that look like messages.
pub open spec fn message_line_count(lines: Seq<String>) -> int
    decreases lines.len(),
{
    if lines.len() == 0 {
        0
    } else {
        message_line_count(lines.drop_last()) + (if looks_like_message(lines.last()@) {
            1int
        } else {
            0int
        })
    }
}

/// Fast message count using text matching on the raw lines; no JSON
/// parsing.
pub fn count_message_lines(lines: &Vec<String>) -> (count: i64)
    requires
        lines@.len() <= i64::MAX,
    ensures
        count == message_line_count(lines@),
{
    let mut count: i64 = 0;
    let mut i: usize = 0;
    while i < lines.len()
        invariant
            i <= lines@.len(),
            lines@.len() <= i64::MAX,
            count == message_line_count(lines@.take(i as int)),
            0 <= count <= i,
        decreases lines.len() - i,
    {
        assert(lines@.take(i + 1).drop_last() =~= lines@.take(i as int));
        if line_is_message(lines[i].as_str()) {
            count = count + 1;
        }
        i = i + 1;
    }
    assert(lines@.take(lines@.len() as int) =~= lines@);
    count
}

// ---------------------------------------------------------------------------
// Titles
// ---------------------------------------------------------------------------

/// `s` without leading whitespace.
pub open spec fn trim_start(s: Seq<char>) -> Seq<char>
    decreases s.len(),
{
    if s.len() > 0 && is_unicode_whitespace(s[0]) {
        trim_start(s.drop_first())
    } else {
        s
    }
}

/// `s` shortened to `max_chars` characters (trailing whitespace of the
/// kept part trimmed) with `...` appended, when it is longer than that.
pub open spec fn truncated(s: Seq<char>, max_chars: nat) -> Seq<char> {
    if s.len() <= max_chars {
        s
    } else {
        trim_end(s.take(max_chars as int)) + "..."@
    }
}

/// Shortens `s` to at most `max_chars` characters plus `...`.
pub fn truncate_with_ellipsis(s: &str, max_chars: usize) -> (r: String)
    ensures
        r@ == truncated(s@, max_chars as nat),
{
    let n = s.unicode_len();
    let mut r = String::new();
    if n <= max_chars {
        push_str(&mut r, s);
        return r;
    }
    let kept = char_slice(s, 0, max_chars);
    assert(kept@ =~= s@.take(max_chars as int));
    let trimmed = crate::tables::message::trim_end_str(kept);
    push_str(&mut r, trimmed);
    push_str(&mut r, "...");
    r
}

/// Position of the first `'\n'` in `s`, or its length.
pub open spec fn first_newline(s: Seq<char>) -> int
    decreases s.len(),
{
    if s.len() == 0 {
        0
    } else if s[0] == '\n' {
        0
    } else {
        1 + first_newline(s.drop_first())
    }
}

/// The title derived from a message body: its first line, trimmed, and
/// shortened to `MAX_TITLE_LEN_FROM_MSG` characters plus `...`; `None`
/// when that line is blank.
pub open spec fn title_from_body(body: Seq<char>) -> Option<Seq<char>> {
    let line = trim_end(trim_start(body.take(first_newline(body))));
    if line.len() == 0 {
        None
    } else {
        Some(truncated(line, MAX_TITLE_LEN_FROM_MSG as nat))
    }
}

proof fn lemma_first_newline_bounds(s: Seq<char>)
    ensures
        0 <= first_newline(s) <= s.len(),
        first_newline(s) < s.len() ==> s[first_newline(s)] == '\n',
        forall|k: int| 0 <= k < first_newline(s) ==> s[k] != '\n',
    decreases s.len(),
{
    if s.len() > 0 && s[0] != '\n' {
        lemma_first_newline_bounds(s.drop_first());
        assert forall|k: int| 0 <= k < first_newline(s) implies s[k] != '\n' by {
            if k > 0 {
                assert(s[k] == s.drop_first()[k - 1]);
            }
        }
    }
}

/// `trim_start` of `s` starts at the first non-whitespace character.
proof fn lemma_trim_start_skip(s: Seq<char>, k: int)
    requires
        0 <= k <= s.len(),
        forall|j: int| 0 <= j < k ==> is_unicode_whitespace(#[trigger] s[j]),
        k == s.len() || !is_unicode_whitespace(s[k]),
    ensures
        trim_start(s) == s.skip(k),
    decreases k,
{
    if k > 0 {
        assert forall|j: int| 0 <= j < k - 1 implies is_unicode_whitespace(
            #[trigger] s.drop_first()[j],
        ) by {
            assert(s.drop_first()[j] == s[j + 1]);
        }
        lemma_trim_start_skip(s.drop_first(), k - 1);
        assert(s.drop_first().skip(k - 1) =~= s.skip(k));
    } else {
        assert(s.skip(0) =~= s);
    }
}

/// Derives a session title from a message body (see `title_from_body`).
pub fn session_title_from_body(body: &str) -> (r: Option<String>)
    ensures
        match r {
            Some(t) => title_from_body(body@) == Some(t@),
            None => title_from_body(body@) is None,
        },
{
    let cs = chars_of(body);
    let mut end: usize = 0;
    while end < cs.len() && cs[end] != '\n'
        invariant
            end <= cs@.len(),
            cs@ == body@,
            forall|k: int| 0 <= k < end ==> cs@[k] != '\n',
        decreases cs.len() - end,
    {
        end = end + 1;
    }
    proof {
        lemma_first_newline_bounds(body@);
        if first_newline(body@) < end {
            assert(cs@[first_newline(body@)] != '\n');
        }
    }
    assert(end == first_newline(body@));
    let mut start: usize = 0;
    while start < end && cs[start].is_whitespace()
        invariant
            start <= end,
            end <= cs@.len(),
            cs@ == body@,
            forall|k: int| 0 <= k < start ==> is_unicode_whitespace(#[trigger] cs@[k]),
        decreases end - start,
    {
        start = start + 1;
    }
    let line = char_slice(body, 0, end);
    proof {
        assert(line@ =~= body@.take(end as int));
        assert forall|j: int| 0 <= j < start implies is_unicode_whitespace(#[trigger] line@[j]) by {
            assert(line@[j] == cs@[j]);
        }
        lemma_trim_start_skip(line@, start as int);
    }
    let rest = char_slice(body, start, end);
    assert(rest@ =~= line@.skip(start as int));
    let trimmed = crate::tables::message::trim_end_str(rest);
    if trimmed.unicode_len() == 0 {
        return None;
    }
    Some(truncate_with_ellipsis(trimmed, MAX_TITLE_LEN_FROM_MSG))
}

// ---------------------------------------------------------------------------
// Summarizing a session's entries
// ---------------------------------------------------------------------------

/// What the summary needs to know of an entry beyond its JSON: its text
/// with IDE and harness tags removed, as the tag splitter gives it.
pub struct EntryFacts {
    /// For a user entry whose `message.content` is a string: that string
    /// with its tags removed (ignored for other entries).
    pub user_body: Option<String>,
    /// The entry's text with its tags removed, from which a user entry's
    /// title is derived (ignored for other entries).
    pub text_body: String,
}

/// `s` is empty or all whitespace.
pub open spec fn is_blank(s: Seq<char>) -> bool {
    forall|i: int| 0 <= i < s.len() ==> is_unicode_whitespace(#[trigger] s[i])
}

/// The text of an optional string.
pub open spec fn body_view(b: Option<String>) -> Option<Seq<char>> {
    match b {
        Some(t) => Some(t@),
        None => None,
    }
}

/// Whether an entry carries real conversational content: an assistant
/// turn always does; a user turn does when its content is a non-empty
/// array, or a string that is not blank once its tags are removed
/// (`user_body`; a missing body counts as blank); no other entry does.
pub open spec fn has_content(v: Json, user_body: Option<Seq<char>>) -> bool {
    let t = entry_type_text(v);
    if t == "assistant"@ {
        true
    } else if t == "user"@ {
        match member_of(member(v, "message"@), "content"@) {
            Some(Json::Str(_)) => match user_body {
                Some(b) => !is_blank(b),
                None => false,
            },
            Some(Json::Array(blocks)) => blocks@.len() > 0,
            _ => false,
        }
    } else {
        false
    }
}

/// Whether `body` is empty or all whitespace.
pub(crate) fn blank(body: &str) -> (r: bool)
    ensures
        r == is_blank(body@),
{
    let cs = chars_of(body);
    let mut i: usize = 0;
    while i < cs.len()
        invariant
            i <= cs@.len(),
            cs@ == body@,
            forall|j: int| 0 <= j < i ==> is_unicode_whitespace(#[trigger] cs@[j]),
        decreases cs.len() - i,
    {
        if !cs[i].is_whitespace() {
            return false;
        }
        i = i + 1;
    }
    true
}

/// The text of an optional owned string, borrowed.
fn opt_as_str(b: &Option<String>) -> (r: Option<&str>)
    ensures
        match r {
            Some(t) => body_view(*b) == Some(t@),
            None => b is None,
        },
{
    match b {
        Some(t) => Some(t.as_str()),
        None => None,
    }
}

/// Whether a session entry carries real conversational content, used to
/// decide whether a session is empty (see `has_content`). `user_body` is a
/// user entry's string content with its IDE and harness tags removed.
pub fn entry_has_content(entry: &Json, user_body: Option<&str>) -> (r: bool)
    ensures
        r == has_content(
            *entry,
            match user_body {
                Some(b) => Some(b@),
                None => None,
            },
        ),
{
    proof {
        reveal_strlit("assistant");
        reveal_strlit("user");
    }
    let t = match opt_str(entry.get("type")) {
        Some(t) => t,
        None => {
            assert(entry_type_text(*entry) =~= Seq::<char>::empty());
            return false;
        },
    };
    if t.eq("assistant") {
        return true;
    }
    if !t.eq("user") {
        return false;
    }
    let content = match entry.get("message") {
        Some(m) => m.get("content"),
        None => None,
    };
    match content {
        Some(Json::Str(_)) => match user_body {
            Some(b) => !blank(b),
            None => false,
        },
        Some(Json::Array(blocks)) => blocks.len() > 0,
        _ => false,
    }
}

/// The expensive columns of a session row.
pub struct ScannedRow {
    pub model: Option<String>,
    pub message_count: i64,
    pub input_tokens: i64,
    pub output_tokens: i64,
    pub cache_read_input_tokens: i64,
    pub cache_creation_input_tokens: i64,
    pub title: Option<String>,
    pub is_empty: bool,
}

/// The entry's `type` (`""` when missing or not a string).
pub open spec fn entry_type_text(v: Json) -> Seq<char> {
    match text_of(member(v, "type"@)) {
        Some(t) => t,
        None => Seq::empty(),
    }
}

/// A user or assistant entry.
pub open spec fn is_message_entry(v: Json) -> bool {
    entry_type_text(v) == "user"@ || entry_type_text(v) == "assistant"@
}

/// Number of user and assistant entries.
pub open spec fn scan_message_count(entries: Seq<Json>) -> int
    decreases entries.len(),
{
    if entries.len() == 0 {
        0
    } else {
        scan_message_count(entries.drop_last()) + (if is_message_entry(entries.last()) {
            1int
        } else {
            0int
        })
    }
}

/// The `key` counter of an assistant entry's `message.usage` (0 when
/// absent or not an `i64`); 0 for other entries.
pub open spec fn usage_value(v: Json, key: Seq<char>) -> int {
    if entry_type_text(v) == "assistant"@ {
        match member_of(member(v, "message"@), "usage"@) {
            Some(u) => match int_of(member(u, key)) {
                Some(n) => n as int,
                None => 0,
            },
            None => 0,
        }
    } else {
        0
    }
}

/// Sum of the `key` usage counters of the assistant entries.
pub open spec fn scan_tokens(entries: Seq<Json>, key: Seq<char>) -> int
    decreases entries.len(),
{
    if entries.len() == 0 {
        0
    } else {
        scan_tokens(entries.drop_last(), key) + usage_value(entries.last(), key)
    }
}

/// Every running total of the `key` counter fits in `i64`.
pub open spec fn tokens_fit(entries: Seq<Json>, key: Seq<char>) -> bool {
    forall|k: int| 0 <= k <= entries.len() ==> i64::MIN <= #[trigger] scan_tokens(entries.take(k), key) <= i64::MAX
}

/// The model of the first assistant entry that names one.
pub open spec fn scan_model(entries: Seq<Json>) -> Option<Seq<char>>
    decreases entries.len(),
{
    if entries.len() == 0 {
        None
    } else {
        let prev = scan_model(entries.drop_last());
        let v = entries.last();
        if prev is None && entry_type_text(v) == "assistant"@ {
            text_of(member_of(member(v, "message"@), "model"@))
        } else {
            prev
        }
    }
}

/// The session title: each `ai-title` entry sets it to its `aiTitle`;
/// while it is unset, a user entry sets it to the title derived from its
/// tag-free text (`title_from_body`).
pub open spec fn scan_title(entries: Seq<Json>, facts: Seq<EntryFacts>) -> Option<Seq<char>>
    decreases entries.len(),
{
    if entries.len() == 0 {
        None
    } else {
        let prev = scan_title(entries.drop_last(), facts);
        let v = entries.last();
        let t = entry_type_text(v);
        if t == "user"@ {
            if prev is None {
                title_from_body(facts[entries.len() - 1].text_body@)
            } else {
                prev
            }
        } else if t == "assistant"@ {
            prev
        } else if t == "ai-title"@ {
            text_of(member(v, "aiTitle"@))
        } else {
            prev
        }
    }
}

/// The title depends only on the facts of the entries it reads.
pub proof fn lemma_scan_title_facts(entries: Seq<Json>, f1: Seq<EntryFacts>, f2: Seq<EntryFacts>)
    requires
        entries.len() <= f1.len(),
        entries.len() <= f2.len(),
        forall|k: int| 0 <= k < entries.len() ==> #[trigger] f1[k] == f2[k],
    ensures
        scan_title(entries, f1) == scan_title(entries, f2),
    decreases entries.len(),
{
    if entries.len() > 0 {
        lemma_scan_title_facts(entries.drop_last(), f1, f2);
        assert(f1[entries.len() - 1] == f2[entries.len() - 1]);
    }
}

/// No entry carries conversational content.
pub open spec fn scan_is_empty(entries: Seq<Json>, facts: Seq<EntryFacts>) -> bool {
    forall|k: int|
        0 <= k < entries.len() ==> !has_content(#[trigger] entries[k], body_view(facts[k].user_body))
}

/// `row` summarizes `entries`.
pub open spec fn is_scan_of(row: ScannedRow, entries: Seq<Json>, facts: Seq<EntryFacts>) -> bool {
    &&& row.message_count == scan_message_count(entries)
    &&& row.input_tokens == scan_tokens(entries, "input_tokens"@)
    &&& row.output_tokens == scan_tokens(entries, "output_tokens"@)
    &&& row.cache_read_input_tokens == scan_tokens(entries, "cache_read_input_tokens"@)
    &&& row.cache_creation_input_tokens == scan_tokens(entries, "cache_creation_input_tokens"@)
    &&& (match row.model {
        Some(m) => scan_model(entries) == Some(m@),
        None => scan_model(entries) is None,
    })
    &&& (match row.title {
        Some(t) => scan_title(entries, facts) == Some(t@),
        None => scan_title(entries, facts) is None,
    })
    &&& row.is_empty == scan_is_empty(entries, facts)
}

/// The `key` usage counter of one entry.
fn usage_of(v: &Json, key: &str) -> (n: i64)
    ensures
        n == usage_value(*v, key@),
{
    proof {
        reveal_strlit("assistant");
    }
    match opt_str(v.get("type")) {
        Some(t) => if !t.eq("assistant") {
            return 0;
        },
        None => {
            assert(entry_type_text(*v) =~= Seq::<char>::empty());
            return 0;
        },
    }
    let usage = match v.get("message") {
        Some(m) => m.get("usage"),
        None => None,
    };
    match usage {
        Some(u) => match u.get(key) {
            Some(n) => match n.as_i64() {
                Some(x) => x,
                None => 0,
            },
            None => 0,
        },
        None => 0,
    }
}

/// Adds a usage counter to a running total.
fn add_tokens(total: i64, v: &Json, key: &str, Ghost(entries): Ghost<Seq<Json>>, Ghost(i): Ghost<int>) -> (r: i64)
    requires
        0 <= i < entries.len(),
        entries[i] == *v,
        total == scan_tokens(entries.take(i), key@),
        tokens_fit(entries, key@),
    ensures
        r == scan_tokens(entries.take(i + 1), key@),
{
    assert(entries.take(i + 1).drop_last() =~= entries.take(i));
    let n = usage_of(v, key);
    assert(i64::MIN <= scan_tokens(entries.take(i + 1), key@) <= i64::MAX);
    total + n
}

/// Summarizes a session from its parsed entries, in line order, and the
/// facts about each (`facts[i]` describes `entries[i]`). Returns the
/// summary and the number of entries read.
pub fn scan_session_entries(entries: &Vec<Json>, facts: &Vec<EntryFacts>) -> (r: (ScannedRow, usize))
    requires
        facts@.len() == entries@.len(),
        entries@.len() <= i64::MAX,
        tokens_fit(entries@, "input_tokens"@),
        tokens_fit(entries@, "output_tokens"@),
        tokens_fit(entries@, "cache_read_input_tokens"@),
        tokens_fit(entries@, "cache_creation_input_tokens"@),
    ensures
        is_scan_of(r.0, entries@, facts@),
        r.1 == entries@.len(),
{
    let mut row = ScannedRow {
        model: None,
        message_count: 0,
        input_tokens: 0,
        output_tokens: 0,
        cache_read_input_tokens: 0,
        cache_creation_input_tokens: 0,
        title: None,
        is_empty: true,
    };
    let mut lines_read: usize = 0;
    while lines_read < entries.len()
        invariant
            lines_read <= entries@.len(),
            facts@.len() == entries@.len(),
            entries@.len() <= i64::MAX,
            tokens_fit(entries@, "input_tokens"@),
            tokens_fit(entries@, "output_tokens"@),
            tokens_fit(entries@, "cache_read_input_tokens"@),
            tokens_fit(entries@, "cache_creation_input_tokens"@),
            0 <= row.message_count <= lines_read,
            is_scan_of(row, entries@.take(lines_read as int), facts@.take(lines_read as int)),
            scan_title(entries@.take(lines_read as int), facts@.take(lines_read as int)) == scan_title(
                entries@.take(lines_read as int),
                facts@,
            ),
        decreases entries.len() - lines_read,
    {
        let i = lines_read;
        let v = &entries[i];
        let ghost pre = entries@.take(i as int);
        let ghost post = entries@.take(i + 1);
        let ghost fpost_g = facts@.take(i + 1);
        proof {
            lemma_scan_title_facts(pre, facts@.take(i as int), fpost_g);
        }
        assert(post.drop_last() =~= pre);
        assert(post.last() == *v);
        if row.is_empty && entry_has_content(v, opt_as_str(&facts[i].user_body)) {
            row.is_empty = false;
        }
        let t = opt_str(v.get("type"));
        let is_user = match t {
            Some(s) => s.eq("user"),
            None => false,
        };
        let is_assistant = match t {
            Some(s) => s.eq("assistant"),
            None => false,
        };
        let is_ai_title = match t {
            Some(s) => s.eq("ai-title"),
            None => false,
        };
        proof {
            reveal_strlit("user");
            reveal_strlit("assistant");
            reveal_strlit("ai-title");
            if t is None {
                assert(entry_type_text(*v) =~= Seq::<char>::empty());
            }
        }
        row.input_tokens = add_tokens(row.input_tokens, v, "input_tokens", Ghost(entries@), Ghost(i as int));
        row.output_tokens = add_tokens(row.output_tokens, v, "output_tokens", Ghost(entries@), Ghost(i as int));
        row.cache_read_input_tokens = add_tokens(
            row.cache_read_input_tokens,
            v,
            "cache_read_input_tokens",
            Ghost(entries@),
            Ghost(i as int),
        );
        row.cache_creation_input_tokens = add_tokens(
            row.cache_creation_input_tokens,
            v,
            "cache_creation_input_tokens",
            Ghost(entries@),
            Ghost(i as int),
        );
        if is_user || is_assistant {
            row.message_count = row.message_count + 1;
            if is_assistant {
                if row.model.is_none() {
                    let model = match v.get("message") {
                        Some(m) => opt_str(m.get("model")),
                        None => None,
                    };
                    row.model = match model {
                        Some(s) => Some(s.to_owned()),
                        None => None,
                    };
                }
                assert(entry_type_text(*v) == "assistant"@);
                assert(entry_type_text(*v) != "user"@);
                assert(scan_title(post, fpost_g) == scan_title(pre, fpost_g));
            } else if row.title.is_none() {
                row.title = session_title_from_body(facts[i].text_body.as_str());
                assert(entry_type_text(*v) == "user"@);
                assert(scan_title(pre, fpost_g) is None);
            }
        } else if is_ai_title {
            row.title = match opt_str(v.get("aiTitle")) {
                Some(s) => Some(s.to_owned()),
                None => None,
            };
        }
        lines_read = lines_read + 1;
        proof {
            let fpre = facts@.take(i as int);
            let fpost = facts@.take(i + 1);
            assert(fpost.drop_last() =~= fpre);
            assert(fpost[i as int] == facts@[i as int]);
            assert(scan_is_empty(post, fpost) == (scan_is_empty(pre, fpre) && !has_content(
                *v,
                body_view(facts@[i as int].user_body),
            )));
            lemma_scan_title_facts(post, fpost, facts@);
            lemma_scan_title_facts(pre, fpre, facts@);
            lemma_scan_title_facts(pre, fpost, facts@);
        }
    }
    assert(entries@.take(lines_read as int) =~= entries@);
    assert(facts@.take(lines_read as int) =~= facts@);
    (row, lines_read)
}

/// The expensive columns of a session row when no line is parsed: no
/// title or model, no tokens, not marked empty, and `message_count` as
/// counted (the cheap-only path counts nothing and passes zero).
pub fn unparsed_columns(message_count: i64) -> (r: ScannedRow)
    ensures
        r.title is None,
        r.model is None,
        r.message_count == message_count,
        r.input_tokens == 0,
        r.output_tokens == 0,
        r.cache_read_input_tokens == 0,
        r.cache_creation_input_tokens == 0,
        !r.is_empty,
{
    ScannedRow {
        model: None,
        message_count,
        input_tokens: 0,
        output_tokens: 0,
        cache_read_input_tokens: 0,
        cache_creation_input_tokens: 0,
        title: None,
        is_empty: false,
    }
}

} // verus!
