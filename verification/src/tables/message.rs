//! The text of a session entry: what a user or assistant message says,
//! with its text, thinking, tool-call and tool-result blocks in order.
use vstd::prelude::*;

use crate::json::{member, member_of, opt_str, text_of, Json};
use crate::tables::entry::{
    opt_view, owned, parse_rfc3339_millis, remaining_after, rfc3339_millis, rows_taken,
    SessionRecord,
};
use crate::text::{chars_of, char_slice, is_unicode_whitespace, push_str};

verus! {

/// `texts` joined with `sep` between consecutive elements.
pub open spec fn join(texts: Seq<Seq<char>>, sep: Seq<char>) -> Seq<char>
    decreases texts.len(),
{
    if texts.len() == 0 {
        Seq::empty()
    } else if texts.len() == 1 {
        texts[0]
    } else {
        join(texts.drop_last(), sep) + sep + texts.last()
    }
}

/// `s` without its trailing whitespace.
pub open spec fn trim_end(s: Seq<char>) -> Seq<char>
    decreases s.len(),
{
    if s.len() > 0 && is_unicode_whitespace(s.last()) {
        trim_end(s.drop_last())
    } else {
        s
    }
}

/// The `text` strings of the items of a tool result, in order (items
/// without a string `text` are skipped).
pub open spec fn item_texts(items: Seq<Json>) -> Seq<Seq<char>>
    decreases items.len(),
{
    if items.len() == 0 {
        Seq::empty()
    } else {
        let prev = item_texts(items.drop_last());
        match text_of(member(items.last(), "text"@)) {
            Some(t) => prev.push(t),
            None => prev,
        }
    }
}

/// The text of a tool-result block's `content`: the string itself, or the
/// `text` of its items joined with newlines; empty otherwise.
pub open spec fn tool_result_spec(block: Json) -> Seq<char> {
    match member(block, "content"@) {
        Some(Json::Str(s)) => s@,
        Some(Json::Array(items)) => join(item_texts(items@), "\n"@),
        _ => Seq::empty(),
    }
}

/// What one content block contributes to the entry text, if anything:
/// `Some(Some(text))` for literal text, `Some(None)` for a tool call whose
/// rendering is supplied separately.
pub open spec fn block_part(is_assistant: bool, block: Json) -> Option<Option<Seq<char>>> {
    match text_of(member(block, "type"@)) {
        None => None,
        Some(t) => if t == "text"@ {
            match text_of(member(block, "text"@)) {
                Some(x) => Some(Some(x)),
                None => None,
            }
        } else if is_assistant && t == "thinking"@ {
            match text_of(member(block, "thinking"@)) {
                Some(x) => Some(Some(x)),
                None => None,
            }
        } else if is_assistant && t == "tool_use"@ {
            Some(None)
        } else if !is_assistant && t == "tool_result"@ {
            Some(Some(tool_result_spec(block)))
        } else {
            None
        },
    }
}

/// The contributions of `blocks`, in order.
pub open spec fn parts_of(is_assistant: bool, blocks: Seq<Json>) -> Seq<Option<Seq<char>>>
    decreases blocks.len(),
{
    if blocks.len() == 0 {
        Seq::empty()
    } else {
        let prev = parts_of(is_assistant, blocks.drop_last());
        match block_part(is_assistant, blocks.last()) {
            Some(p) => prev.push(p),
            None => prev,
        }
    }
}

/// The tool-call blocks among `blocks`, in order.
pub open spec fn tool_blocks(is_assistant: bool, blocks: Seq<Json>) -> Seq<Json>
    decreases blocks.len(),
{
    if blocks.len() == 0 {
        Seq::empty()
    } else {
        let prev = tool_blocks(is_assistant, blocks.drop_last());
        if block_part(is_assistant, blocks.last()) == Some(None::<Seq<char>>) {
            prev.push(blocks.last())
        } else {
            prev
        }
    }
}

/// Number of tool calls among `parts`.
pub open spec fn tool_call_count(parts: Seq<Option<Seq<char>>>) -> nat
    decreases parts.len(),
{
    if parts.len() == 0 {
        0
    } else {
        tool_call_count(parts.drop_last()) + (if parts.last() is None {
            1nat
        } else {
            0nat
        })
    }
}

/// `parts` with each tool call replaced, in order, by the corresponding
/// rendering with trailing whitespace trimmed (empty when there are fewer
/// renderings than tool calls).
pub open spec fn fill(parts: Seq<Option<Seq<char>>>, rendered: Seq<Seq<char>>) -> Seq<Seq<char>>
    decreases parts.len(),
{
    if parts.len() == 0 {
        Seq::empty()
    } else {
        let k = tool_call_count(parts.drop_last());
        fill(parts.drop_last(), rendered).push(
            match parts.last() {
                Some(t) => t,
                None => if k < rendered.len() {
                    trim_end(rendered[k as int])
                } else {
                    Seq::empty()
                },
            },
        )
    }
}

/// Whether the entry is a user (`Some(false)`) or assistant
/// (`Some(true)`) message; `None` for any other entry.
pub open spec fn message_role(entry: Json) -> Option<bool> {
    match text_of(member(entry, "type"@)) {
        Some(t) => if t == "user"@ {
            Some(false)
        } else if t == "assistant"@ {
            Some(true)
        } else {
            None
        },
        None => None,
    }
}

/// The contributions of an entry's `message.content`: one literal for a
/// string content, one per contributing block for an array content;
/// `None` for non-message entries or any other content.
pub open spec fn entry_parts(entry: Json) -> Option<Seq<Option<Seq<char>>>> {
    match message_role(entry) {
        None => None,
        Some(is_assistant) => match member_of(member(entry, "message"@), "content"@) {
            Some(Json::Array(blocks)) => Some(parts_of(is_assistant, blocks@)),
            Some(Json::Str(s)) => Some(seq![Some(s@)]),
            _ => None,
        },
    }
}

/// The tool-call blocks of an entry, in order.
pub open spec fn entry_tool_blocks(entry: Json) -> Seq<Json> {
    match message_role(entry) {
        None => Seq::empty(),
        Some(is_assistant) => match member_of(member(entry, "message"@), "content"@) {
            Some(Json::Array(blocks)) => tool_blocks(is_assistant, blocks@),
            _ => Seq::empty(),
        },
    }
}

/// The text of an entry given the renderings of its tool calls: its
/// contributions joined with blank lines; `None` for non-message entries
/// and for messages that contribute nothing.
pub open spec fn entry_text_spec(entry: Json, rendered: Seq<Seq<char>>) -> Option<Seq<char>> {
    match entry_parts(entry) {
        None => None,
        Some(parts) => if parts.len() == 0 {
            None
        } else {
            Some(join(fill(parts, rendered), "\n\n"@))
        },
    }
}

/// The name of a tool-call block (`""` when missing).
pub open spec fn tool_name(block: Json) -> Seq<char> {
    match text_of(member(block, "name"@)) {
        Some(n) => n,
        None => Seq::empty(),
    }
}

/// The input members of a tool-call block (`None` stands for the empty
/// object used when `input` is missing or not an object).
pub open spec fn tool_input(block: Json) -> Option<Seq<(String, Json)>> {
    match member(block, "input"@) {
        Some(Json::Object(members)) => Some(members@),
        _ => None,
    }
}

/// A tool call to render: the tool's name and its input object's members
/// (`None` for an empty object).
pub struct ToolCall<'a> {
    pub name: &'a str,
    pub input: Option<&'a Vec<(String, Json)>>,
}

/// `call` names the tool and input of the tool-call block `block`.
pub open spec fn call_matches(call: ToolCall, block: Json) -> bool {
    &&& call.name@ == tool_name(block)
    &&& match call.input {
        Some(ms) => tool_input(block) == Some(ms@),
        None => tool_input(block) is None,
    }
}

/// `s` without its trailing whitespace.
pub fn trim_end_str(s: &str) -> (r: &str)
    ensures
        r@ == trim_end(s@),
{
    let cs = chars_of(s);
    let mut end = cs.len();
    assert(s@.take(end as int) =~= s@);
    while end > 0 && cs[end - 1].is_whitespace()
        invariant
            end <= cs@.len(),
            cs@ == s@,
            trim_end(s@) == trim_end(s@.take(end as int)),
        decreases end,
    {
        assert(s@.take(end as int).drop_last() =~= s@.take(end - 1));
        end = end - 1;
    }
    assert(s@.take(end as int) =~= s@.subrange(0, end as int));
    char_slice(s, 0, end)
}

/// Appends `t` to `out` after a separator unless `out` holds no part yet.
fn append_part(out: &mut String, count: &mut usize, sep: &str, t: &str, Ghost(texts): Ghost<Seq<Seq<char>>>)
    requires
        old(out)@ == join(texts, sep@),
        *old(count) == texts.len(),
        *old(count) < usize::MAX,
    ensures
        final(out)@ == join(texts.push(t@), sep@),
        *final(count) == texts.len() + 1,
{
    if *count > 0 {
        push_str(out, sep);
    }
    push_str(out, t);
    *count = *count + 1;
    assert(texts.push(t@).drop_last() =~= texts);
}

/// Extract tool_result text from a content block's `content` field, which
/// may be a string or an array of content items.
pub fn tool_result_text(block: &Json) -> (r: String)
    ensures
        r@ == tool_result_spec(*block),
{
    match block.get("content") {
        Some(Json::Str(s)) => s.clone(),
        Some(Json::Array(items)) => {
            let mut out = String::new();
            let mut count: usize = 0;
            let mut i: usize = 0;
            while i < items.len()
                invariant
                    i <= items@.len(),
                    out@ == join(item_texts(items@.take(i as int)), "\n"@),
                    count == item_texts(items@.take(i as int)).len(),
                    count <= i,
                decreases items.len() - i,
            {
                let ghost texts = item_texts(items@.take(i as int));
                assert(items@.take(i + 1).drop_last() =~= items@.take(i as int));
                match opt_str(items[i].get("text")) {
                    Some(t) => {
                        append_part(&mut out, &mut count, "\n", t, Ghost(texts));
                    },
                    None => {},
                }
                i = i + 1;
            }
            assert(items@.take(items@.len() as int) =~= items@);
            out
        },
        _ => String::new(),
    }
}

/// Extract the text representation of a raw session entry.
///
/// Extracts text from `message.content` blocks (text, thinking, tool_use,
/// tool_result) and joins them with blank lines. Tool calls are rendered
/// by the caller, in the order `tool_calls` lists them; `rendered` holds
/// those renderings. Returns `None` for non-message entries or messages
/// with no text content.
pub fn entry_text(entry: &Json, rendered: &Vec<String>) -> (r: Option<String>)
    ensures
        match r {
            Some(t) => entry_text_spec(*entry, rendered@.map_values(|s: String| s@)) == Some(t@),
            None => entry_text_spec(*entry, rendered@.map_values(|s: String| s@)) is None,
        },
{
    let ghost rv = rendered@.map_values(|s: String| s@);
    let is_assistant = match opt_str(entry.get("type")) {
        Some(t) => if t.eq("user") {
            false
        } else if t.eq("assistant") {
            true
        } else {
            return None;
        },
        None => {
            return None;
        },
    };
    let content = match entry.get("message") {
        Some(m) => m.get("content"),
        None => None,
    };
    let blocks = match content {
        Some(Json::Array(blocks)) => blocks,
        Some(Json::Str(s)) => {
            let ghost parts = seq![Some(s@)];
            assert(parts.drop_last() =~= Seq::<Option<Seq<char>>>::empty());
            assert(fill(parts.drop_last(), rv) =~= Seq::<Seq<char>>::empty());
            assert(parts.last() == Some(s@));
            assert(fill(parts, rv) =~= seq![s@]);
            return Some(s.clone());
        },
        _ => {
            return None;
        },
    };
    let mut out = String::new();
    let mut count: usize = 0;
    let mut k: usize = 0;
    let mut i: usize = 0;
    while i < blocks.len()
        invariant
            i <= blocks@.len(),
            rv == rendered@.map_values(|s: String| s@),
            out@ == join(fill(parts_of(is_assistant, blocks@.take(i as int)), rv), "\n\n"@),
            count == parts_of(is_assistant, blocks@.take(i as int)).len(),
            k == tool_call_count(parts_of(is_assistant, blocks@.take(i as int))),
            count <= i,
            k <= i,
        decreases blocks.len() - i,
    {
        let ghost parts = parts_of(is_assistant, blocks@.take(i as int));
        let ghost texts = fill(parts, rv);
        proof {
            lemma_fill_len(parts, rv);
        }
        assert(blocks@.take(i + 1).drop_last() =~= blocks@.take(i as int));
        assert(blocks@.take(i + 1).last() == blocks@[i as int]);
        let block = &blocks[i];
        match opt_str(block.get("type")) {
            None => {},
            Some(t) => {
                if t.eq("text") {
                    match opt_str(block.get("text")) {
                        Some(x) => {
                            append_part(&mut out, &mut count, "\n\n", x, Ghost(texts));
                            assert(parts.push(Some(x@)).drop_last() =~= parts);
                            assert(parts_of(is_assistant, blocks@.take(i + 1)) == parts.push(
                                Some(x@),
                            ));
                        },
                        None => {
                            assert(parts_of(is_assistant, blocks@.take(i + 1)) == parts);
                        },
                    }
                } else if is_assistant && t.eq("thinking") {
                    match opt_str(block.get("thinking")) {
                        Some(x) => {
                            append_part(&mut out, &mut count, "\n\n", x, Ghost(texts));
                            assert(parts.push(Some(x@)).drop_last() =~= parts);
                        },
                        None => {},
                    }
                } else if is_assistant && t.eq("tool_use") {
                    let x = if k < rendered.len() {
                        trim_end_str(rendered[k].as_str())
                    } else {
                        char_slice("", 0, 0)
                    };
                    assert(x@ == (if k < rv.len() {
                        trim_end(rv[k as int])
                    } else {
                        Seq::empty()
                    }));
                    append_part(&mut out, &mut count, "\n\n", x, Ghost(texts));
                    assert(parts.push(None).drop_last() =~= parts);
                    assert(parts_of(is_assistant, blocks@.take(i + 1)) == parts.push(None));
                    k = k + 1;
                } else if !is_assistant && t.eq("tool_result") {
                    let x = tool_result_text(block);
                    append_part(&mut out, &mut count, "\n\n", x.as_str(), Ghost(texts));
                    assert(parts.push(Some(x@)).drop_last() =~= parts);
                }
            },
        }
        i = i + 1;
    }
    assert(blocks@.take(blocks@.len() as int) =~= blocks@);
    if count == 0 {
        None
    } else {
        Some(out)
    }
}

/// `fill` yields one text per part.
pub proof fn lemma_fill_len(parts: Seq<Option<Seq<char>>>, rendered: Seq<Seq<char>>)
    ensures
        fill(parts, rendered).len() == parts.len(),
    decreases parts.len(),
{
    if parts.len() > 0 {
        lemma_fill_len(parts.drop_last(), rendered);
    }
}

/// Every part keeps its place in the entry text: a literal part is itself,
/// and the `j`-th tool call (counting from 0 in content order) is filled
/// with the `j`-th rendering, trailing whitespace trimmed, or with nothing
/// when there are fewer renderings.
pub proof fn law_each_call_gets_its_own_rendering(
    parts: Seq<Option<Seq<char>>>,
    rendered: Seq<Seq<char>>,
)
    ensures
        fill(parts, rendered).len() == parts.len(),
        forall|i: int|
            0 <= i < parts.len() ==> #[trigger] fill(parts, rendered)[i] == match parts[i] {
                Some(t) => t,
                None => if tool_call_count(parts.take(i)) < rendered.len() {
                    trim_end(rendered[tool_call_count(parts.take(i)) as int])
                } else {
                    Seq::empty()
                },
            },
    decreases parts.len(),
{
    lemma_fill_len(parts, rendered);
    if parts.len() > 0 {
        let init = parts.drop_last();
        law_each_call_gets_its_own_rendering(init, rendered);
        assert forall|i: int| 0 <= i < parts.len() implies #[trigger] fill(parts, rendered)[i]
            == match parts[i] {
            Some(t) => t,
            None => if tool_call_count(parts.take(i)) < rendered.len() {
                trim_end(rendered[tool_call_count(parts.take(i)) as int])
            } else {
                Seq::empty()
            },
        } by {
            if i < init.len() {
                assert(parts.take(i) =~= init.take(i));
                assert(fill(parts, rendered)[i] == fill(init, rendered)[i]);
            } else {
                assert(parts.take(i) =~= init);
            }
        }
    }
}

/// An assistant entry whose content is nothing but tool calls reads as the
/// renderings of those calls, in order, each trimmed, joined by blank
/// lines: the `j`-th call contributes exactly the `j`-th rendering.
pub proof fn law_tool_calls_read_in_order(entry: Json, blocks: Seq<Json>, rendered: Seq<Seq<char>>)
    requires
        text_of(member(entry, "type"@)) == Some("assistant"@),
        member_of(member(entry, "message"@), "content"@) matches Some(Json::Array(bs)) && bs@
            == blocks,
        blocks.len() > 0,
        forall|j: int| 0 <= j < blocks.len() ==> text_of(member(#[trigger] blocks[j], "type"@)) == Some(
            "tool_use"@,
        ),
        rendered.len() >= blocks.len(),
    ensures
        entry_text_spec(entry, rendered) == Some(
            join(Seq::new(blocks.len(), |j: int| trim_end(rendered[j])), "\n\n"@),
        ),
{
    reveal_strlit("assistant");
    reveal_strlit("user");
    reveal_strlit("text");
    reveal_strlit("thinking");
    reveal_strlit("tool_use");
    lemma_all_tool_calls(blocks, blocks.len() as int);
    let parts = parts_of(true, blocks);
    assert(blocks.take(blocks.len() as int) =~= blocks);
    assert(parts == Seq::new(blocks.len(), |j: int| None::<Seq<char>>));
    assert("assistant"@.len() != "user"@.len());
    assert(message_role(entry) == Some(true));
    assert(entry_parts(entry) == Some(parts));
    assert(parts.len() > 0);
    law_each_call_gets_its_own_rendering(parts, rendered);
    assert forall|i: int| 0 <= i < parts.len() implies tool_call_count(parts.take(i)) == i by {
        lemma_count_all_calls(parts, i);
    }
    assert(fill(parts, rendered) =~= Seq::new(blocks.len(), |j: int| trim_end(rendered[j])));
    assert(entry_text_spec(entry, rendered) == Some(join(fill(parts, rendered), "\n\n"@)));
}

/// A run of tool-call blocks contributes one placeholder per block.
proof fn lemma_all_tool_calls(blocks: Seq<Json>, n: int)
    requires
        0 <= n <= blocks.len(),
        forall|j: int| 0 <= j < blocks.len() ==> text_of(member(#[trigger] blocks[j], "type"@)) == Some(
            "tool_use"@,
        ),
    ensures
        parts_of(true, blocks.take(n)) == Seq::new(n as nat, |j: int| None::<Seq<char>>),
    decreases n,
{
    reveal_strlit("text");
    reveal_strlit("thinking");
    reveal_strlit("tool_use");
    if n > 0 {
        lemma_all_tool_calls(blocks, n - 1);
        assert(blocks.take(n).drop_last() =~= blocks.take(n - 1));
        assert(blocks.take(n).last() == blocks[n - 1]);
        assert(text_of(member(blocks[n - 1], "type"@)) == Some("tool_use"@));
        assert("tool_use"@.len() != "text"@.len());
        assert("tool_use"@[1] != "thinking"@[1]);
        assert("tool_use"@ != "text"@);
        assert("tool_use"@ != "thinking"@);
        assert(block_part(true, blocks[n - 1]) == Some(None::<Seq<char>>));
        assert(parts_of(true, blocks.take(n)) =~= Seq::new(n as nat, |j: int| None::<Seq<char>>));
    } else {
        assert(blocks.take(0) =~= Seq::<Json>::empty());
        assert(parts_of(true, blocks.take(0)) =~= Seq::new(0, |j: int| None::<Seq<char>>));
    }
}

/// Among parts that are all tool calls, `i` calls come before position `i`.
proof fn lemma_count_all_calls(parts: Seq<Option<Seq<char>>>, i: int)
    requires
        0 <= i <= parts.len(),
        forall|j: int| 0 <= j < parts.len() ==> #[trigger] parts[j] is None,
    ensures
        tool_call_count(parts.take(i)) == i,
    decreases i,
{
    if i > 0 {
        lemma_count_all_calls(parts, i - 1);
        assert(parts.take(i).drop_last() =~= parts.take(i - 1));
        assert(parts.take(i).last() == parts[i - 1]);
    }
}

/// Each tool call of `blocks` leaves one placeholder among the parts.
pub proof fn lemma_tool_call_count(is_assistant: bool, blocks: Seq<Json>)
    ensures
        tool_call_count(parts_of(is_assistant, blocks)) == tool_blocks(is_assistant, blocks).len(),
    decreases blocks.len(),
{
    if blocks.len() > 0 {
        lemma_tool_call_count(is_assistant, blocks.drop_last());
        let prev = parts_of(is_assistant, blocks.drop_last());
        match block_part(is_assistant, blocks.last()) {
            Some(p) => {
                assert(prev.push(p).drop_last() =~= prev);
            },
            None => {},
        }
    }
}

/// The renderings that `entry_text` substitutes for tool calls line up
/// with the calls that `tool_calls` lists: one placeholder per listed call.
pub proof fn law_tool_calls_match_placeholders(entry: Json)
    ensures
        match entry_parts(entry) {
            Some(parts) => tool_call_count(parts) == entry_tool_blocks(entry).len(),
            None => entry_tool_blocks(entry).len() == 0,
        },
{
    match message_role(entry) {
        None => {},
        Some(is_assistant) => match member_of(member(entry, "message"@), "content"@) {
            Some(Json::Array(blocks)) => {
                lemma_tool_call_count(is_assistant, blocks@);
            },
            Some(Json::Str(s)) => {
                let parts = seq![Some(s@)];
                assert(parts.drop_last() =~= Seq::<Option<Seq<char>>>::empty());
                assert(tool_call_count(parts.drop_last()) == 0);
                assert(parts.last() is Some);
                assert(tool_call_count(parts) == 0);
            },
            _ => {},
        },
    }
}

/// The tool calls of an entry that need rendering, in order, with their
/// names and inputs.
pub fn tool_calls(entry: &Json) -> (r: Vec<ToolCall<'_>>)
    ensures
        r@.len() == entry_tool_blocks(*entry).len(),
        forall|i: int| 0 <= i < r@.len() ==> call_matches(#[trigger] r@[i], entry_tool_blocks(*entry)[i]),
{
    let mut calls: Vec<ToolCall<'_>> = Vec::new();
    let is_assistant = match opt_str(entry.get("type")) {
        Some(t) => if t.eq("user") {
            false
        } else if t.eq("assistant") {
            true
        } else {
            return calls;
        },
        None => {
            return calls;
        },
    };
    let content = match entry.get("message") {
        Some(m) => m.get("content"),
        None => None,
    };
    let blocks = match content {
        Some(Json::Array(blocks)) => blocks,
        _ => {
            return calls;
        },
    };
    let mut i: usize = 0;
    while i < blocks.len()
        invariant
            i <= blocks@.len(),
            entry_tool_blocks(*entry) == tool_blocks(is_assistant, blocks@),
            calls@.len() == tool_blocks(is_assistant, blocks@.take(i as int)).len(),
            forall|j: int|
                0 <= j < calls@.len() ==> call_matches(
                    #[trigger] calls@[j],
                    tool_blocks(is_assistant, blocks@.take(i as int))[j],
                ),
        decreases blocks.len() - i,
    {
        let ghost prev = tool_blocks(is_assistant, blocks@.take(i as int));
        assert(blocks@.take(i + 1).drop_last() =~= blocks@.take(i as int));
        assert(blocks@.take(i + 1).last() == blocks@[i as int]);
        let block = &blocks[i];
        let is_call = match opt_str(block.get("type")) {
            Some(t) => if t.eq("text") {
                false
            } else if is_assistant && t.eq("thinking") {
                false
            } else {
                is_assistant && t.eq("tool_use")
            },
            None => false,
        };
        if is_call {
            let name = match opt_str(block.get("name")) {
                Some(n) => n,
                None => char_slice("", 0, 0),
            };
            let input = match block.get("input") {
                Some(Json::Object(ms)) => Some(ms),
                _ => None,
            };
            assert(name@ =~= tool_name(*block));
            let call = ToolCall { name, input };
            assert(call_matches(call, *block));
            let ghost before = calls@;
            calls.push(call);
            assert(tool_blocks(is_assistant, blocks@.take(i + 1)) == prev.push(*block));
            assert forall|j: int| 0 <= j < calls@.len() implies call_matches(
                #[trigger] calls@[j],
                prev.push(*block)[j],
            ) by {
                if j < before.len() {
                    assert(calls@[j] == before[j]);
                    assert(prev.push(*block)[j] == prev[j]);
                } else {
                    assert(calls@[j] == call);
                }
            }
        } else {
            assert(tool_blocks(is_assistant, blocks@.take(i + 1)) == prev);
        }
        i = i + 1;
    }
    assert(blocks@.take(blocks@.len() as int) =~= blocks@);
    let ghost tb = entry_tool_blocks(*entry);
    assert(tool_blocks(is_assistant, blocks@.take(i as int)) == tb);
    assert forall|j: int| 0 <= j < calls@.len() implies call_matches(#[trigger] calls@[j], tb[j]) by {}
    calls
}

/// What a message row needs of an entry beyond its JSON: the subtype and
/// the attachment blocks (as a JSON array, each block with its
/// `[line, content index]` reference) that the entry classifier reports,
/// and the renderings of the entry's tool calls (see `entry_text`).
pub struct MessageFacts {
    pub subtype: Option<String>,
    pub attachments: Option<String>,
    pub rendered: Vec<String>,
}

/// The joined text of an entry (`entry_text`), empty when it has none.
pub open spec fn joined_text(v: Json, rendered: Seq<String>) -> Seq<char> {
    match entry_text_spec(v, rendered.map_values(|s: String| s@)) {
        Some(t) => t,
        None => Seq::empty(),
    }
}

/// One row of the message table.
pub struct MessageRow {
    pub session_id: String,
    pub line: i64,
    pub uuid: Option<String>,
    /// `user` or `assistant`.
    pub message_type: String,
    pub subtype: Option<String>,
    pub text: String,
    /// The entry's `timestamp`, in epoch milliseconds, when it parses as
    /// RFC 3339.
    pub timestamp_ms: Option<i64>,
    pub attachments: Option<String>,
    pub ide_tags: Option<String>,
    pub raw: String,
}

/// A user or assistant entry whose `message.content` is an array or a
/// string: the entries that become message rows.
pub open spec fn is_message_value(v: Json) -> bool {
    entry_parts(v) is Some
}

/// `row` is the message-table row of `record` in session `session_id`,
/// with `facts` reported for it: its text and IDE tags are what `split`
/// gives for the entry's joined text.
pub open spec fn is_message_row<F: Fn(&str) -> (String, Option<String>)>(
    row: MessageRow,
    session_id: Seq<char>,
    record: SessionRecord,
    facts: MessageFacts,
    split: F,
) -> bool {
    &&& row.session_id@ == session_id
    &&& row.line == record.line
    &&& opt_view(row.uuid) == text_of(member(record.value, "uuid"@))
    &&& text_of(member(record.value, "type"@)) == Some(row.message_type@)
    &&& opt_view(row.subtype) == opt_view(facts.subtype)
    &&& row.timestamp_ms == match text_of(member(record.value, "timestamp"@)) {
        Some(ts) => rfc3339_millis(ts),
        None => None,
    }
    &&& opt_view(row.attachments) == opt_view(facts.attachments)
    &&& exists|t: &str|
        t@ == joined_text(record.value, facts.rendered@) && #[trigger] split.ensures(
            (t,),
            (row.text, row.ide_tags),
        )
    &&& row.raw@ == record.raw@
}

/// A copy of an optional string.
fn copy_opt(s: &Option<String>) -> (r: Option<String>)
    ensures
        opt_view(r) == opt_view(*s),
{
    match s {
        Some(t) => Some(t.clone()),
        None => None,
    }
}

/// The message-table row of one parsed line; `None` for lines that are
/// not user or assistant messages with an array or string content. The
/// row's text and IDE tags come from `split` (which separates leading IDE
/// tags from a text) applied to the entry's joined text.
pub fn message_row<F: Fn(&str) -> (String, Option<String>)>(
    session_id: &str,
    record: &SessionRecord,
    facts: &MessageFacts,
    split: &F,
) -> (r: Option<MessageRow>)
    requires
        forall|t: &str| split.requires((t,)),
    ensures
        r is Some <==> is_message_value(record.value),
        r matches Some(row) ==> is_message_row(row, session_id@, *record, *facts, *split),
{
    let v = &record.value;
    let message_type = match opt_str(v.get("type")) {
        Some(t) => if t.eq("user") || t.eq("assistant") {
            t
        } else {
            return None;
        },
        None => {
            return None;
        },
    };
    let content = match v.get("message") {
        Some(m) => m.get("content"),
        None => None,
    };
    match content {
        Some(Json::Array(_)) => {},
        Some(Json::Str(_)) => {},
        _ => {
            return None;
        },
    }
    let timestamp_ms = match opt_str(v.get("timestamp")) {
        Some(s) => parse_rfc3339_millis(s),
        None => None,
    };
    let joined = match entry_text(v, &facts.rendered) {
        Some(t) => t,
        None => String::new(),
    };
    let js = joined.as_str();
    let parts = split(js);
    proof {
        assert(js@ == joined_text(*v, facts.rendered@));
        assert(split.ensures((js,), parts));
    }
    let (text, ide_tags) = parts;
    Some(
        MessageRow {
            session_id: session_id.to_owned(),
            line: record.line as i64,
            uuid: owned(opt_str(v.get("uuid"))),
            message_type: message_type.to_owned(),
            subtype: copy_opt(&facts.subtype),
            text,
            timestamp_ms,
            attachments: copy_opt(&facts.attachments),
            ide_tags,
            raw: record.raw.clone(),
        },
    )
}

/// The positions, in order, of the message lines among the first `n`
/// records.
pub open spec fn message_positions(records: Seq<SessionRecord>, n: int) -> Seq<int>
    decreases n,
{
    if n <= 0 {
        Seq::empty()
    } else {
        let prev = message_positions(records, n - 1);
        if is_message_value(records[n - 1].value) {
            prev.push(n - 1)
        } else {
            prev
        }
    }
}

/// Every message position among the first `n` records lies below `n`.
pub proof fn lemma_message_positions_bounded(records: Seq<SessionRecord>, n: int)
    ensures
        forall|k: int|
            0 <= k < message_positions(records, n).len() ==> 0 <= #[trigger] message_positions(
                records,
                n,
            )[k] < n,
    decreases n,
{
    if n > 0 {
        lemma_message_positions_bounded(records, n - 1);
        let prev = message_positions(records, n - 1);
        assert forall|k: int| 0 <= k < message_positions(records, n).len() implies 0
            <= #[trigger] message_positions(records, n)[k] < n by {
            if k < prev.len() {
                assert(message_positions(records, n)[k] == prev[k]);
            }
        }
    }
}

/// The message positions among fewer records are a prefix of those among
/// more.
pub proof fn lemma_message_positions_prefix(records: Seq<SessionRecord>, m: int, n: int)
    requires
        0 <= m <= n,
    ensures
        message_positions(records, m).len() <= message_positions(records, n).len(),
        forall|k: int|
            0 <= k < message_positions(records, m).len() ==> #[trigger] message_positions(
                records,
                m,
            )[k] == message_positions(records, n)[k],
    decreases n,
{
    if m < n {
        lemma_message_positions_prefix(records, m, n - 1);
        let prev = message_positions(records, n - 1);
        assert forall|k: int| 0 <= k < prev.len() implies #[trigger] message_positions(
            records,
            n,
        )[k] == prev[k] by {}
    }
}

/// Message positions come in increasing order.
pub proof fn lemma_message_positions_increasing(records: Seq<SessionRecord>, n: int)
    ensures
        forall|j: int, k: int|
            0 <= j < k < message_positions(records, n).len() ==> #[trigger] message_positions(
                records,
                n,
            )[j] < #[trigger] message_positions(records, n)[k],
    decreases n,
{
    if n > 0 {
        lemma_message_positions_increasing(records, n - 1);
        lemma_message_positions_bounded(records, n - 1);
        let prev = message_positions(records, n - 1);
        let cur = message_positions(records, n);
        assert forall|j: int, k: int| 0 <= j < k < cur.len() implies #[trigger] cur[j]
            < #[trigger] cur[k] by {
            assert(cur[j] == prev[j]);
            if k < prev.len() {
                assert(cur[k] == prev[k]);
            } else {
                assert(cur[k] == n - 1);
            }
        }
    }
}

/// The message-table rows of a session's parsed lines, in line order,
/// stopping once `limit` rows are produced; `facts[i]` is what the entry
/// classifier reports for `records[i]`.
pub fn message_rows<F: Fn(&str) -> (String, Option<String>)>(
    session_id: &str,
    records: &Vec<SessionRecord>,
    facts: &Vec<MessageFacts>,
    limit: Option<usize>,
    split: &F,
) -> (rows: Vec<MessageRow>)
    requires
        facts@.len() == records@.len(),
        forall|t: &str| split.requires((t,)),
    ensures
        rows@.len() == rows_taken(message_positions(records@, records@.len() as int).len(), limit),
        forall|k: int|
            0 <= k < message_positions(records@, records@.len() as int).len() ==> 0
                <= #[trigger] message_positions(records@, records@.len() as int)[k]
                < records@.len(),
        forall|j: int, k: int|
            0 <= j < k < message_positions(records@, records@.len() as int).len()
                ==> #[trigger] message_positions(records@, records@.len() as int)[j]
                < #[trigger] message_positions(records@, records@.len() as int)[k],
        forall|k: int|
            0 <= k < rows@.len() ==> {
                let p = #[trigger] message_positions(records@, records@.len() as int)[k];
                is_message_row(rows@[k], session_id@, records@[p], facts@[p], *split)
            },
{
    let ghost all = message_positions(records@, records@.len() as int);
    let mut rows: Vec<MessageRow> = Vec::new();
    let mut i: usize = 0;
    while i < records.len()
        invariant
            i <= records@.len(),
            facts@.len() == records@.len(),
            forall|t: &str| split.requires((t,)),
            all == message_positions(records@, records@.len() as int),
            rows@.len() == message_positions(records@, i as int).len(),
            limit matches Some(l) ==> rows@.len() <= l,
            forall|k: int|
                0 <= k < rows@.len() ==> {
                    let p = #[trigger] message_positions(records@, i as int)[k];
                    is_message_row(rows@[k], session_id@, records@[p], facts@[p], *split)
                },
        ensures
            rows@.len() == rows_taken(all.len(), limit),
            forall|k: int|
                0 <= k < rows@.len() ==> {
                    let p = #[trigger] all[k];
                    is_message_row(rows@[k], session_id@, records@[p], facts@[p], *split)
                },
        decreases records.len() - i,
    {
        proof {
            lemma_message_positions_prefix(records@, i as int, records@.len() as int);
        }
        match limit {
            Some(l) => if rows.len() >= l {
                assert forall|k: int| 0 <= k < rows@.len() implies {
                    let p = #[trigger] all[k];
                    is_message_row(rows@[k], session_id@, records@[p], facts@[p], *split)
                } by {
                    assert(message_positions(records@, i as int)[k] == all[k]);
                }
                break;
            },
            None => {},
        }
        let ghost before = rows@;
        let ghost prev = message_positions(records@, i as int);
        match message_row(session_id, &records[i], &facts[i], split) {
            Some(row) => {
                rows.push(row);
                assert(message_positions(records@, i + 1) == prev.push(i as int));
                assert forall|k: int| 0 <= k < rows@.len() implies {
                    let p = #[trigger] message_positions(records@, i + 1)[k];
                    is_message_row(rows@[k], session_id@, records@[p], facts@[p], *split)
                } by {
                    if k < before.len() {
                        assert(rows@[k] == before[k]);
                        assert(message_positions(records@, i + 1)[k] == prev[k]);
                    }
                }
            },
            None => {
                assert(message_positions(records@, i + 1) == prev);
            },
        }
        i = i + 1;
    }
    proof {
        lemma_message_positions_bounded(records@, records@.len() as int);
        lemma_message_positions_increasing(records@, records@.len() as int);
    }
    rows
}

/// One session's parsed lines under its id, with what the entry classifier
/// reports for each line (`facts[i]` describes `records[i]`).
pub struct SessionMessages {
    pub session_id: String,
    pub records: Vec<SessionRecord>,
    pub facts: Vec<MessageFacts>,
}

/// The message lines of one session, in line order, each with the
/// session's id and its facts.
pub open spec fn session_message_sources(s: SessionMessages) -> Seq<
    (Seq<char>, SessionRecord, MessageFacts),
> {
    let ps = message_positions(s.records@, s.records@.len() as int);
    Seq::new(ps.len(), |k: int| (s.session_id@, s.records@[ps[k]], s.facts@[ps[k]]))
}

/// The message lines of all sessions, in session order and then line
/// order.
pub open spec fn message_sources(sessions: Seq<SessionMessages>) -> Seq<
    (Seq<char>, SessionRecord, MessageFacts),
>
    decreases sessions.len(),
{
    if sessions.len() == 0 {
        Seq::empty()
    } else {
        message_sources(sessions.drop_last()) + session_message_sources(sessions.last())
    }
}

/// The message lines of fewer sessions come first among those of more.
pub proof fn lemma_message_sources_prefix(sessions: Seq<SessionMessages>, m: int)
    requires
        0 <= m <= sessions.len(),
    ensures
        message_sources(sessions.take(m)).len() <= message_sources(sessions).len(),
        forall|k: int|
            0 <= k < message_sources(sessions.take(m)).len() ==> #[trigger] message_sources(
                sessions.take(m),
            )[k] == message_sources(sessions)[k],
    decreases sessions.len() - m,
{
    if m < sessions.len() {
        lemma_message_sources_prefix(sessions, m + 1);
        assert(sessions.take(m + 1).drop_last() =~= sessions.take(m));
        let shorter = message_sources(sessions.take(m));
        let longer = message_sources(sessions.take(m + 1));
        assert forall|k: int| 0 <= k < shorter.len() implies #[trigger] shorter[k] == longer[k] by {}
    } else {
        assert(sessions.take(m) =~= sessions);
    }
}

/// `rows` are the message-table rows of `sessions` under `limit`: one per
/// message line, in order, up to the limit.
pub open spec fn message_rows_of<F: Fn(&str) -> (String, Option<String>)>(
    rows: Seq<MessageRow>,
    sessions: Seq<SessionMessages>,
    limit: Option<usize>,
    split: F,
) -> bool {
    &&& rows.len() == rows_taken(message_sources(sessions).len(), limit)
    &&& forall|k: int|
        0 <= k < rows.len() ==> {
            let src = #[trigger] message_sources(sessions)[k];
            is_message_row(rows[k], src.0, src.1, src.2, split)
        }
}

/// A row limit takes a prefix: with limit `l` the rows are the first
/// `min(l, n)` of the `n` rows produced without a limit, each row standing
/// for the same message line as the unlimited row at its position.
pub proof fn law_limit_takes_a_prefix<F: Fn(&str) -> (String, Option<String>)>(
    sessions: Seq<SessionMessages>,
    l: usize,
    limited: Seq<MessageRow>,
    full: Seq<MessageRow>,
    split: F,
)
    requires
        message_rows_of(limited, sessions, Some(l), split),
        message_rows_of(full, sessions, None, split),
    ensures
        limited.len() == if full.len() <= l {
            full.len() as int
        } else {
            l as int
        },
        forall|k: int|
            0 <= k < limited.len() ==> k < full.len() && {
                let src = #[trigger] message_sources(sessions)[k];
                is_message_row(limited[k], src.0, src.1, src.2, split) && is_message_row(
                    full[k],
                    src.0,
                    src.1,
                    src.2,
                    split,
                )
            },
{
}

/// The message-table rows of several sessions, in order, stopping once
/// `limit` rows are produced: exactly the first `limit` (or all) of their
/// message lines' rows. Each session gets the budget the earlier ones left.
pub fn message_rows_of_sessions<F: Fn(&str) -> (String, Option<String>)>(
    sessions: &Vec<SessionMessages>,
    limit: Option<usize>,
    split: &F,
) -> (rows: Vec<MessageRow>)
    requires
        forall|t: &str| split.requires((t,)),
        forall|i: int|
            0 <= i < sessions@.len() ==> (#[trigger] sessions@[i]).facts@.len()
                == sessions@[i].records@.len(),
    ensures
        message_rows_of(rows@, sessions@, limit, *split),
{
    let mut rows: Vec<MessageRow> = Vec::new();
    let mut remaining = limit;
    let mut exhausted = limit == Some(0usize);
    let mut si: usize = 0;
    assert(sessions@.take(0) =~= Seq::<SessionMessages>::empty());
    while si < sessions.len() && !exhausted
        invariant
            si <= sessions@.len(),
            forall|i: int|
                0 <= i < sessions@.len() ==> (#[trigger] sessions@[i]).facts@.len()
                    == sessions@[i].records@.len(),
            forall|t: &str| split.requires((t,)),
            rows@.len() == rows_taken(message_sources(sessions@.take(si as int)).len(), limit),
            remaining == match limit {
                Some(l) => Some((l - rows@.len()) as usize),
                None => None::<usize>,
            },
            exhausted == (remaining == Some(0usize)),
            forall|k: int|
                0 <= k < rows@.len() ==> {
                    let src = #[trigger] message_sources(sessions@.take(si as int))[k];
                    is_message_row(rows@[k], src.0, src.1, src.2, *split)
                },
        decreases sessions.len() - si,
    {
        let ghost src = message_sources(sessions@.take(si as int));
        let session = &sessions[si];
        assert(session.facts@.len() == session.records@.len());
        let mut part = message_rows(
            session.session_id.as_str(),
            &session.records,
            &session.facts,
            remaining,
            split,
        );
        let ghost before = rows@;
        let ghost added = part@;
        let ghost mine = session_message_sources(*session);
        proof {
            assert(sessions@.take(si + 1).drop_last() =~= sessions@.take(si as int));
            assert(sessions@.take(si + 1).last() == *session);
            assert(message_sources(sessions@.take(si + 1)) == src + mine);
        }
        let n = part.len();
        rows.append(&mut part);
        remaining = remaining_after(remaining, n);
        exhausted = match remaining {
            Some(r) => r == 0,
            None => false,
        };
        proof {
            let next = src + mine;
            assert forall|k: int| 0 <= k < rows@.len() implies {
                let x = #[trigger] message_sources(sessions@.take(si + 1))[k];
                is_message_row(rows@[k], x.0, x.1, x.2, *split)
            } by {
                if k < before.len() {
                    assert(rows@[k] == before[k]);
                    assert(next[k] == src[k]);
                } else {
                    let j = k - before.len();
                    assert(rows@[k] == added[j]);
                    assert(next[k] == mine[j]);
                }
            }
        }
        si = si + 1;
    }
    proof {
        lemma_message_sources_prefix(sessions@, si as int);
        let src = message_sources(sessions@.take(si as int));
        assert forall|k: int| 0 <= k < rows@.len() implies {
            let x = #[trigger] message_sources(sessions@)[k];
            is_message_row(rows@[k], x.0, x.1, x.2, *split)
        } by {
            assert(src[k] == message_sources(sessions@)[k]);
        }
        if si == sessions@.len() {
            assert(sessions@.take(si as int) =~= sessions@);
        }
    }
    rows
}

} // verus!
