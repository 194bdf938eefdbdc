//! The content cell of a note target, for showing a note with its target:
//! the target's locator, a blank line, then what the target refers to,
//! wrapped to a width.
use vstd::prelude::*;

use crate::text::push_str;

verus! {

/// What `textwrap::fill` makes of `text` at `width` columns with its
/// default options.
pub uninterp spec fn filled(text: Seq<char>, width: usize) -> Seq<char>;

/// Wraps text to a width.
///
/// Trusted: calls `textwrap::fill(text, width)`. Its result depends on the
/// text and the width alone (default options, no terminal query); the
/// line-breaking algorithm itself is named by `filled`, not stated.
#[verifier::external_body]
fn fill(text: &str, width: usize) -> (r: String)
    ensures
        r@ == filled(text@, width),
{
    textwrap::fill(text, width)
}

/// `s` in dim italics on a terminal.
pub open spec fn dim_italic(s: Seq<char>) -> Seq<char> {
    "\x1b[2;3m"@ + s + "\x1b[22;23m"@
}

/// `s` in dim italics on a terminal.
pub fn dim_italic_text(s: &str) -> (r: String)
    ensures
        r@ == dim_italic(s@),
{
    let mut out = String::new();
    push_str(&mut out, "\x1b[2;3m");
    push_str(&mut out, s);
    push_str(&mut out, "\x1b[22;23m");
    out
}

/// The content of a target that is not a session (a scan or a project):
/// its locator, dimmed, as a placeholder.
pub fn render_placeholder(uri: &str) -> (r: String)
    ensures
        r@ == dim_italic(uri@),
{
    dim_italic_text(uri)
}

/// The content of a session target. A target without a line stands for
/// the whole session; one with a line shows that entry's text without its
/// IDE tags (`entry_text`, `None` when the entry has no text), wrapped.
pub fn render_session_content(line: Option<u32>, entry_text: Option<&str>, width: usize) -> (r:
    String)
    ensures
        r@ == match line {
            None => dim_italic("Whole session"@),
            Some(_) => filled(
                match entry_text {
                    Some(t) => t@,
                    None => Seq::empty(),
                },
                width,
            ),
        },
{
    match line {
        None => dim_italic_text("Whole session"),
        Some(_) => match entry_text {
            Some(t) => fill(t, width),
            None => {
                proof {
                    reveal_strlit("");
                }
                assert(""@ =~= Seq::<char>::empty());
                fill("", width)
            },
        },
    }
}

/// The full target cell: the locator wrapped to `width`, a blank line,
/// then the content.
pub fn render_target_cell(uri: &str, content: &str, width: usize) -> (r: String)
    ensures
        r@ == filled(uri@, width) + "\n\n"@ + content@,
{
    let mut out = fill(uri, width);
    push_str(&mut out, "\n\n");
    push_str(&mut out, content);
    out
}

} // verus!
