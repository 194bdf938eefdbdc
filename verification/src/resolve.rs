//! Summaries of scanner descriptions.
use vstd::prelude::*;

use crate::text::{chars_of, char_slice, is_unicode_whitespace};

verus! {

/// Position of the first `'\n'` at or after `i`, or `t.len()` if none.
pub open spec fn next_newline(t: Seq<char>, i: int) -> int
    decreases t.len() - i,
{
    if i >= t.len() || i < 0 {
        t.len() as int
    } else if t[i] == '\n' {
        i
    } else {
        next_newline(t, i + 1)
    }
}

/// End of the line that starts at `i`, as `str::lines` yields it: before
/// the terminating `'\n'`, and before a `'\r'` that directly precedes that
/// `'\n'`.
pub open spec fn line_end(t: Seq<char>, i: int) -> int {
    let j = next_newline(t, i);
    if j < t.len() && j > i && t[j - 1] == '\r' {
        j - 1
    } else {
        j
    }
}

/// Every character in `t[a..b]` is whitespace.
pub open spec fn all_whitespace(t: Seq<char>, a: int, b: int) -> bool {
    forall|k: int| a <= k < b ==> is_unicode_whitespace(#[trigger] t[k])
}

/// The first line at or after line start `i` that is not all whitespace,
/// as the range `(start, end)` of its characters.
pub open spec fn first_content_line(t: Seq<char>, i: int) -> Option<(int, int)>
    decreases t.len() - i,
{
    if i >= t.len() || i < 0 {
        None
    } else {
        let j = next_newline(t, i);
        let e = line_end(t, i);
        if !all_whitespace(t, i, e) {
            Some((i, e))
        } else if j < t.len() {
            proof {
                lemma_next_newline_bounds(t, i);
            }
            first_content_line(t, j + 1)
        } else {
            None
        }
    }
}

/// First position in `a..b` that is not whitespace (`b` if none).
pub open spec fn skip_whitespace(t: Seq<char>, a: int, b: int) -> int
    decreases b - a,
{
    if a >= b {
        b
    } else if is_unicode_whitespace(t[a]) {
        skip_whitespace(t, a + 1, b)
    } else {
        a
    }
}

/// First position in `a..b` that is not `'#'` (`b` if none).
pub open spec fn skip_hashes(t: Seq<char>, a: int, b: int) -> int
    decreases b - a,
{
    if a >= b {
        b
    } else if t[a] == '#' {
        skip_hashes(t, a + 1, b)
    } else {
        a
    }
}

/// The character range of `first_line(t)`: the first non-blank line with
/// leading whitespace removed and, when the line then starts with a
/// markdown heading marker (one or more `#` followed by whitespace), the
/// marker and the whitespace after it removed too. Empty when there is no
/// non-blank line.
pub open spec fn first_line_span(t: Seq<char>) -> (int, int) {
    match first_content_line(t, 0) {
        None => (0, 0),
        Some((a, e)) => {
            let s = skip_whitespace(t, a, e);
            let h = skip_hashes(t, s, e);
            if h > s && h < e && is_unicode_whitespace(t[h]) {
                (skip_whitespace(t, h, e), e)
            } else {
                (s, e)
            }
        },
    }
}

proof fn lemma_skip_whitespace_bounds(t: Seq<char>, a: int, b: int)
    requires
        a <= b,
    ensures
        a <= skip_whitespace(t, a, b) <= b,
    decreases b - a,
{
    if a < b && is_unicode_whitespace(t[a]) {
        lemma_skip_whitespace_bounds(t, a + 1, b);
    }
}

proof fn lemma_skip_hashes_bounds(t: Seq<char>, a: int, b: int)
    requires
        a <= b,
    ensures
        a <= skip_hashes(t, a, b) <= b,
    decreases b - a,
{
    if a < b && t[a] == '#' {
        lemma_skip_hashes_bounds(t, a + 1, b);
    }
}

pub proof fn lemma_next_newline_bounds(t: Seq<char>, i: int)
    requires
        0 <= i <= t.len(),
    ensures
        i <= next_newline(t, i) <= t.len(),
        next_newline(t, i) < t.len() ==> t[next_newline(t, i)] == '\n',
    decreases t.len() - i,
{
    if i < t.len() && t[i] != '\n' {
        lemma_next_newline_bounds(t, i + 1);
    }
}

/// Position of the first character in `cs[a..b]` that is not whitespace.
fn skip_ws_exec(cs: &Vec<char>, a: usize, b: usize) -> (k: usize)
    requires
        a <= b <= cs@.len(),
    ensures
        k == skip_whitespace(cs@, a as int, b as int),
{
    let mut k = a;
    while k < b && cs[k].is_whitespace()
        invariant
            a <= k <= b,
            b <= cs@.len(),
            skip_whitespace(cs@, a as int, b as int) == skip_whitespace(cs@, k as int, b as int),
        decreases b - k,
    {
        k = k + 1;
    }
    k
}

/// First non-empty line of `text`, with leading whitespace and any
/// markdown-heading marker (`#+\s+`) stripped. Empty string if `text` has
/// no non-empty lines.
pub fn first_line(text: &str) -> (r: &str)
    ensures
        r@ == text@.subrange(first_line_span(text@).0, first_line_span(text@).1),
{
    let cs = chars_of(text);
    let n = cs.len();
    let mut i: usize = 0;
    while i < n
        invariant
            i <= n,
            n == cs@.len(),
            cs@ == text@,
            first_content_line(cs@, 0) == first_content_line(cs@, i as int),
        decreases n - i,
    {
        // Find the end of the line starting at `i`.
        let mut j = i;
        while j < n && cs[j] != '\n'
            invariant
                i <= j <= n,
                n == cs@.len(),
                next_newline(cs@, i as int) == next_newline(cs@, j as int),
            decreases n - j,
        {
            j = j + 1;
        }
        let e = if j < n && j > i && cs[j - 1] == '\r' {
            j - 1
        } else {
            j
        };
        assert(e == line_end(cs@, i as int));
        // Is the line blank?
        let mut k = i;
        while k < e && cs[k].is_whitespace()
            invariant
                i <= k <= e,
                e <= n,
                n == cs@.len(),
                all_whitespace(cs@, i as int, k as int),
            decreases e - k,
        {
            k = k + 1;
        }
        if k < e {
            assert(!all_whitespace(cs@, i as int, e as int));
            assert(first_content_line(cs@, i as int) == Some((i as int, e as int)));
            let s = skip_ws_exec(&cs, i, e);
            proof {
                lemma_skip_whitespace_bounds(cs@, i as int, e as int);
            }
            let mut h = s;
            while h < e && cs[h] == '#'
                invariant
                    s <= h <= e,
                    e <= n,
                    n == cs@.len(),
                    skip_hashes(cs@, s as int, e as int) == skip_hashes(cs@, h as int, e as int),
                decreases e - h,
            {
                h = h + 1;
            }
            if h > s && h < e && cs[h].is_whitespace() {
                let start = skip_ws_exec(&cs, h, e);
                proof {
                    lemma_skip_whitespace_bounds(cs@, h as int, e as int);
                }
                return char_slice(text, start, e);
            } else {
                return char_slice(text, s, e);
            }
        }
        assert(all_whitespace(cs@, i as int, e as int));
        proof {
            lemma_next_newline_bounds(cs@, i as int);
        }
        if j >= n {
            assert(first_content_line(cs@, i as int) is None);
            return char_slice(text, 0, 0);
        }
        i = j + 1;
    }
    assert(first_content_line(cs@, i as int) is None);
    char_slice(text, 0, 0)
}

} // verus!
