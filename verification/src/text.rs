//! Small text-building helpers shared by the formatting functions:
//! decimal rendering with zero padding, and character-level access to
//! string slices.
use vstd::prelude::*;
use vstd::string::StrSliceExecFns;
use vstd::string::StringExecFns;

verus! {

/// The text of each string, in order.
pub open spec fn string_views(v: Seq<String>) -> Seq<Seq<char>> {
    v.map_values(|s: String| s@)
}

/// The ASCII digit for `d` (expected in `0..=9`).
pub open spec fn digit_char(d: int) -> char {
    (d + 48) as char
}

/// Decimal digits of `n`, most significant first, without leading zeros
/// (`0` is written as a single `'0'`).
pub open spec fn decimal(n: nat) -> Seq<char>
    decreases n,
{
    if n < 10 {
        seq![digit_char(n as int)]
    } else {
        decimal(n / 10).push(digit_char((n % 10) as int))
    }
}

/// `n` in decimal, left-padded with `'0'` to at least `width` characters
/// (what `format!("{n:0width$}")` prints for an unsigned integer).
pub open spec fn zero_padded(n: nat, width: nat) -> Seq<char> {
    let digits = decimal(n);
    if digits.len() >= width {
        digits
    } else {
        Seq::new((width - digits.len()) as nat, |_i: int| '0') + digits
    }
}

/// Every decimal rendering has at least one digit.
pub proof fn lemma_decimal_nonempty(n: nat)
    ensures
        decimal(n).len() >= 1,
    decreases n,
{
    if n >= 10 {
        lemma_decimal_nonempty(n / 10);
    }
}

/// Appends `c` to `s`.
///
/// Trusted: calls `String::push`, which (per its documentation) appends the
/// given char to the end of the string.
#[verifier::external_body]
pub fn push_char(s: &mut String, c: char)
    ensures
        final(s)@ == old(s)@.push(c),
{
    s.push(c);
}

/// Appends `t` to `s`.
pub fn push_str(s: &mut String, t: &str)
    ensures
        final(s)@ == old(s)@ + t@,
{
    s.append(t);
}

/// The ASCII digit character for a value below ten.
pub fn digit(k: u64) -> (c: char)
    requires
        k < 10,
    ensures
        c == digit_char(k as int),
{
    ((k as u8) + 48u8) as char
}

/// The decimal digits of `n`, most significant first.
pub fn decimal_digits(n: u64) -> (v: Vec<char>)
    ensures
        v@ == decimal(n as nat),
{
    // Collect digits least significant first, then reverse.
    let mut rev: Vec<char> = Vec::new();
    let mut k: u64 = n;
    let ghost mut acc: Seq<char> = Seq::empty();
    loop
        invariant_except_break
            decimal(n as nat) == decimal(k as nat) + acc,
        invariant
            rev@.len() == acc.len(),
            forall|i: int| 0 <= i < acc.len() ==> #[trigger] rev@[i] == acc[acc.len() - 1 - i],
        ensures
            decimal(n as nat) == acc,
            rev@.len() == acc.len(),
            forall|i: int| 0 <= i < acc.len() ==> #[trigger] rev@[i] == acc[acc.len() - 1 - i],
        decreases k,
    {
        if k < 10 {
            let c = digit(k);
            let ghost old_rev = rev@;
            proof {
                assert(decimal(k as nat) == seq![c]);
                acc = seq![c] + acc;
                assert(decimal(n as nat) == acc);
            }
            rev.push(c);
            assert forall|i: int| 0 <= i < acc.len() implies #[trigger] rev@[i] == acc[acc.len() - 1
                - i] by {
                if i < acc.len() - 1 {
                    assert(rev@[i] == old_rev[i]);
                }
            }
            break ;
        }
        let c = digit(k % 10);
        proof {
            assert(decimal(k as nat) == decimal((k / 10) as nat).push(c));
            assert(decimal((k / 10) as nat) + seq![c] + acc =~= decimal((k / 10) as nat) + (seq![c]
                + acc));
            acc = seq![c] + acc;
        }
        let ghost old_rev = rev@;
        rev.push(c);
        assert forall|i: int| 0 <= i < acc.len() implies #[trigger] rev@[i] == acc[acc.len() - 1
            - i] by {
            if i < acc.len() - 1 {
                assert(rev@[i] == old_rev[i]);
            }
        }
        k = k / 10;
    }
    let mut out: Vec<char> = Vec::new();
    let len = rev.len();
    let mut j: usize = len;
    while j > 0
        invariant
            j <= len,
            len == rev@.len(),
            len == acc.len(),
            out@.len() == len - j,
            forall|i: int| 0 <= i < acc.len() ==> #[trigger] rev@[i] == acc[acc.len() - 1 - i],
            forall|i: int| 0 <= i < out@.len() ==> #[trigger] out@[i] == acc[i],
        decreases j,
    {
        j = j - 1;
        out.push(rev[j]);
    }
    assert(out@ =~= acc);
    out
}

/// Appends `n` in decimal, zero-padded to at least `width` digits.
pub fn push_zero_padded(s: &mut String, n: u64, width: usize)
    ensures
        final(s)@ == old(s)@ + zero_padded(n as nat, width as nat),
{
    let digits = decimal_digits(n);
    let ghost start = s@;
    if digits.len() < width {
        let pad = width - digits.len();
        let mut i: usize = 0;
        while i < pad
            invariant
                i <= pad,
                s@ == start + Seq::new(i as nat, |_i: int| '0'),
            decreases pad - i,
        {
            push_char(s, '0');
            i = i + 1;
            assert(s@ =~= start + Seq::new(i as nat, |_i: int| '0'));
        }
    }
    let ghost mid = s@;
    let mut i: usize = 0;
    while i < digits.len()
        invariant
            i <= digits@.len(),
            s@ == mid + digits@.take(i as int),
        decreases digits.len() - i,
    {
        push_char(s, digits[i]);
        i = i + 1;
        assert(s@ =~= mid + digits@.take(i as int));
    }
    assert(digits@.take(digits@.len() as int) =~= digits@);
    assert(s@ =~= old(s)@ + zero_padded(n as nat, width as nat));
}

/// The characters of `s`, in order.
pub fn chars_of(s: &str) -> (v: Vec<char>)
    ensures
        v@ == s@,
{
    let mut v: Vec<char> = Vec::new();
    for c in it: s.chars()
        invariant
            v@ == it.seq().take(it.index() as int),
    {
        v.push(c);
    }
    v
}

/// Whether `c` has the Unicode `White_Space` property.
pub open spec fn is_unicode_whitespace(c: char) -> bool {
    let u = c as u32;
    ||| 0x09 <= u <= 0x0D
    ||| u == 0x20
    ||| u == 0x85
    ||| u == 0xA0
    ||| u == 0x1680
    ||| 0x2000 <= u <= 0x200A
    ||| u == 0x2028
    ||| u == 0x2029
    ||| u == 0x202F
    ||| u == 0x205F
    ||| u == 0x3000
}

/// `char::is_whitespace`: true exactly for the characters with the Unicode
/// `White_Space` property, as its documentation states.
pub assume_specification[ char::is_whitespace ](c: char) -> (r: bool)
    ensures
        r == is_unicode_whitespace(c),
;

/// `str` equality compares the two strings character by character.
pub assume_specification[ <str as PartialEq>::eq ](a: &str, b: &str) -> (r: bool)
    ensures
        r == (a@ == b@),
;

/// The substring of `s` between character positions `from` and `to`.
pub fn char_slice<'a>(s: &'a str, from: usize, to: usize) -> (r: &'a str)
    requires
        from <= to <= s@.len(),
    ensures
        r@ == s@.subrange(from as int, to as int),
{
    s.substring_char(from, to)
}

} // verus!
