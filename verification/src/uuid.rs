//! Random identifiers and their short display form.
use vstd::prelude::*;
use vstd::string::StringSliceAdditionalSpecFns;
use vstd::utf8::is_char_boundary;

verus! {

/// A lowercase hexadecimal digit.
pub open spec fn is_lower_hex(c: char) -> bool {
    ('0' <= c <= '9') || ('a' <= c <= 'f')
}

/// Text of a random (version 4, RFC 4122 variant) UUID in hyphenated
/// lowercase form: `xxxxxxxx-xxxx-4xxx-yxxx-xxxxxxxxxxxx`, where each `x` is
/// a lowercase hex digit and `y` is one of `8`, `9`, `a`, `b`.
pub open spec fn is_v4_uuid_text(s: Seq<char>) -> bool {
    &&& s.len() == 36
    &&& forall|i: int|
        0 <= i < 36 ==> (if i == 8 || i == 13 || i == 18 || i == 23 {
            #[trigger] s[i] == '-'
        } else {
            is_lower_hex(s[i])
        })
    &&& s[14] == '4'
    &&& (s[19] == '8' || s[19] == '9' || s[19] == 'a' || s[19] == 'b')
}

/// A fresh random UUID as text.
///
/// Trusted: calls `uuid::Uuid::new_v4` and renders it with `to_string`. In
/// uuid 1.x, `new_v4` takes 128 random bits and forces the version nibble
/// to 4 and the variant bits to `10`; `Display` writes the hyphenated
/// lowercase form. The random bits themselves are not stated.
#[verifier::external_body]
fn random_uuid_text() -> (s: String)
    ensures
        is_v4_uuid_text(s@),
{
    uuid::Uuid::new_v4().to_string()
}

/// A new random (version 4) UUID in hyphenated lowercase form.
pub fn new_uuid() -> (s: String)
    ensures
        is_v4_uuid_text(s@),
{
    random_uuid_text()
}

/// The first eight bytes of `id` when byte 8 is a character boundary of
/// `id` (so `id` has at least eight bytes); otherwise (shorter text, or a
/// multi-byte character across byte 8) all of `id`.
pub open spec fn short_id_bytes(id: &str) -> Seq<u8> {
    if is_char_boundary(id.spec_bytes(), 8) {
        id.spec_bytes().subrange(0, 8)
    } else {
        id.spec_bytes()
    }
}

/// The short form of an identifier: its first eight bytes, as
/// `id.get(..8).unwrap_or(id)` gives them.
pub fn short_uuid(id: &str) -> (r: &str)
    ensures
        r.spec_bytes() == short_id_bytes(id),
{
    if id.is_char_boundary(8) {
        let (head, _) = id.split_at(8);
        head
    } else {
        id
    }
}

} // verus!
