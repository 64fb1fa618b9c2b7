//! Bytes as base64 text.

use vstd::prelude::*;

verus! {

/// The base64 text of `b`, padded, in the standard alphabet.
pub uninterp spec fn base64_encoded(b: Seq<u8>) -> Seq<char>;

/// The bytes that the base64 text `t` stands for, if it is one.
pub uninterp spec fn base64_bytes(t: Seq<u8>) -> Option<Seq<u8>>;

/// Whether `c` occurs in base64 text: a letter, a digit, `+`, `/` or `=`.
pub open spec fn is_base64(c: char) -> bool {
    'A' <= c <= 'Z' || 'a' <= c <= 'z' || '0' <= c <= '9' || c == '+' || c == '/' || c == '='
}

/// How many characters base64 takes for `n` bytes: four for every three bytes
/// begun.
pub open spec fn base64_len(n: int) -> int {
    (n + 2) / 3 * 4
}

/// `base64::engine::general_purpose::STANDARD.encode`: the text depends on the
/// bytes alone, is padded to the length above, has only characters of the
/// alphabet and `=`, and decodes to the bytes again.
#[verifier::external_body]
pub(crate) fn encode(b: &[u8]) -> (r: String)
    requires
        b@.len() <= usize::MAX / 4,
    ensures
        r@ == base64_encoded(b@),
        r@.len() == base64_len(b@.len() as int),
        forall|i: int| 0 <= i < r@.len() ==> is_base64(#[trigger] r@[i]),
        base64_bytes(Seq::new(r@.len(), |i: int| r@[i] as u8)) == Some(b@),
{
    base64::Engine::encode(&base64::engine::general_purpose::STANDARD, b)
}

/// `base64::engine::general_purpose::STANDARD.decode`: whether it succeeds, and
/// with what, depends on the text alone.
#[verifier::external_body]
pub(crate) fn decode(t: &[u8]) -> (r: Option<Vec<u8>>)
    ensures
        match r {
            Some(b) => base64_bytes(t@) == Some(b@),
            None => base64_bytes(t@) is None,
        },
{
    base64::Engine::decode(&base64::engine::general_purpose::STANDARD, t).ok()
}

} // verus!
