//! Lossy text decoding of raw session output.
//!
//! A chunk read from a pseudo-terminal is arbitrary bytes; the reader
//! loop turns it into text, repairing invalid sequences instead of
//! failing. The decoding itself is done by the standard library; its
//! result is named by [`lossy_utf8`] so that contracts can speak of it.

use vstd::prelude::*;

verus! {

/// The text that lossy UTF-8 decoding yields for a byte sequence:
/// every maximal invalid sequence is replaced by the replacement
/// character, so the result is defined for every input and depends on
/// the bytes alone.
pub uninterp spec fn lossy_utf8(bytes: Seq<u8>) -> Seq<char>;

/// Relies on `String::from_utf8_lossy`: it never fails, it decodes a
/// valid UTF-8 input exactly, and its result depends on the bytes alone.
#[verifier::external_body]
pub(crate) fn lossy_decode(bytes: &[u8]) -> (r: String)
    ensures
        r@ == lossy_utf8(bytes@),
        vstd::utf8::valid_utf8(bytes@) ==> r@ == vstd::utf8::decode_utf8(bytes@),
{
    String::from_utf8_lossy(bytes).into_owned()
}

} // verus!
