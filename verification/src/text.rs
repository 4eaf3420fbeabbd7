//! Text held in byte strings: UTF-8 in, UTF-8 out.

use vstd::prelude::*;
use vstd::utf8::{decode_utf8, encode_utf8, valid_utf8};

verus! {

/// Calls `String::from_utf8`. Trusted: it succeeds exactly on valid UTF-8,
/// and the text it returns is what the bytes encode.
#[verifier::external_body]
pub(crate) fn string_from_utf8(bytes: Vec<u8>) -> (text: Option<String>)
    ensures
        text.is_some() == valid_utf8(bytes@),
        text matches Some(t) ==> t@ == decode_utf8(bytes@),
{
    String::from_utf8(bytes).ok()
}

/// The text that a byte string holds, if it is valid UTF-8.
pub open spec fn text_of_bytes(bytes: Seq<u8>) -> Option<Seq<char>> {
    if valid_utf8(bytes) {
        Some(decode_utf8(bytes))
    } else {
        None
    }
}

/// Reads a byte string as UTF-8 text.
pub fn bytes_to_text(bytes: &[u8]) -> (text: Option<String>)
    ensures
        match text {
            Some(t) => text_of_bytes(bytes@) == Some(t@),
            None => text_of_bytes(bytes@).is_none(),
        },
{
    string_from_utf8(vstd::slice::slice_to_vec(bytes))
}

/// The UTF-8 bytes of a text.
pub fn text_to_bytes(text: &str) -> (bytes: Vec<u8>)
    ensures
        bytes@ == encode_utf8(text@),
{
    text.as_bytes_vec()
}

} // verus!
