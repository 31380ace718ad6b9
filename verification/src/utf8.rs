//! Bytes as text.

use vstd::prelude::*;
use vstd::utf8::*;

verus! {

/// What bytes spell once each sequence in them that is not UTF-8 has been replaced.
pub uninterp spec fn lossy_text(bytes: Seq<u8>) -> Seq<char>;

/// Calls `String::from_utf8`. Claims that it succeeds on UTF-8 alone, and that the text it gives
/// has these bytes.
#[verifier::external_body]
pub(crate) fn utf8_text(bytes: Vec<u8>) -> (text: Option<String>)
    ensures
        match text {
            Some(s) => valid_utf8(bytes@) && s@ == decode_utf8(bytes@),
            None => !valid_utf8(bytes@),
        },
{
    String::from_utf8(bytes).ok()
}

/// Calls `String::from_utf8_lossy`. Claims that what it gives depends on the bytes alone, and
/// that it is their text where they are UTF-8.
#[verifier::external_body]
pub(crate) fn utf8_lossy_text(bytes: &[u8]) -> (text: String)
    ensures
        text@ == lossy_text(bytes@),
        valid_utf8(bytes@) ==> text@ == decode_utf8(bytes@),
{
    String::from_utf8_lossy(bytes).into_owned()
}

} // verus!
