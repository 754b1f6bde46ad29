//! Lowercasing, which the standard library computes.

use vstd::prelude::*;
use vstd::utf8::*;

verus! {

/// The lowercase form of `text` as `str::to_lowercase` computes it: the
/// Unicode lowercase mapping, which is a function of the text alone. The
/// mapping itself is not modelled here.
pub uninterp spec fn lowercased(text: Seq<char>) -> Seq<char>;

/// The UTF-8 bytes of the lowercase form of the text that `bytes` encode.
pub open spec fn folded(bytes: Seq<u8>) -> Seq<u8> {
    encode_utf8(lowercased(decode_utf8(bytes)))
}

/// Calls `str::to_lowercase`.
///
/// Trusted, not proved: the result is the lowercase form of `text` that
/// `lowercased` names, and the empty text has the empty lowercase form.
#[verifier::external_body]
pub(crate) fn lowercase(text: &str) -> (lowered: String)
    ensures
        lowered@ == lowercased(text@),
        text@.len() == 0 ==> lowered@.len() == 0,
{
    text.to_lowercase()
}

} // verus!
