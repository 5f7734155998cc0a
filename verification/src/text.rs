//! Text at the edge of the library: bytes of a document read as text, and
//! bytes of a document written as base64 text. Both are done by calls whose
//! results are named here and not computed.

use vstd::prelude::*;
use vstd::utf8::{decode_utf8, encode_utf8, encode_utf8_decode_utf8, encode_utf8_valid_utf8, valid_utf8};
use base64::Engine;

verus! {

/// The text that `String::from_utf8_lossy` reads from `bytes`: the text that
/// the bytes encode, with U+FFFD in place of what is not UTF-8.
pub uninterp spec fn lossy_text(bytes: Seq<u8>) -> Seq<char>;

/// The text that bytes are read as: the text they encode where they are
/// UTF-8, and else what `String::from_utf8_lossy` makes of them.
pub open spec fn text_of(bytes: Seq<u8>) -> Seq<char> {
    if valid_utf8(bytes) {
        decode_utf8(bytes)
    } else {
        lossy_text(bytes)
    }
}

/// The base64 text of `bytes` in the standard alphabet, padded: what the
/// engine `base64::engine::general_purpose::STANDARD` encodes them to.
pub uninterp spec fn base64_standard(bytes: Seq<u8>) -> Seq<char>;

/// The length of the base64 text of `len` bytes: four characters for every
/// three bytes, begun or whole.
pub open spec fn base64_len(len: nat) -> nat {
    if len % 3 == 0 {
        (len / 3) * 4
    } else {
        (len / 3) * 4 + 4
    }
}

/// Whether the base64 text of `len` bytes has a length that fits `usize`.
pub open spec fn fits_base64(len: nat) -> bool {
    base64_len(len) <= usize::MAX
}

/// `String::from_utf8_lossy`. Bytes that are UTF-8 are read as the text they
/// encode.
#[verifier::external_body]
pub(crate) fn decode_lossy(bytes: &[u8]) -> (text: String)
    ensures
        text@ == lossy_text(bytes@),
        valid_utf8(bytes@) ==> text@ == decode_utf8(bytes@),
{
    String::from_utf8_lossy(bytes).into_owned()
}

/// `Engine::encode` of the engine `STANDARD`. The text has four characters
/// for every three bytes, begun or whole. The call panics where that length
/// does not fit `usize`.
#[verifier::external_body]
pub(crate) fn encode_base64(bytes: &[u8]) -> (text: String)
    requires
        fits_base64(bytes@.len()),
    ensures
        text@ == base64_standard(bytes@),
        text@.len() == base64_len(bytes@.len()),
{
    base64::engine::general_purpose::STANDARD.encode(bytes)
}

/// Reads bytes as text.
pub fn read_text(bytes: &[u8]) -> (text: String)
    ensures
        text@ == text_of(bytes@),
{
    decode_lossy(bytes)
}

/// Text written as UTF-8 is read as it was.
pub proof fn lemma_utf8_reads_back(text: Seq<char>)
    ensures
        text_of(encode_utf8(text)) == text,
{
    encode_utf8_valid_utf8(text);
    encode_utf8_decode_utf8(text);
}

} // verus!
