//! Turning byte payloads into text, with the UTF-8 model from vstd.

use vstd::prelude::*;
use vstd::utf8::{
    decode_utf8, encode_utf8, encode_utf8_decode_utf8, encode_utf8_valid_utf8, is_ascii_chars,
    is_ascii_chars_encode_utf8, valid_utf8,
};

use crate::chunk_type::tag_text;
use crate::PngError;

verus! {

/// Relies on `String::from_utf8`: it returns `Ok` exactly when the bytes
/// are valid UTF-8, and the returned string holds their decoding.
#[verifier::external_body]
pub(crate) fn string_from_utf8(v: Vec<u8>) -> (r: Result<String, PngError>)
    ensures
        r is Ok <==> valid_utf8(v@),
        r is Ok ==> r.unwrap()@ == decode_utf8(v@),
        r is Err ==> r.unwrap_err() == PngError::NotUtf8,
{
    match String::from_utf8(v) {
        Ok(s) => Ok(s),
        Err(_) => Err(PngError::NotUtf8),
    }
}

/// A sequence of ASCII bytes is valid UTF-8 and decodes to the characters
/// with the same codes.
pub proof fn lemma_ascii_bytes_utf8(v: Seq<u8>)
    requires
        forall|i: int| 0 <= i < v.len() ==> #[trigger] v[i] < 128,
    ensures
        valid_utf8(v),
        decode_utf8(v) == tag_text(v),
{
    let chars = tag_text(v);
    assert forall|i: int| 0 <= i < chars.len() implies '\0' <= #[trigger] chars[i] <= '\u{7f}' by {
        assert(v[i] < 128);
    }
    assert(is_ascii_chars(chars));
    is_ascii_chars_encode_utf8(chars);
    assert forall|i: int| 0 <= i < v.len() implies encode_utf8(chars)[i] == v[i] by {
        assert(chars[i] as u8 == encode_utf8(chars)[i]);
        assert(chars[i] == v[i] as char);
    }
    assert(encode_utf8(chars) =~= v);
    encode_utf8_valid_utf8(chars);
    encode_utf8_decode_utf8(chars);
}

} // verus!

