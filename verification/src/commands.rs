//! The operations the command-line front end performs, on in-memory
//! buffers: the caller reads the file before and writes it after.

use vstd::prelude::*;
use vstd::slice::slice_to_vec;
use vstd::string::StringSliceAdditionalSpecFns;
use vstd::utf8::{
    decode_utf8, encode_utf8, encode_utf8_decode_utf8, encode_utf8_valid_utf8, valid_utf8,
};

use crate::chunk::{Chunk, ChunkModel};
use crate::chunk_type::{is_valid_tag_text, lemma_tag_text_of_ascii, text_to_bytes, ChunkType};
use crate::png::{
    all_wf, first_match, has_chunk, lemma_append_then_find, lemma_png_round_trip,
    spec_parse_png, spec_png_err, spec_serialize_png, tag_matches, Png,
};
use crate::render::spec_render_png;
use crate::PngError;

verus! {

/// Builds a chunk from a type tag text and a payload text; fails with
/// `InvalidTag` iff the tag text is invalid.
pub fn chunk_from_strings(chunk_type: &str, data: &str) -> (r: Result<Chunk, PngError>)
    requires
        data.spec_bytes().len() <= u32::MAX,
    ensures
        match r {
            Ok(c) => is_valid_tag_text(chunk_type@) && c@ == (ChunkModel {
                tag: text_to_bytes(chunk_type@),
                data: data.spec_bytes(),
            }),
            Err(e) => !is_valid_tag_text(chunk_type@) && e == PngError::InvalidTag,
        },
{
    let t = match ChunkType::from_str(chunk_type) {
        Ok(t) => t,
        Err(e) => {
            return Err(e);
        },
    };
    let bytes = slice_to_vec(data.as_bytes());
    Ok(Chunk::new(t, bytes))
}

/// Appends a chunk built from the tag and message texts to the container
/// held in `png_bytes`, and returns the new file bytes. Fails iff the file
/// does not parse (with its parse error) or, the file parsing, the tag
/// text is invalid (with `InvalidTag`).
pub fn encode(png_bytes: &[u8], chunk_type: &str, message: &str) -> (r: Result<Vec<u8>, PngError>)
    requires
        message.spec_bytes().len() <= u32::MAX,
    ensures
        match r {
            Ok(out) => spec_parse_png(png_bytes@) is Some && is_valid_tag_text(chunk_type@)
                && out@ == spec_serialize_png(
                spec_parse_png(png_bytes@).unwrap().push(
                    ChunkModel { tag: text_to_bytes(chunk_type@), data: message.spec_bytes() },
                ),
            ),
            Err(e) => (spec_parse_png(png_bytes@) is None && e == spec_png_err(png_bytes@)) || (
            spec_parse_png(png_bytes@) is Some && !is_valid_tag_text(chunk_type@) && e
                == PngError::InvalidTag),
        },
{
    let mut png = match Png::parse(png_bytes) {
        Ok(p) => p,
        Err(e) => {
            return Err(e);
        },
    };
    let chunk = match chunk_from_strings(chunk_type, message) {
        Ok(c) => c,
        Err(e) => {
            return Err(e);
        },
    };
    png.append_chunk(chunk);
    Ok(png.as_bytes())
}

/// Returns the payload of the first chunk with the given type, as text.
/// Fails iff the file does not parse (with its parse error), no chunk
/// matches (`NotFound`), or the payload is not valid UTF-8 (`NotUtf8`).
pub fn decode(png_bytes: &[u8], chunk_type: &str) -> (r: Result<String, PngError>)
    ensures
        ({
            let parsed = spec_parse_png(png_bytes@);
            match r {
                Ok(s) => parsed is Some && has_chunk(parsed.unwrap(), chunk_type@) && valid_utf8(
                    parsed.unwrap()[first_match(parsed.unwrap(), chunk_type@)].data,
                ) && s@ == decode_utf8(
                    parsed.unwrap()[first_match(parsed.unwrap(), chunk_type@)].data,
                ),
                Err(e) => (parsed is None && e == spec_png_err(png_bytes@)) || (parsed is Some
                    && !has_chunk(parsed.unwrap(), chunk_type@) && e == PngError::NotFound) || (
                parsed is Some && has_chunk(parsed.unwrap(), chunk_type@) && !valid_utf8(
                    parsed.unwrap()[first_match(parsed.unwrap(), chunk_type@)].data,
                ) && e == PngError::NotUtf8),
            }
        }),
{
    let png = match Png::parse(png_bytes) {
        Ok(p) => p,
        Err(e) => {
            return Err(e);
        },
    };
    match png.chunk_by_type(chunk_type) {
        Some(c) => c.data_as_string(),
        None => Err(PngError::NotFound),
    }
}

/// Removes the first chunk with the given type and returns the new file
/// bytes. Fails iff the file does not parse (with its parse error) or no
/// chunk matches (`NotFound`).
pub fn remove(png_bytes: &[u8], chunk_type: &str) -> (r: Result<Vec<u8>, PngError>)
    ensures
        ({
            let parsed = spec_parse_png(png_bytes@);
            match r {
                Ok(out) => parsed is Some && has_chunk(parsed.unwrap(), chunk_type@) && out@
                    == spec_serialize_png(
                    parsed.unwrap().remove(first_match(parsed.unwrap(), chunk_type@)),
                ),
                Err(e) => (parsed is None && e == spec_png_err(png_bytes@)) || (parsed is Some
                    && !has_chunk(parsed.unwrap(), chunk_type@) && e == PngError::NotFound),
            }
        }),
{
    let mut png = match Png::parse(png_bytes) {
        Ok(p) => p,
        Err(e) => {
            return Err(e);
        },
    };
    match png.remove_chunk(chunk_type) {
        Ok(_) => Ok(png.as_bytes()),
        Err(e) => Err(e),
    }
}

/// Renders a summary of every chunk of the file. Fails iff the file does
/// not parse, with its parse error.
pub fn print(png_bytes: &[u8]) -> (r: Result<String, PngError>)
    ensures
        match r {
            Ok(s) => spec_parse_png(png_bytes@) is Some && s@ == spec_render_png(
                spec_parse_png(png_bytes@).unwrap(),
            ),
            Err(e) => spec_parse_png(png_bytes@) is None && e == spec_png_err(png_bytes@),
        },
{
    match Png::parse(png_bytes) {
        Ok(p) => Ok(p.render()),
        Err(e) => Err(e),
    }
}

/// A message encoded under a fresh tag is decoded back: appending a chunk
/// whose tag the container does not yet hold and serializing, then
/// parsing, looking the tag up and decoding the payload, gives the
/// message again.
pub proof fn lemma_encode_then_decode(s: Seq<ChunkModel>, t: Seq<char>, msg: Seq<char>)
    requires
        all_wf(s),
        !has_chunk(s, t),
        is_valid_tag_text(t),
        encode_utf8(msg).len() <= u32::MAX,
    ensures
        ({
            let m = ChunkModel { tag: text_to_bytes(t), data: encode_utf8(msg) };
            let s2 = s.push(m);
            &&& spec_parse_png(spec_serialize_png(s2)) == Some(s2)
            &&& has_chunk(s2, t)
            &&& first_match(s2, t) == s.len()
            &&& valid_utf8(s2[first_match(s2, t)].data)
            &&& decode_utf8(s2[first_match(s2, t)].data) == msg
        }),
{
    let m = ChunkModel { tag: text_to_bytes(t), data: encode_utf8(msg) };
    let s2 = s.push(m);
    assert forall|i: int| 0 <= i < t.len() implies ((#[trigger] t[i]) as u32) < 128 by {
        assert(is_valid_tag_text(t));
    }
    lemma_tag_text_of_ascii(t);
    assert(m.wf());
    assert(tag_matches(m, t));
    assert(all_wf(s2)) by {
        assert forall|i: int| 0 <= i < s2.len() implies (#[trigger] s2[i]).wf() by {
            if i < s.len() {
                assert(s2[i] == s[i]);
            } else {
                assert(s2[i] == m);
            }
        }
    }
    lemma_png_round_trip(s2);
    lemma_append_then_find(s, m, t);
    encode_utf8_valid_utf8(msg);
    encode_utf8_decode_utf8(msg);
}

} // verus!
