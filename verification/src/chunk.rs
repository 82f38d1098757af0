//! The length-prefixed, type-tagged, checksummed chunk record.

use vstd::prelude::*;
use vstd::slice::slice_to_vec;
use vstd::utf8::{decode_utf8, valid_utf8};

use crate::binary::{
    be_bytes, be_val, lemma_be_bytes_of_be_val, lemma_be_val_of_be_bytes, push_be, read_be,
};
use crate::chunk_type::{is_valid_tag, ChunkType};
use crate::crc32::{crc32, crc32_of};
use crate::text::string_from_utf8;
use crate::PngError;

verus! {

/// The mathematical content of a chunk: its type tag bytes and its payload.
/// The length and the checksum of a well-formed chunk are functions of
/// these two.
#[verifier::ext_equal]
pub ghost struct ChunkModel {
    pub tag: Seq<u8>,
    pub data: Seq<u8>,
}

impl ChunkModel {
    /// A well-formed chunk has a valid tag and a payload whose byte count
    /// fits the 4-byte length field.
    pub open spec fn wf(self) -> bool {
        is_valid_tag(self.tag) && self.data.len() <= u32::MAX
    }

    /// The checksum a chunk of this content stores: the CRC-32 over the
    /// tag bytes followed by the payload bytes.
    pub open spec fn crc(self) -> u32 {
        crc32_of(self.tag + self.data)
    }

    /// The serialized size: 4 length bytes, 4 tag bytes, the payload, and
    /// 4 checksum bytes.
    pub open spec fn size(self) -> int {
        12 + self.data.len() as int
    }

    /// The byte layout `parse` consumes and `as_bytes` emits: big-endian
    /// length, tag, payload, big-endian checksum.
    pub open spec fn spec_serialize(self) -> Seq<u8> {
        be_bytes(self.data.len() as u32) + self.tag + self.data + be_bytes(self.crc())
    }
}

/// Parses one chunk from the front of a buffer; trailing bytes are left
/// alone. None when the buffer is shorter than the declared chunk, the tag
/// is invalid, or the stored checksum differs from the recomputed one.
#[verifier::opaque]
pub open spec fn spec_parse_chunk(b: Seq<u8>) -> Option<ChunkModel> {
    if b.len() < 4 {
        None
    } else {
        let len = be_val(b[0], b[1], b[2], b[3]) as int;
        if b.len() < 12 + len {
            None
        } else {
            let tag = b.subrange(4, 8);
            let data = b.subrange(8, 8 + len);
            let crc = be_val(b[8 + len], b[9 + len], b[10 + len], b[11 + len]);
            if !is_valid_tag(tag) {
                None
            } else if crc != crc32_of(tag + data) {
                None
            } else {
                Some(ChunkModel { tag, data })
            }
        }
    }
}

/// The error parsing the front of the buffer reports; meaningful when
/// `spec_parse_chunk` gives none. Truncation is detected first, then tag
/// validity, then the checksum.
pub open spec fn spec_chunk_err(b: Seq<u8>) -> PngError {
    if b.len() < 4 {
        PngError::Truncated
    } else {
        let len = be_val(b[0], b[1], b[2], b[3]) as int;
        if b.len() < 12 + len {
            PngError::Truncated
        } else if !is_valid_tag(b.subrange(4, 8)) {
            PngError::InvalidTag
        } else {
            PngError::ChecksumMismatch
        }
    }
}

/// One chunk of a container: a type tag and a payload, together with the
/// stored length and checksum fields. The stored fields always agree with
/// the payload: the length is its byte count and the checksum is the
/// CRC-32 over tag and payload, whether the chunk was built fresh or
/// reconstructed from verified bytes.
#[derive(Debug)]
pub struct Chunk {
    length: u32,
    ttype: ChunkType,
    crc: u32,
    data: Vec<u8>,
}

impl View for Chunk {
    type V = ChunkModel;

    closed spec fn view(&self) -> ChunkModel {
        ChunkModel { tag: self.ttype@, data: self.data@ }
    }
}

impl Chunk {
    /// The stored fields agree with the content.
    #[verifier::type_invariant]
    spec fn type_inv(self) -> bool {
        self@.wf() && self.length == self@.data.len() && self.crc == self@.crc()
    }

    /// Builds a fresh chunk from a tag and a payload; the length is the
    /// payload's size and the checksum is computed over tag and payload.
    pub fn new(chunk_type: ChunkType, data: Vec<u8>) -> (r: Chunk)
        requires
            data@.len() <= u32::MAX,
        ensures
            r@ == (ChunkModel { tag: chunk_type@, data: data@ }),
    {
        proof {
            use_type_invariant(&chunk_type);
        }
        let buf = tag_and_data(&chunk_type, data.as_slice());
        let crc_val = crc32(buf.as_slice());
        let length = data.len() as u32;
        Chunk { length, ttype: chunk_type, crc: crc_val, data }
    }

    /// Reconstructs a chunk from the front of a byte buffer, verifying the
    /// stored checksum; trailing bytes are ignored.
    pub fn parse(value: &[u8]) -> (r: Result<Chunk, PngError>)
        ensures
            match r {
                Ok(c) => spec_parse_chunk(value@) == Some(c@),
                Err(e) => spec_parse_chunk(value@) is None && e == spec_chunk_err(value@),
            },
    {
        proof {
            assert(value@.skip(0) =~= value@);
        }
        Self::parse_at(value, 0)
    }

    /// Reconstructs a chunk from the buffer starting at `off`, verifying
    /// the stored checksum; bytes after the chunk are ignored.
    pub fn parse_at(buf: &[u8], off: usize) -> (r: Result<Chunk, PngError>)
        requires
            off <= buf@.len(),
        ensures
            match r {
                Ok(c) => spec_parse_chunk(buf@.skip(off as int)) == Some(c@),
                Err(e) => spec_parse_chunk(buf@.skip(off as int)) is None && e == spec_chunk_err(
                    buf@.skip(off as int),
                ),
            },
    {
        let ghost rest = buf@.skip(off as int);
        proof {
            reveal(spec_parse_chunk);
            assert forall|k: int| 0 <= k < rest.len() implies rest[k] == buf@[off + k] by {}
        }
        let n = buf.len();
        let remaining = n - off;
        if remaining < 4 {
            return Err(PngError::Truncated);
        }
        let len32 = read_be(buf[off], buf[off + 1], buf[off + 2], buf[off + 3]);
        assert(len32 == be_val(rest[0], rest[1], rest[2], rest[3]));
        let len = len32 as usize;
        if remaining < 12 || remaining - 12 < len {
            assert(rest.len() < 12 + len32 as int);
            return Err(PngError::Truncated);
        }
        let tag_arr = [buf[off + 4], buf[off + 5], buf[off + 6], buf[off + 7]];
        proof {
            assert(tag_arr@ =~= rest.subrange(4, 8));
        }
        let ttype = match ChunkType::from_bytes(tag_arr) {
            Ok(t) => t,
            Err(e) => {
                return Err(e);
            },
        };
        let data = slice_to_vec(&buf[off + 8..off + 8 + len]);
        proof {
            assert(data@ =~= rest.subrange(8, 8 + len as int));
        }
        let stored = read_be(
            buf[off + 8 + len],
            buf[off + 9 + len],
            buf[off + 10 + len],
            buf[off + 11 + len],
        );
        assert(stored == be_val(
            rest[8 + len as int],
            rest[9 + len as int],
            rest[10 + len as int],
            rest[11 + len as int],
        ));
        let tbuf = tag_and_data(&ttype, data.as_slice());
        let computed = crc32(tbuf.as_slice());
        if stored != computed {
            return Err(PngError::ChecksumMismatch);
        }
        let c = Chunk { length: len32, ttype, crc: stored, data };
        proof {
            assert(spec_parse_chunk(rest) == Some(c@));
        }
        Ok(c)
    }

    /// The payload's byte count, as the length field stores it.
    pub fn length(&self) -> (r: u32)
        ensures
            r == self@.data.len(),
    {
        proof {
            use_type_invariant(self);
        }
        self.length
    }

    /// The chunk's type tag.
    pub fn chunk_type(&self) -> (r: &ChunkType)
        ensures
            r@ == self@.tag,
    {
        &self.ttype
    }

    /// The raw payload bytes.
    pub fn data(&self) -> (r: &[u8])
        ensures
            r@ == self@.data,
    {
        self.data.as_slice()
    }

    /// The stored checksum: always the CRC-32 over tag and payload.
    pub fn crc(&self) -> (r: u32)
        ensures
            r == self@.crc(),
    {
        proof {
            use_type_invariant(self);
        }
        self.crc
    }

    /// The payload as text; fails with `NotUtf8` iff the payload is not
    /// valid UTF-8.
    pub fn data_as_string(&self) -> (r: Result<String, PngError>)
        ensures
            r is Ok <==> valid_utf8(self@.data),
            r is Ok ==> r.unwrap()@ == decode_utf8(self@.data),
            r is Err ==> r.unwrap_err() == PngError::NotUtf8,
    {
        let v = slice_to_vec(self.data.as_slice());
        string_from_utf8(v)
    }

    /// Appends the chunk's serialization to a buffer: big-endian length,
    /// tag bytes, payload, big-endian checksum.
    pub fn write_into(&self, out: &mut Vec<u8>)
        ensures
            final(out)@ == old(out)@ + self@.spec_serialize(),
            self@.wf(),
    {
        proof {
            use_type_invariant(self);
        }
        push_be(out, self.length);
        let tb = self.ttype.bytes();
        out.push(tb[0]);
        out.push(tb[1]);
        out.push(tb[2]);
        out.push(tb[3]);
        append_bytes(out, self.data.as_slice());
        push_be(out, self.crc);
        proof {
            assert(out@ =~= old(out)@ + self@.spec_serialize());
        }
    }

    /// Serializes the chunk: big-endian length, tag bytes, payload,
    /// big-endian checksum. Parsing the result gives the chunk back.
    pub fn as_bytes(&self) -> (r: Vec<u8>)
        ensures
            r@ == self@.spec_serialize(),
            spec_parse_chunk(r@) == Some(self@),
    {
        let mut out: Vec<u8> = Vec::new();
        self.write_into(&mut out);
        proof {
            assert(out@ =~= self@.spec_serialize());
            lemma_chunk_round_trip(self@);
        }
        out
    }
}

/// Appends a slice's bytes to a buffer.
pub(crate) fn append_bytes(out: &mut Vec<u8>, b: &[u8])
    ensures
        final(out)@ == old(out)@ + b@,
{
    let mut i: usize = 0;
    while i < b.len()
        invariant
            i <= b@.len(),
            out@ == old(out)@ + b@.take(i as int),
        decreases b@.len() - i,
    {
        out.push(b[i]);
        proof {
            assert(old(out)@ + b@.take(i as int) + seq![b@[i as int]] =~= old(out)@ + b@.take(
                i as int + 1,
            ));
        }
        i += 1;
    }
    assert(b@.take(b@.len() as int) =~= b@);
}

/// The tag bytes followed by the payload bytes: the input of the checksum.
fn tag_and_data(tag: &ChunkType, data: &[u8]) -> (v: Vec<u8>)
    ensures
        v@ == tag@ + data@,
{
    let tb = tag.bytes();
    let mut v: Vec<u8> = Vec::new();
    v.push(tb[0]);
    v.push(tb[1]);
    v.push(tb[2]);
    v.push(tb[3]);
    append_bytes(&mut v, data);
    assert(v@ =~= tag@ + data@);
    v
}

/// Round trip, stated over a prefix: parsing a buffer that starts with a
/// well-formed chunk's serialization gives that chunk back, whatever
/// follows it.
pub proof fn lemma_chunk_parse_prefix(m: ChunkModel, tail: Seq<u8>)
    requires
        m.wf(),
    ensures
        spec_parse_chunk(m.spec_serialize() + tail) == Some(m),
        m.spec_serialize().len() == m.size(),
{
    reveal(spec_parse_chunk);
    let s = m.spec_serialize();
    let b = s + tail;
    let len = m.data.len() as int;
    let n32 = m.data.len() as u32;
    assert(s.len() == 12 + len);
    lemma_be_val_of_be_bytes(n32);
    assert(b[0] == be_bytes(n32)[0] && b[1] == be_bytes(n32)[1] && b[2] == be_bytes(n32)[2] && b[3]
        == be_bytes(n32)[3]);
    assert(be_val(b[0], b[1], b[2], b[3]) == n32);
    assert(b.subrange(4, 8) =~= m.tag);
    assert(b.subrange(8, 8 + len) =~= m.data);
    lemma_be_val_of_be_bytes(m.crc());
    assert(b[8 + len] == be_bytes(m.crc())[0] && b[9 + len] == be_bytes(m.crc())[1] && b[10 + len]
        == be_bytes(m.crc())[2] && b[11 + len] == be_bytes(m.crc())[3]);
    assert(be_val(b[8 + len], b[9 + len], b[10 + len], b[11 + len]) == m.crc());
    assert(spec_parse_chunk(b) == Some(ChunkModel { tag: b.subrange(4, 8), data: b.subrange(8, 8 + len) }));
    assert(ChunkModel { tag: b.subrange(4, 8), data: b.subrange(8, 8 + len) } =~= m);
}

/// Round trip: parsing a well-formed chunk's serialization gives the chunk
/// back.
pub proof fn lemma_chunk_round_trip(m: ChunkModel)
    requires
        m.wf(),
    ensures
        spec_parse_chunk(m.spec_serialize()) == Some(m),
{
    lemma_chunk_parse_prefix(m, Seq::<u8>::empty());
    assert(m.spec_serialize() + Seq::<u8>::empty() =~= m.spec_serialize());
}

/// The other direction of the round trip: a successful parse never yields
/// different content; the bytes it consumed are exactly the serialization
/// of the chunk it returns.
pub proof fn lemma_chunk_serialize_of_parse(b: Seq<u8>)
    requires
        spec_parse_chunk(b) is Some,
    ensures
        ({
            let m = spec_parse_chunk(b).unwrap();
            &&& m.wf()
            &&& 12 <= m.size() <= b.len()
            &&& m.spec_serialize() == b.take(m.size())
        }),
{
    reveal(spec_parse_chunk);
    let m = spec_parse_chunk(b).unwrap();
    let len32 = be_val(b[0], b[1], b[2], b[3]);
    let len = len32 as int;
    assert(m.tag == b.subrange(4, 8));
    assert(m.data == b.subrange(8, 8 + len));
    assert(m.data.len() == len);
    lemma_be_bytes_of_be_val(b[0], b[1], b[2], b[3]);
    assert(be_bytes(m.data.len() as u32) == seq![b[0], b[1], b[2], b[3]]);
    let c0 = b[8 + len];
    let c1 = b[9 + len];
    let c2 = b[10 + len];
    let c3 = b[11 + len];
    assert(be_val(c0, c1, c2, c3) == crc32_of(m.tag + m.data));
    assert(m.crc() == be_val(c0, c1, c2, c3));
    lemma_be_bytes_of_be_val(c0, c1, c2, c3);
    assert(be_bytes(m.crc()) == seq![c0, c1, c2, c3]);
    assert(m.spec_serialize() =~= b.take(12 + len));
}

/// Tampering with the checksum field is always detected: a buffer that
/// starts like a well-formed chunk's serialization but carries anything
/// other than the chunk's checksum in the checksum field fails to parse,
/// with a checksum mismatch.
#[verifier::rlimit(50)]
pub proof fn lemma_checksum_tamper_detected(m: ChunkModel, crc_field: Seq<u8>)
    requires
        m.wf(),
        crc_field.len() == 4,
        crc_field != be_bytes(m.crc()),
    ensures
        ({
            let b = m.spec_serialize().take(m.size() - 4) + crc_field;
            &&& spec_parse_chunk(b) is None
            &&& spec_chunk_err(b) == PngError::ChecksumMismatch
        }),
{
    reveal(spec_parse_chunk);
    let s = m.spec_serialize();
    let b = s.take(m.size() - 4) + crc_field;
    let len = m.data.len() as int;
    let n32 = m.data.len() as u32;
    assert(s.len() == 12 + len);
    assert(b.len() == 12 + len);
    assert forall|k: int| 0 <= k < 8 + len implies b[k] == s[k] by {
        assert(b[k] == s.take(m.size() - 4)[k]);
    }
    assert(b[0] == be_bytes(n32)[0] && b[1] == be_bytes(n32)[1] && b[2] == be_bytes(n32)[2] && b[3]
        == be_bytes(n32)[3]);
    lemma_be_val_of_be_bytes(n32);
    assert(be_val(b[0], b[1], b[2], b[3]) == n32);
    assert(b.subrange(4, 8) =~= m.tag);
    assert(b.subrange(8, 8 + len) =~= m.data);
    let c0 = b[8 + len];
    let c1 = b[9 + len];
    let c2 = b[10 + len];
    let c3 = b[11 + len];
    assert(c0 == crc_field[0] && c1 == crc_field[1] && c2 == crc_field[2] && c3 == crc_field[3]);
    if be_val(c0, c1, c2, c3) == m.crc() {
        lemma_be_val_of_be_bytes(m.crc());
        lemma_be_bytes_of_be_val(c0, c1, c2, c3);
        assert(crc_field =~= be_bytes(m.crc()));
        assert(false);
    }
    assert(spec_parse_chunk(b) is None);
    assert(spec_chunk_err(b) == PngError::ChecksumMismatch);
}

/// Tampering never goes unnoticed as the original: a buffer of the same
/// size as a well-formed chunk's serialization that differs from it in
/// any byte cannot parse to that chunk. A successful parse always returns
/// the content whose serialization the buffer is.
pub proof fn lemma_tamper_never_yields_original(m: ChunkModel, b: Seq<u8>)
    requires
        m.wf(),
        b.len() == m.size(),
        b != m.spec_serialize(),
    ensures
        spec_parse_chunk(b) != Some(m),
{
    if spec_parse_chunk(b) == Some(m) {
        lemma_chunk_serialize_of_parse(b);
        assert(m.spec_serialize() == b.take(m.size()));
        assert(b.take(m.size()) =~= b);
    }
}

/// A declared length that exceeds the remaining buffer is rejected as
/// truncation: no payload or checksum bytes are ever read past the end.
pub proof fn lemma_oversized_length_rejected(b: Seq<u8>)
    requires
        b.len() >= 4,
        12 + (be_val(b[0], b[1], b[2], b[3]) as int) > b.len(),
    ensures
        spec_parse_chunk(b) is None,
        spec_chunk_err(b) == PngError::Truncated,
{
    reveal(spec_parse_chunk);
}

/// Makes a chunk's well-formedness available outside this module: every
/// chunk that exists has a valid tag and a payload that fits the length
/// field.
pub fn note_wf(c: &Chunk)
    ensures
        c@.wf(),
{
    proof {
        use_type_invariant(c);
    }
}

} // verus!
