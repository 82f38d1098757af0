//! The whole-file container: a fixed eight-byte signature followed by an
//! ordered sequence of chunks.

use vstd::prelude::*;

use crate::chunk::{
    append_bytes, lemma_chunk_parse_prefix, lemma_chunk_serialize_of_parse, note_wf,
    spec_chunk_err, spec_parse_chunk, Chunk, ChunkModel,
};
use crate::chunk_type::tag_text;
use crate::PngError;

verus! {

/// The fixed signature that opens every container file.
pub open spec fn sig() -> Seq<u8> {
    seq![0x89u8, 0x50u8, 0x4eu8, 0x47u8, 0x0du8, 0x0au8, 0x1au8, 0x0au8]
}

/// Every chunk of the sequence is well-formed.
pub open spec fn all_wf(s: Seq<ChunkModel>) -> bool {
    forall|i: int| 0 <= i < s.len() ==> (#[trigger] s[i]).wf()
}

/// The concatenation of the chunks' serializations, in order.
pub open spec fn spec_serialize_chunks(s: Seq<ChunkModel>) -> Seq<u8>
    decreases s.len(),
{
    if s.len() == 0 {
        Seq::empty()
    } else {
        s[0].spec_serialize() + spec_serialize_chunks(s.drop_first())
    }
}

/// The whole file: signature, then every chunk in order.
pub open spec fn spec_serialize_png(s: Seq<ChunkModel>) -> Seq<u8> {
    sig() + spec_serialize_chunks(s)
}

/// Parses a buffer as a sequence of chunks until it is exhausted; a
/// buffer with a trailing partial chunk parses to none.
pub open spec fn spec_parse_chunks(b: Seq<u8>) -> Option<Seq<ChunkModel>>
    decreases b.len(),
{
    if b.len() == 0 {
        Some(Seq::empty())
    } else {
        match spec_parse_chunk(b) {
            None => None,
            Some(m) => if 0 < m.size() <= b.len() {
                match spec_parse_chunks(b.skip(m.size())) {
                    None => None,
                    Some(rest) => Some(seq![m] + rest),
                }
            } else {
                None
            },
        }
    }
}

/// The error of the first chunk that fails to parse; meaningful when
/// `spec_parse_chunks` gives none.
pub open spec fn spec_chunks_err(b: Seq<u8>) -> PngError
    decreases b.len(),
{
    if b.len() == 0 {
        PngError::Truncated
    } else {
        match spec_parse_chunk(b) {
            None => spec_chunk_err(b),
            Some(m) => if 0 < m.size() <= b.len() {
                spec_chunks_err(b.skip(m.size()))
            } else {
                PngError::Truncated
            },
        }
    }
}

/// Parses a whole file: the signature, then chunks until the end.
pub open spec fn spec_parse_png(b: Seq<u8>) -> Option<Seq<ChunkModel>> {
    if b.len() < 8 || b.take(8) != sig() {
        None
    } else {
        spec_parse_chunks(b.skip(8))
    }
}

/// The error parsing a whole file reports; meaningful when
/// `spec_parse_png` gives none.
pub open spec fn spec_png_err(b: Seq<u8>) -> PngError {
    if b.len() < 8 || b.take(8) != sig() {
        PngError::BadSignature
    } else {
        spec_chunks_err(b.skip(8))
    }
}

/// The chunk's type tag reads as the given text.
pub open spec fn tag_matches(m: ChunkModel, t: Seq<char>) -> bool {
    tag_text(m.tag) == t
}

/// Some chunk of the sequence has the given type.
pub open spec fn has_chunk(s: Seq<ChunkModel>, t: Seq<char>) -> bool {
    exists|i: int| 0 <= i < s.len() && tag_matches(#[trigger] s[i], t)
}

/// The index of the first chunk with the given type; meaningful when
/// `has_chunk` holds.
pub open spec fn first_match(s: Seq<ChunkModel>, t: Seq<char>) -> int
    decreases s.len(),
{
    if s.len() == 0 {
        0
    } else if tag_matches(s[0], t) {
        0
    } else {
        1 + first_match(s.drop_first(), t)
    }
}

/// `first_match` returns the index it promises: a match, before which
/// nothing matches.
pub proof fn lemma_first_match(s: Seq<ChunkModel>, t: Seq<char>)
    requires
        has_chunk(s, t),
    ensures
        0 <= first_match(s, t) < s.len(),
        tag_matches(s[first_match(s, t)], t),
        forall|j: int| 0 <= j < first_match(s, t) ==> !tag_matches(#[trigger] s[j], t),
    decreases s.len(),
{
    if tag_matches(s[0], t) {
    } else {
        let sd = s.drop_first();
        let i = choose|i: int| 0 <= i < s.len() && tag_matches(s[i], t);
        assert(sd[i - 1] == s[i]);
        assert(has_chunk(sd, t));
        lemma_first_match(sd, t);
        assert forall|j: int| 0 <= j < first_match(s, t) implies !tag_matches(
            #[trigger] s[j],
            t,
        ) by {
            if j > 0 {
                assert(s[j] == sd[j - 1]);
            }
        }
    }
}

/// An index that matches, before which nothing matches, is the first
/// match.
pub proof fn lemma_first_match_is(s: Seq<ChunkModel>, t: Seq<char>, i: int)
    requires
        0 <= i < s.len(),
        tag_matches(s[i], t),
        forall|j: int| 0 <= j < i ==> !tag_matches(#[trigger] s[j], t),
    ensures
        has_chunk(s, t),
        first_match(s, t) == i,
    decreases s.len(),
{
    if tag_matches(s[0], t) {
        assert(i == 0);
    } else {
        let sd = s.drop_first();
        assert(sd[i - 1] == s[i]);
        assert forall|j: int| 0 <= j < i - 1 implies !tag_matches(#[trigger] sd[j], t) by {
            assert(sd[j] == s[j + 1]);
        }
        lemma_first_match_is(sd, t, i - 1);
    }
}

/// A container: the ordered sequence of chunks that, with the signature
/// before them, makes up a file.
#[derive(Debug)]
pub struct Png {
    chunks: Vec<Chunk>,
}

impl View for Png {
    type V = Seq<ChunkModel>;

    closed spec fn view(&self) -> Seq<ChunkModel> {
        Seq::new(self.chunks@.len(), |i: int| self.chunks@[i]@)
    }
}

impl Png {
    /// Builds a container from a ready sequence of chunks.
    pub fn from_chunks(chunks: Vec<Chunk>) -> (r: Png)
        ensures
            r@.len() == chunks@.len(),
            forall|i: int| 0 <= i < chunks@.len() ==> r@[i] == (#[trigger] chunks@[i])@,
    {
        Png { chunks }
    }

    /// The fixed signature, as raw bytes.
    pub fn header(&self) -> (r: [u8; 8])
        ensures
            r@ == sig(),
    {
        let r = [0x89u8, 0x50u8, 0x4eu8, 0x47u8, 0x0du8, 0x0au8, 0x1au8, 0x0au8];
        proof {
            assert(r@ =~= sig());
        }
        r
    }

    /// The chunks, in order.
    pub fn chunks(&self) -> (r: &Vec<Chunk>)
        ensures
            r@.len() == self@.len(),
            forall|i: int| 0 <= i < r@.len() ==> (#[trigger] r@[i])@ == self@[i],
    {
        &self.chunks
    }

    /// Parses a whole file: fails with `BadSignature` iff the buffer does
    /// not start with the signature, and otherwise propagates the error of
    /// the first chunk that fails, a trailing partial chunk included.
    pub fn parse(value: &[u8]) -> (r: Result<Png, PngError>)
        ensures
            match r {
                Ok(p) => spec_parse_png(value@) == Some(p@) && all_wf(p@),
                Err(e) => spec_parse_png(value@) is None && e == spec_png_err(value@),
            },
    {
        let n = value.len();
        if n < 8 {
            return Err(PngError::BadSignature);
        }
        if !(value[0] == 0x89 && value[1] == 0x50 && value[2] == 0x4e && value[3] == 0x47
            && value[4] == 0x0d && value[5] == 0x0a && value[6] == 0x1a && value[7] == 0x0a) {
            proof {
                assert forall|k: int| 0 <= k < 8 implies value@.take(8)[k] == value@[k] by {}
                if value@.take(8) == sig() {
                    assert(value@[0] == 0x89 && value@[1] == 0x50 && value@[2] == 0x4e && value@[3]
                        == 0x47 && value@[4] == 0x0d && value@[5] == 0x0a && value@[6] == 0x1a
                        && value@[7] == 0x0a);
                }
            }
            return Err(PngError::BadSignature);
        }
        proof {
            assert(value@.take(8) =~= sig());
        }
        let mut chunks: Vec<Chunk> = Vec::new();
        let mut off: usize = 8;
        while off < n
            invariant
                8 <= off <= n,
                n == value@.len(),
                value@.take(8) == sig(),
                all_wf(views_of(chunks@)),
                spec_parse_chunks(value@.skip(8)) is Some <==> spec_parse_chunks(
                    value@.skip(off as int),
                ) is Some,
                spec_parse_chunks(value@.skip(off as int)) is Some ==> spec_parse_chunks(
                    value@.skip(8),
                ).unwrap() == views_of(chunks@) + spec_parse_chunks(
                    value@.skip(off as int),
                ).unwrap(),
                spec_parse_chunks(value@.skip(off as int)) is None ==> spec_chunks_err(
                    value@.skip(8),
                ) == spec_chunks_err(value@.skip(off as int)),
            decreases n - off,
        {
            let ghost cur = value@.skip(off as int);
            match Chunk::parse_at(value, off) {
                Err(e) => {
                    proof {
                        assert(cur.len() > 0);
                        assert(spec_parse_chunks(cur) is None);
                        assert(spec_chunks_err(cur) == spec_chunk_err(cur));
                    }
                    return Err(e);
                },
                Ok(c) => {
                    proof {
                        assert(spec_parse_chunk(cur) == Some(c@));
                        lemma_chunk_serialize_of_parse(cur);
                        assert(c@.size() <= cur.len());
                    }
                    note_wf(&c);
                    let len_usize = c.length() as usize;
                    let sz = len_usize + 12;
                    proof {
                        assert(off + sz <= n);
                    }
                    let ghost prev = chunks@;
                    chunks.push(c);
                    off = off + sz;
                    proof {
                        assert(cur.skip(c@.size()) =~= value@.skip(off as int));
                        assert(spec_parse_chunks(cur) == (match spec_parse_chunks(
                            cur.skip(c@.size()),
                        ) {
                            None => None::<Seq<ChunkModel>>,
                            Some(rest) => Some(seq![c@] + rest),
                        }));
                        assert(views_of(chunks@) =~= views_of(prev).push(c@));
                        assert forall|k: int| 0 <= k < views_of(chunks@).len() implies (
                        #[trigger] views_of(chunks@)[k]).wf() by {
                            if k < prev.len() {
                                assert(views_of(chunks@)[k] == views_of(prev)[k]);
                            } else {
                                assert(views_of(chunks@)[k] == c@);
                            }
                        }
                        if spec_parse_chunks(value@.skip(off as int)) is Some {
                            let rest = spec_parse_chunks(value@.skip(off as int)).unwrap();
                            assert(views_of(prev) + (seq![c@] + rest) =~= views_of(chunks@)
                                + rest);
                        }
                    }
                },
            }
        }
        proof {
            assert(value@.skip(n as int) =~= Seq::<u8>::empty());
            assert(spec_parse_chunks(value@.skip(off as int)) == Some(Seq::<ChunkModel>::empty()));
            assert(views_of(chunks@) + Seq::<ChunkModel>::empty() =~= views_of(chunks@));
        }
        let r = Png { chunks };
        proof {
            assert(r@ =~= views_of(r.chunks@));
        }
        Ok(r)
    }

    /// Adds the chunk at the end of the sequence.
    pub fn append_chunk(&mut self, chunk: Chunk)
        ensures
            final(self)@ == old(self)@.push(chunk@),
    {
        let ghost before = self@;
        self.chunks.push(chunk);
        proof {
            assert(self@ =~= before.push(chunk@));
        }
    }

    /// Returns the first chunk (in sequence order) whose type tag's text
    /// form equals the given text; none if absent.
    pub fn chunk_by_type(&self, chunk_type: &str) -> (r: Option<&Chunk>)
        ensures
            match r {
                Some(c) => has_chunk(self@, chunk_type@) && c@ == self@[first_match(
                    self@,
                    chunk_type@,
                )],
                None => !has_chunk(self@, chunk_type@),
            },
    {
        let mut i: usize = 0;
        while i < self.chunks.len()
            invariant
                i <= self.chunks@.len(),
                forall|j: int| 0 <= j < i ==> !tag_matches(#[trigger] self@[j], chunk_type@),
            decreases self.chunks@.len() - i,
        {
            let c = &self.chunks[i];
            if c.chunk_type().matches_str(chunk_type) {
                proof {
                    assert(tag_matches(self@[i as int], chunk_type@));
                    lemma_first_match_is(self@, chunk_type@, i as int);
                }
                return Some(c);
            }
            i += 1;
        }
        None
    }

    /// Removes the first chunk whose type tag's text form equals the given
    /// text, keeping the rest in order; fails with `NotFound`, changing
    /// nothing, iff no chunk matches.
    pub fn remove_chunk(&mut self, chunk_type: &str) -> (r: Result<(), PngError>)
        ensures
            match r {
                Ok(_) => has_chunk(old(self)@, chunk_type@) && final(self)@ == old(self)@.remove(
                    first_match(old(self)@, chunk_type@),
                ),
                Err(e) => !has_chunk(old(self)@, chunk_type@) && e == PngError::NotFound
                    && final(self)@ == old(self)@,
            },
    {
        let mut i: usize = 0;
        while i < self.chunks.len()
            invariant
                i <= self.chunks@.len(),
                self@ == old(self)@,
                forall|j: int| 0 <= j < i ==> !tag_matches(#[trigger] old(self)@[j], chunk_type@),
            decreases self.chunks@.len() - i,
        {
            let c = &self.chunks[i];
            if c.chunk_type().matches_str(chunk_type) {
                proof {
                    assert(tag_matches(old(self)@[i as int], chunk_type@));
                    lemma_first_match_is(old(self)@, chunk_type@, i as int);
                }
                let ghost prev = self.chunks@;
                self.chunks.remove(i);
                proof {
                    assert(self.chunks@ == prev.remove(i as int));
                    assert forall|k: int| 0 <= k < self@.len() implies self@[k] == old(self)@.remove(
                        i as int,
                    )[k] by {
                        if k < i {
                            assert(prev.remove(i as int)[k] == prev[k]);
                            assert(old(self)@.remove(i as int)[k] == old(self)@[k]);
                        } else {
                            assert(prev.remove(i as int)[k] == prev[k + 1]);
                            assert(old(self)@.remove(i as int)[k] == old(self)@[k + 1]);
                        }
                    }
                    assert(self@ =~= old(self)@.remove(i as int));
                }
                return Ok(());
            }
            i += 1;
        }
        Err(PngError::NotFound)
    }

    /// Serializes the container: the signature, then every chunk's
    /// serialization in order. Parsing the result gives the container
    /// back.
    #[verifier::rlimit(100)]
    #[verifier::spinoff_prover]
    pub fn as_bytes(&self) -> (r: Vec<u8>)
        ensures
            r@ == spec_serialize_png(self@),
            spec_parse_png(r@) == Some(self@),
            all_wf(self@),
    {
        let mut out: Vec<u8> = Vec::new();
        let hdr = self.header();
        out.push(hdr[0]);
        out.push(hdr[1]);
        out.push(hdr[2]);
        out.push(hdr[3]);
        out.push(hdr[4]);
        out.push(hdr[5]);
        out.push(hdr[6]);
        out.push(hdr[7]);
        proof {
            assert(out@ =~= sig() + spec_serialize_chunks(self@.take(0)));
        }
        let mut i: usize = 0;
        while i < self.chunks.len()
            invariant
                i <= self.chunks@.len(),
                self.chunks@.len() == self@.len(),
                all_wf(self@.take(i as int)),
                out@ == sig() + spec_serialize_chunks(self@.take(i as int)),
            decreases self.chunks@.len() - i,
        {
            proof {
                assert(self.chunks@[i as int]@ == self@[i as int]);
            }
            let c = &self.chunks[i];
            c.write_into(&mut out);
            proof {
                lemma_serialize_chunks_take_step(self@, i as int);
                vstd::seq_lib::lemma_concat_associative(
                    sig(),
                    spec_serialize_chunks(self@.take(i as int)),
                    c@.spec_serialize(),
                );
                assert(out@ == sig() + spec_serialize_chunks(self@.take(i as int + 1)));
                assert(all_wf(self@.take(i as int + 1))) by {
                    assert forall|k: int| 0 <= k < i as int + 1 implies (#[trigger] self@.take(
                        i as int + 1,
                    )[k]).wf() by {
                        assert(self@.take(i as int + 1)[k] == self@[k]);
                        if k < i as int {
                            assert(self@.take(i as int)[k] == self@[k]);
                        }
                    }
                }
            }
            i += 1;
        }
        proof {
            assert(self@.take(self@.len() as int) =~= self@);
            assert(all_wf(self@));
            lemma_png_round_trip(self@);
        }
        out
    }
}

/// The mathematical content of each chunk of a sequence, in order.
pub open spec fn views_of(v: Seq<Chunk>) -> Seq<ChunkModel> {
    Seq::new(v.len(), |i: int| v[i]@)
}

/// Serializing one more chunk appends its serialization.
pub proof fn lemma_serialize_chunks_take_step(s: Seq<ChunkModel>, i: int)
    requires
        0 <= i < s.len(),
    ensures
        spec_serialize_chunks(s.take(i + 1)) == spec_serialize_chunks(s.take(i))
            + s[i].spec_serialize(),
    decreases i,
{
    if i == 0 {
        assert(s.take(1)[0] == s[0]);
        assert(s.take(1).drop_first() =~= Seq::<ChunkModel>::empty());
        assert(s.take(0) =~= Seq::<ChunkModel>::empty());
        assert(spec_serialize_chunks(s.take(1)) == s[0].spec_serialize()
            + spec_serialize_chunks(Seq::<ChunkModel>::empty()));
        assert(s[0].spec_serialize() + Seq::<u8>::empty() =~= Seq::<u8>::empty()
            + s[0].spec_serialize());
    } else {
        let sd = s.drop_first();
        lemma_serialize_chunks_take_step(sd, i - 1);
        assert(s.take(i + 1).drop_first() =~= sd.take(i));
        assert(s.take(i).drop_first() =~= sd.take(i - 1));
        assert(s.take(i + 1)[0] == s[0]);
        assert(s.take(i)[0] == s[0]);
        assert(sd[i - 1] == s[i]);
        assert(spec_serialize_chunks(s.take(i + 1)) == s[0].spec_serialize()
            + spec_serialize_chunks(sd.take(i)));
        assert(spec_serialize_chunks(s.take(i)) == s[0].spec_serialize()
            + spec_serialize_chunks(sd.take(i - 1)));
        assert(s[0].spec_serialize() + (spec_serialize_chunks(sd.take(i - 1))
            + s[i].spec_serialize()) =~= (s[0].spec_serialize() + spec_serialize_chunks(
            sd.take(i - 1),
        )) + s[i].spec_serialize());
    }
}

/// Round trip for chunk sequences: parsing the concatenation of
/// well-formed chunks' serializations gives the sequence back.
#[verifier::rlimit(50)]
pub proof fn lemma_chunks_round_trip(s: Seq<ChunkModel>)
    requires
        all_wf(s),
    ensures
        spec_parse_chunks(spec_serialize_chunks(s)) == Some(s),
    decreases s.len(),
{
    if s.len() == 0 {
    } else {
        let m = s[0];
        let rest = s.drop_first();
        let tail = spec_serialize_chunks(rest);
        let b = spec_serialize_chunks(s);
        lemma_chunk_parse_prefix(m, tail);
        assert(b == m.spec_serialize() + tail);
        assert(spec_parse_chunk(b) == Some(m));
        assert(b.len() == m.size() + tail.len());
        assert(b.skip(m.size()) == tail) by {
            assert(b.skip(m.size()) =~= tail);
        }
        assert(all_wf(rest)) by {
            assert forall|i: int| 0 <= i < rest.len() implies (#[trigger] rest[i]).wf() by {
                assert(rest[i] == s[i + 1]);
            }
        }
        lemma_chunks_round_trip(rest);
        assert(seq![m] + rest == s) by {
            assert(seq![m] + rest =~= s);
        }
        assert(spec_parse_chunks(b) == Some(seq![m] + rest));
    }
}

/// Round trip for whole files: parsing a serialized container of
/// well-formed chunks gives the chunk sequence back.
pub proof fn lemma_png_round_trip(s: Seq<ChunkModel>)
    requires
        all_wf(s),
    ensures
        spec_parse_png(spec_serialize_png(s)) == Some(s),
{
    let b = spec_serialize_png(s);
    assert(b.take(8) =~= sig());
    assert(b.skip(8) =~= spec_serialize_chunks(s));
    lemma_chunks_round_trip(s);
}

/// After appending a chunk of a type the container does not hold, that
/// chunk is what lookup by its type finds.
pub proof fn lemma_append_then_find(s: Seq<ChunkModel>, m: ChunkModel, t: Seq<char>)
    requires
        !has_chunk(s, t),
        tag_matches(m, t),
    ensures
        has_chunk(s.push(m), t),
        first_match(s.push(m), t) == s.len(),
        s.push(m)[first_match(s.push(m), t)] == m,
{
    let s2 = s.push(m);
    assert(s2[s.len() as int] == m);
    assert forall|j: int| 0 <= j < s.len() implies !tag_matches(#[trigger] s2[j], t) by {
        assert(s2[j] == s[j]);
    }
    lemma_first_match_is(s2, t, s.len() as int);
}

/// After removing the only chunk of a type, lookup by that type finds
/// nothing.
pub proof fn lemma_remove_then_find(s: Seq<ChunkModel>, t: Seq<char>)
    requires
        has_chunk(s, t),
        forall|i: int, j: int|
            0 <= i < s.len() && 0 <= j < s.len() && tag_matches(#[trigger] s[i], t) && tag_matches(
                #[trigger] s[j],
                t,
            ) ==> i == j,
    ensures
        !has_chunk(s.remove(first_match(s, t)), t),
{
    lemma_first_match(s, t);
    let f = first_match(s, t);
    let s2 = s.remove(f);
    assert forall|k: int| 0 <= k < s2.len() implies !tag_matches(#[trigger] s2[k], t) by {
        if k < f {
            assert(s2[k] == s[k]);
        } else {
            assert(s2[k] == s[k + 1]);
        }
    }
}

} // verus!
