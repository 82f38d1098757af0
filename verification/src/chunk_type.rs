//! The four-byte chunk type tag and its case-encoded semantic flags.

use vstd::prelude::*;
use vstd::pervasive::unreached;

use crate::PngError;

verus! {

/// A byte is an ASCII uppercase letter (`A`-`Z`).
pub open spec fn is_upper(b: u8) -> bool {
    65 <= b <= 90
}

/// A byte is an ASCII lowercase letter (`a`-`z`).
pub open spec fn is_lower(b: u8) -> bool {
    97 <= b <= 122
}

/// A byte is an ASCII letter.
pub open spec fn is_alpha(b: u8) -> bool {
    is_upper(b) || is_lower(b)
}

/// A tag is valid iff it is four ASCII letters and the third byte (the
/// reserved bit) is uppercase.
pub open spec fn is_valid_tag(s: Seq<u8>) -> bool {
    &&& s.len() == 4
    &&& forall|i: int| 0 <= i < 4 ==> is_alpha(#[trigger] s[i])
    &&& is_upper(s[2])
}

/// The text form of a tag: each byte as the character with the same code.
pub open spec fn tag_text(s: Seq<u8>) -> Seq<char> {
    Seq::new(s.len(), |i: int| s[i] as char)
}

/// The bytes of a text, character by character; faithful when every
/// character is ASCII.
pub open spec fn text_to_bytes(t: Seq<char>) -> Seq<u8> {
    Seq::new(t.len(), |i: int| (t[i] as u32) as u8)
}

/// A text is a valid tag: four ASCII letters, the third uppercase.
pub open spec fn is_valid_tag_text(t: Seq<char>) -> bool {
    &&& t.len() == 4
    &&& forall|i: int| 0 <= i < 4 ==> is_ascii_alpha_char(#[trigger] t[i])
    &&& is_upper_char(t[2])
}

/// A character is an ASCII uppercase letter.
pub open spec fn is_upper_char(c: char) -> bool {
    65 <= (c as u32) && (c as u32) <= 90
}

/// A character is an ASCII lowercase letter.
pub open spec fn is_lower_char(c: char) -> bool {
    97 <= (c as u32) && (c as u32) <= 122
}

/// A character is an ASCII letter.
pub open spec fn is_ascii_alpha_char(c: char) -> bool {
    is_upper_char(c) || is_lower_char(c)
}

/// A 4-byte chunk type identifier. Each byte is an ASCII letter whose case
/// encodes a semantic flag; the third byte must be uppercase. Invalid tags
/// are never constructed: both constructors fail instead.
#[derive(Debug, Clone, Copy, PartialEq, Eq)]
pub struct ChunkType {
    bytes: [u8; 4],
}

impl View for ChunkType {
    type V = Seq<u8>;

    closed spec fn view(&self) -> Seq<u8> {
        self.bytes@
    }
}

impl ChunkType {
    /// Every tag that exists is valid.
    #[verifier::type_invariant]
    pub(crate) open spec fn type_inv(self) -> bool {
        is_valid_tag(self@)
    }

    /// Constructs a tag from four raw bytes; fails with `InvalidTag` iff a
    /// byte is not an ASCII letter or the third byte is lowercase.
    pub fn from_bytes(value: [u8; 4]) -> (r: Result<ChunkType, PngError>)
        ensures
            match r {
                Ok(t) => is_valid_tag(value@) && t@ == value@,
                Err(e) => !is_valid_tag(value@) && e == PngError::InvalidTag,
            },
    {
        if Self::bytes_valid(&value) {
            Ok(ChunkType { bytes: value })
        } else {
            Err(PngError::InvalidTag)
        }
    }

    /// Constructs a tag from a 4-character text; fails with `InvalidTag` iff
    /// the text is not exactly four ASCII letters with the third uppercase.
    pub fn from_str(s: &str) -> (r: Result<ChunkType, PngError>)
        ensures
            match r {
                Ok(t) => is_valid_tag_text(s@) && t@ == text_to_bytes(s@) && tag_text(t@) == s@,
                Err(e) => !is_valid_tag_text(s@) && e == PngError::InvalidTag,
            },
    {
        if s.unicode_len() != 4 {
            return Err(PngError::InvalidTag);
        }
        let mut bytes: [u8; 4] = [0, 0, 0, 0];
        let mut i: usize = 0;
        while i < 4
            invariant
                s@.len() == 4,
                0 <= i <= 4,
                forall|j: int| 0 <= j < i ==> is_ascii_alpha_char(#[trigger] s@[j]),
                forall|j: int| 0 <= j < i ==> bytes@[j] == (s@[j] as u32) as u8,
            decreases 4 - i,
        {
            let c = s.get_char(i);
            let u = c as u32;
            if !((65 <= u && u <= 90) || (97 <= u && u <= 122)) {
                return Err(PngError::InvalidTag);
            }
            bytes[i] = u as u8;
            proof {
                assert(bytes@[i as int] == (s@[i as int] as u32) as u8);
            }
            i += 1;
        }
        assert(bytes@ =~= text_to_bytes(s@));
        match Self::from_bytes(bytes) {
            Ok(t) => {
                proof {
                    lemma_tag_text_of_ascii(s@);
                }
                Ok(t)
            },
            Err(e) => {
                proof {
                    lemma_tag_text_of_ascii(s@);
                }
                Err(e)
            },
        }
    }

    /// Returns the tag's four raw bytes.
    pub fn bytes(&self) -> (r: [u8; 4])
        ensures
            r@ == self@,
    {
        self.bytes
    }

    /// Returns the tag's 4-character text form.
    pub fn to_string(&self) -> (r: String)
        ensures
            r@ == tag_text(self@),
    {
        proof {
            use_type_invariant(self);
        }
        let mut v: Vec<u8> = Vec::new();
        v.push(self.bytes[0]);
        v.push(self.bytes[1]);
        v.push(self.bytes[2]);
        v.push(self.bytes[3]);
        proof {
            assert(v@ =~= self@);
            crate::text::lemma_ascii_bytes_utf8(v@);
        }
        match crate::text::string_from_utf8(v) {
            Ok(s) => s,
            Err(_) => unreached(),
        }
    }

    /// The chunk is critical iff the first byte is uppercase: an image
    /// cannot be correctly rendered without understanding a critical chunk.
    pub fn is_critical(&self) -> (r: bool)
        ensures
            r == is_upper(self@[0]),
    {
        self.test_property_bit_unset(0)
    }

    /// The tag is public (part of the registered set) iff the second byte is
    /// uppercase.
    pub fn is_public(&self) -> (r: bool)
        ensures
            r == is_upper(self@[1]),
    {
        self.test_property_bit_unset(1)
    }

    /// The chunk is safe to copy iff the fourth byte is lowercase.
    pub fn is_safe_to_copy(&self) -> (r: bool)
        ensures
            r == !is_upper(self@[3]),
    {
        !self.test_property_bit_unset(3)
    }

    /// A tag is valid iff all four bytes are ASCII letters and the reserved
    /// bit (third byte) is uppercase. Holds of every constructed tag.
    pub fn is_valid(&self) -> (r: bool)
        ensures
            r == is_valid_tag(self@),
    {
        let mut i: usize = 0;
        while i < 4
            invariant
                0 <= i <= 4,
                forall|j: int| 0 <= j < i ==> is_alpha(#[trigger] self@[j]),
            decreases 4 - i,
        {
            let b = self.bytes[i];
            if !((65 <= b && b <= 90) || (97 <= b && b <= 122)) {
                assert(!is_alpha(self@[i as int]));
                return false;
            }
            i += 1;
        }
        self.is_reserved_bit_valid()
    }

    /// The reserved bit is valid iff the third byte is uppercase.
    pub fn is_reserved_bit_valid(&self) -> (r: bool)
        ensures
            r == is_upper(self@[2]),
    {
        self.test_property_bit_unset(2)
    }

    /// Tests whether the property bit (bit 5) of the byte at `idx` is unset,
    /// that is, whether that byte is an ASCII uppercase letter.
    pub fn test_property_bit_unset(&self, idx: usize) -> (r: bool)
        requires
            idx < 4,
        ensures
            r == is_upper(self@[idx as int]),
    {
        let b = self.bytes[idx];
        65 <= b && b <= 90
    }

    /// The tag's text form equals the given text.
    pub fn matches_str(&self, s: &str) -> (r: bool)
        ensures
            r == (tag_text(self@) == s@),
    {
        if s.unicode_len() != 4 {
            proof {
                assert(tag_text(self@).len() == 4);
            }
            return false;
        }
        let mut i: usize = 0;
        while i < 4
            invariant
                s@.len() == 4,
                0 <= i <= 4,
                forall|j: int| 0 <= j < i ==> tag_text(self@)[j] == s@[j],
            decreases 4 - i,
        {
            let c = s.get_char(i);
            if (self.bytes[i] as char) != c {
                proof {
                    assert(tag_text(self@)[i as int] != s@[i as int]);
                }
                return false;
            }
            i += 1;
        }
        proof {
            assert(tag_text(self@) =~= s@);
        }
        true
    }

    /// Validates four raw bytes as a tag.
    fn bytes_valid(b: &[u8; 4]) -> (r: bool)
        ensures
            r == is_valid_tag(b@),
    {
        let mut i: usize = 0;
        while i < 4
            invariant
                0 <= i <= 4,
                forall|j: int| 0 <= j < i ==> is_alpha(#[trigger] b@[j]),
            decreases 4 - i,
        {
            let x = b[i];
            if !((65 <= x && x <= 90) || (97 <= x && x <= 122)) {
                return false;
            }
            i += 1;
        }
        let third = b[2];
        65 <= third && third <= 90
    }
}

/// For a text of ASCII letters, taking bytes and reading them back as
/// characters returns the same text, and validity carries over both ways.
pub proof fn lemma_tag_text_of_ascii(t: Seq<char>)
    requires
        forall|i: int| 0 <= i < t.len() ==> ((#[trigger] t[i]) as u32) < 128,
    ensures
        tag_text(text_to_bytes(t)) == t,
        t.len() == 4 ==> (is_valid_tag(text_to_bytes(t)) == is_valid_tag_text(t)),
{
    assert forall|i: int| 0 <= i < t.len() implies tag_text(text_to_bytes(t))[i] == t[i] by {
        let c = t[i];
        assert((c as u32) < 128);
        vstd::utf8::char_u32_cast(c, c as u32);
        assert(((c as u32) as u8) as u32 == c as u32);
        assert(((c as u32) as u8) as char == c);
        assert(text_to_bytes(t)[i] == (c as u32) as u8);
    }
    assert(tag_text(text_to_bytes(t)) =~= t);
    if t.len() == 4 {
        assert forall|i: int| 0 <= i < 4 implies is_alpha(#[trigger] text_to_bytes(t)[i])
            == is_ascii_alpha_char(t[i]) by {
            assert((t[i] as u32) < 128);
        }
        assert(is_upper(text_to_bytes(t)[2]) == is_upper_char(t[2]));
    }
}

} // verus!
