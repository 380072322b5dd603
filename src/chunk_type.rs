//! Four-byte chunk tags and the property bits carried by the case of their letters.
use vstd::prelude::*;
use vstd::string::StringSliceAdditionalSpecFns;
use vstd::utf8::{decode_utf8, valid_utf8};
use crate::bytes::{be32, be32_value, lemma_be32_injective, lemma_be32_of_be32_value, lemma_be32_value_of_be32, u32_to_be};
use crate::error::PngError;

verus! {

/// Whether `b` is an ASCII uppercase letter.
pub open spec fn is_upper(b: u8) -> bool {
    65 <= b && b <= 90
}

/// Whether `b` is an ASCII lowercase letter.
pub open spec fn is_lower(b: u8) -> bool {
    97 <= b && b <= 122
}

/// Whether `b` is an ASCII letter.
pub open spec fn is_letter(b: u8) -> bool {
    is_upper(b) || is_lower(b)
}

/// Whether `s` is four ASCII letters, the form a tag written as text must have.
pub open spec fn valid_tag_text(s: Seq<u8>) -> bool {
    s.len() == 4 && forall|i: int| 0 <= i < 4 ==> is_letter(#[trigger] s[i])
}

/// A chunk's type: four bytes, kept as one big-endian 32-bit value.
#[derive(Debug, Clone, Copy, PartialEq, Eq, Structural, PartialOrd, Ord, Hash)]
pub struct ChunkType {
    data: u32,
}

impl View for ChunkType {
    type V = Seq<u8>;

    /// The tag's four bytes, in order.
    closed spec fn view(&self) -> Seq<u8> {
        be32(self.data)
    }
}

/// Relies on `String::from_utf8_lossy`: bytes that are valid UTF-8 give the
/// characters they encode.
#[verifier::external_body]
fn lossy_text(b: &[u8]) -> (r: String)
    ensures
        valid_utf8(b@) ==> r@ == decode_utf8(b@),
{
    String::from_utf8_lossy(b).into_owned()
}

/// Whether `b` is an ASCII uppercase letter.
fn upper(b: u8) -> (r: bool)
    ensures
        r == is_upper(b),
{
    65 <= b && b <= 90
}

impl ChunkType {
    /// A tag always has four bytes.
    pub proof fn lemma_view_len(self)
        ensures
            self@.len() == 4,
    {
        lemma_be32_value_of_be32(self.data);
    }

    /// Tags are equal exactly when their bytes are.
    pub proof fn lemma_view_eq(self, other: ChunkType)
        ensures
            (self == other) <==> (self@ == other@),
    {
        lemma_be32_injective(self.data, other.data);
    }

    /// The tag made of the bytes `value`; no check is made on them.
    pub fn from_bytes(value: [u8; 4]) -> (r: ChunkType)
        ensures
            r@ == value@,
    {
        let data = crate::bytes::u32_from_be(value.as_slice(), 0);
        assert(data == be32_value(value@)) by {
            assert(value@.subrange(0, 4) =~= value@);
        }
        proof {
            lemma_be32_of_be32_value(value@);
        }
        ChunkType { data }
    }

    /// The tag written as `s`, which must be four ASCII letters.
    pub fn from_str(s: &str) -> (r: Result<ChunkType, PngError>)
        ensures
            valid_tag_text(s.spec_bytes()) ==> (r matches Ok(t) && t@ == s.spec_bytes()),
            !valid_tag_text(s.spec_bytes()) ==> r == Err::<ChunkType, PngError>(PngError::FormatError),
    {
        let b = s.as_bytes();
        if b.len() != 4 {
            return Err(PngError::FormatError);
        }
        let mut i: usize = 0;
        while i < 4
            invariant
                b@ == s.spec_bytes(),
                b@.len() == 4,
                i <= 4,
                forall|j: int| 0 <= j < i ==> is_letter(#[trigger] b@[j]),
            decreases 4 - i,
        {
            let c = b[i];
            if !(upper(c) || (97 <= c && c <= 122)) {
                return Err(PngError::FormatError);
            }
            i += 1;
        }
        Ok(ChunkType::from_bytes([b[0], b[1], b[2], b[3]]))
    }

    /// The tag's four bytes.
    pub fn bytes(self) -> (r: [u8; 4])
        ensures
            r@ == self@,
    {
        u32_to_be(self.data)
    }

    /// The tag as text; bytes that are not UTF-8 are replaced.
    pub fn to_string(&self) -> (r: String)
        ensures
            valid_utf8(self@) ==> r@ == decode_utf8(self@),
    {
        let b = self.bytes();
        lossy_text(b.as_slice())
    }

    /// Critical: the first letter is uppercase.
    pub fn is_critical(self) -> (r: bool)
        ensures
            r == is_upper(self@[0]),
    {
        upper(self.bytes()[0])
    }

    /// Public: the second letter is uppercase.
    pub fn is_public(self) -> (r: bool)
        ensures
            r == is_upper(self@[1]),
    {
        upper(self.bytes()[1])
    }

    /// Reserved bit valid: the third letter is uppercase.
    pub fn is_reserved_bit_valid(self) -> (r: bool)
        ensures
            r == is_upper(self@[2]),
    {
        upper(self.bytes()[2])
    }

    /// Safe to copy: the fourth letter is lowercase.
    pub fn is_safe_to_copy(self) -> (r: bool)
        ensures
            r == is_lower(self@[3]),
    {
        let b = self.bytes()[3];
        97 <= b && b <= 122
    }
}

impl TryFrom<[u8; 4]> for ChunkType {
    type Error = PngError;

    fn try_from(value: [u8; 4]) -> Result<ChunkType, PngError> {
        let t = ChunkType::from_bytes(value);
        proof {
            lemma_be32_of_be32_value(value@);
            lemma_be32_injective(t.data, be32_value(value@));
        }
        Ok(t)
    }
}

impl vstd::std_specs::convert::TryFromSpecImpl<[u8; 4]> for ChunkType {
    open spec fn obeys_try_from_spec() -> bool {
        true
    }

    closed spec fn try_from_spec(v: [u8; 4]) -> Result<ChunkType, PngError> {
        Ok(ChunkType { data: be32_value(v@) })
    }
}

/// Making a tag from four bytes never fails, and the tag holds those bytes.
pub proof fn lemma_try_from_bytes(v: [u8; 4])
    ensures
        <ChunkType as vstd::std_specs::convert::TryFromSpec<[u8; 4]>>::try_from_spec(v) matches Ok(
            t,
        ) && t@ == v@,
{
    lemma_be32_of_be32_value(v@);
}

} // verus!
