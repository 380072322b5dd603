//! One chunk: a length-prefixed, checksummed record of a tag and its payload.
use vstd::prelude::*;
use vstd::slice::{slice_subrange, slice_to_vec};
use vstd::utf8::{decode_utf8, valid_utf8};
use crate::bytes::{be32, be32_value, lemma_be32_value_of_be32, u32_from_be, u32_to_be};
use crate::chunk_type::ChunkType;
use crate::error::PngError;

verus! {

/// The CRC-32/ISO-HDLC checksum of `b`, as PNG uses it.
pub uninterp spec fn crc32_of(b: Seq<u8>) -> u32;

/// Relies on `crc::Crc::<u32>::checksum` under the `CRC_32_ISO_HDLC` parameters:
/// the checksum is a function of the bytes alone.
#[verifier::external_body]
fn checksum(b: &[u8]) -> (r: u32)
    ensures
        r == crc32_of(b@),
{
    crc::Crc::<u32>::new(&crc::CRC_32_ISO_HDLC).checksum(b)
}

/// Relies on `String::from_utf8`: it succeeds exactly on valid UTF-8,
/// and then holds the characters that the bytes encode.
#[verifier::external_body]
fn utf8_to_string(b: Vec<u8>) -> (r: Option<String>)
    ensures
        r is Some <==> valid_utf8(b@),
        r matches Some(s) ==> s@ == decode_utf8(b@),
{
    String::from_utf8(b).ok()
}

/// What a chunk holds: its tag's bytes, its payload and its stored checksum.
pub struct ChunkView {
    pub tag: Seq<u8>,
    pub data: Seq<u8>,
    pub crc: u32,
}

/// The checksum a chunk with this tag and payload must carry.
pub open spec fn chunk_crc(tag: Seq<u8>, data: Seq<u8>) -> u32 {
    crc32_of(tag + data)
}

/// Well-formed: four tag bytes, a payload whose length fits the length field,
/// and the checksum of tag and payload.
pub open spec fn chunk_view_wf(v: ChunkView) -> bool {
    &&& v.tag.len() == 4
    &&& v.data.len() <= u32::MAX
    &&& v.crc == chunk_crc(v.tag, v.data)
}

/// The serialized form: length, tag, payload and checksum, integers big-endian.
pub open spec fn chunk_bytes(v: ChunkView) -> Seq<u8> {
    be32(v.data.len() as u32) + v.tag + v.data + be32(v.crc)
}

/// The payload length that the first four bytes of `buf` declare.
pub open spec fn declared_len(buf: Seq<u8>) -> int {
    be32_value(buf.subrange(0, 4)) as int
}

/// What reading one chunk from the start of `buf` gives; bytes after the chunk are left alone.
pub open spec fn parse_chunk(buf: Seq<u8>) -> Result<ChunkView, PngError> {
    if buf.len() < 8 || buf.len() < 12 + declared_len(buf) {
        Err(PngError::TruncatedInput)
    } else {
        let n = declared_len(buf);
        let v = ChunkView {
            tag: buf.subrange(4, 8),
            data: buf.subrange(8, 8 + n),
            crc: be32_value(buf.subrange(8 + n, 12 + n)),
        };
        if v.crc == chunk_crc(v.tag, v.data) {
            Ok(v)
        } else {
            Err(PngError::ChecksumMismatch)
        }
    }
}

/// The serialized form of a well-formed chunk is twelve bytes longer than its payload.
pub proof fn lemma_chunk_bytes_len(v: ChunkView)
    requires
        chunk_view_wf(v),
    ensures
        chunk_bytes(v).len() == 12 + v.data.len(),
{
    lemma_be32_value_of_be32(v.data.len() as u32);
    lemma_be32_value_of_be32(v.crc);
}

/// Reading a chunk from its serialized form, whatever bytes follow it,
/// gives the chunk back.
pub proof fn lemma_parse_chunk_prefix(v: ChunkView, rest: Seq<u8>)
    requires
        chunk_view_wf(v),
    ensures
        parse_chunk(chunk_bytes(v) + rest) == Ok::<ChunkView, PngError>(v),
{
    let b = chunk_bytes(v) + rest;
    let n = v.data.len() as int;
    lemma_chunk_bytes_len(v);
    lemma_be32_value_of_be32(v.data.len() as u32);
    lemma_be32_value_of_be32(v.crc);
    assert(b.subrange(0, 4) =~= be32(v.data.len() as u32));
    assert(declared_len(b) == n);
    assert(b.subrange(4, 8) =~= v.tag);
    assert(b.subrange(8, 8 + n) =~= v.data);
    assert(b.subrange(8 + n, 12 + n) =~= be32(v.crc));
}

/// Round trip: reading back a serialized well-formed chunk gives the same
/// tag, payload and checksum.
pub proof fn lemma_chunk_round_trip(c: Chunk)
    requires
        c.wf(),
    ensures
        parse_chunk(chunk_bytes(c@)) == Ok::<ChunkView, PngError>(c@),
{
    lemma_parse_chunk_prefix(c@, Seq::empty());
    assert(chunk_bytes(c@) + Seq::empty() =~= chunk_bytes(c@));
}

/// A serialized chunk whose tag or payload has one byte changed, its stored checksum
/// kept, is refused with `ChecksumMismatch` exactly when the checksum of the changed
/// tag and payload differs from the stored one, and is otherwise read with that tag
/// and payload.
pub proof fn lemma_altered_chunk_checked(c: Chunk, i: int, x: u8)
    requires
        c.wf(),
        4 <= i < 8 + c@.data.len(),
    ensures
        ({
            let b = chunk_bytes(c@).update(i, x);
            let n = c@.data.len() as int;
            &&& crc32_of(b.subrange(4, 8 + n)) != c@.crc ==> parse_chunk(b) == Err::<
                ChunkView,
                PngError,
            >(PngError::ChecksumMismatch)
            &&& crc32_of(b.subrange(4, 8 + n)) == c@.crc ==> parse_chunk(b) == Ok::<
                ChunkView,
                PngError,
            >(ChunkView { tag: b.subrange(4, 8), data: b.subrange(8, 8 + n), crc: c@.crc })
        }),
{
    let v = c@;
    let b = chunk_bytes(v).update(i, x);
    let n = v.data.len() as int;
    lemma_chunk_bytes_len(v);
    lemma_be32_value_of_be32(v.data.len() as u32);
    lemma_be32_value_of_be32(v.crc);
    assert(b.subrange(0, 4) =~= be32(v.data.len() as u32));
    assert(b.subrange(8 + n, 12 + n) =~= be32(v.crc));
    assert(b.subrange(4, 8) + b.subrange(8, 8 + n) =~= b.subrange(4, 8 + n));
}

/// A typed, checksummed record.
pub struct Chunk {
    chunk_type: ChunkType,
    data: Vec<u8>,
    crc: u32,
}

impl View for Chunk {
    type V = ChunkView;

    closed spec fn view(&self) -> ChunkView {
        ChunkView { tag: self.chunk_type@, data: self.data@, crc: self.crc }
    }
}

/// Appends the bytes of `b` to `out`.
fn push_all(out: &mut Vec<u8>, b: &[u8])
    ensures
        final(out)@ == old(out)@ + b@,
{
    let mut i: usize = 0;
    while i < b.len()
        invariant
            i <= b@.len(),
            out@ == old(out)@ + b@.subrange(0, i as int),
        decreases b@.len() - i,
    {
        out.push(b[i]);
        i += 1;
        assert(out@ =~= old(out)@ + b@.subrange(0, i as int));
    }
    assert(b@.subrange(0, b@.len() as int) =~= b@);
}

impl Chunk {
    /// Well-formed, as `chunk_view_wf` says.
    pub open spec fn wf(&self) -> bool {
        chunk_view_wf(self@)
    }

    /// The chunk of tag `chunk_type` and payload `data`, with its checksum computed.
    pub fn new(chunk_type: ChunkType, data: Vec<u8>) -> (r: Chunk)
        requires
            data@.len() <= u32::MAX,
        ensures
            r@ == (ChunkView { tag: chunk_type@, data: data@, crc: chunk_crc(chunk_type@, data@) }),
            r.wf(),
    {
        proof {
            chunk_type.lemma_view_len();
        }
        let mut covered: Vec<u8> = Vec::new();
        let tag = chunk_type.bytes();
        push_all(&mut covered, tag.as_slice());
        push_all(&mut covered, data.as_slice());
        assert(covered@ =~= chunk_type@ + data@);
        let crc = checksum(covered.as_slice());
        Chunk { chunk_type, data, crc }
    }

    /// The payload's length in bytes.
    pub fn length(&self) -> (r: u32)
        ensures
            r == self@.data.len() as u32,
    {
        self.data.len() as u32
    }

    /// The chunk's tag.
    pub fn chunk_type(&self) -> (r: &ChunkType)
        ensures
            r@ == self@.tag,
    {
        &self.chunk_type
    }

    /// The payload.
    pub fn data(&self) -> (r: &[u8])
        ensures
            r@ == self@.data,
    {
        self.data.as_slice()
    }

    /// The stored checksum.
    pub fn crc(&self) -> (r: u32)
        ensures
            r == self@.crc,
    {
        self.crc
    }

    /// The payload as text, or `EncodingError` where it is not valid UTF-8.
    pub fn data_as_string(&self) -> (r: Result<String, PngError>)
        ensures
            valid_utf8(self@.data) ==> (r matches Ok(s) && s@ == decode_utf8(self@.data)),
            !valid_utf8(self@.data) ==> r == Err::<String, PngError>(PngError::EncodingError),
    {
        match utf8_to_string(self.data.clone()) {
            Some(s) => Ok(s),
            None => Err(PngError::EncodingError),
        }
    }

    /// The serialized chunk: length, tag, payload and checksum.
    pub fn as_bytes(&self) -> (r: Vec<u8>)
        ensures
            r@ == chunk_bytes(self@),
    {
        let mut out: Vec<u8> = Vec::new();
        let len = u32_to_be(self.length());
        push_all(&mut out, len.as_slice());
        let tag = self.chunk_type.bytes();
        push_all(&mut out, tag.as_slice());
        push_all(&mut out, self.data.as_slice());
        let crc = u32_to_be(self.crc);
        push_all(&mut out, crc.as_slice());
        out
    }

    /// Reads one chunk from the start of `value`, checking its checksum.
    pub fn parse(value: &[u8]) -> (r: Result<Chunk, PngError>)
        ensures
            match parse_chunk(value@) {
                Ok(v) => r matches Ok(c) && c@ == v && c.wf(),
                Err(e) => r == Err::<Chunk, PngError>(e),
            },
    {
        if value.len() < 8 {
            return Err(PngError::TruncatedInput);
        }
        let n = u32_from_be(value, 0);
        if value.len() < 12 || ((value.len() - 12) as u64) < (n as u64) {
            return Err(PngError::TruncatedInput);
        }
        let end: usize = 8 + n as usize;
        let chunk_type = ChunkType::from_bytes([value[4], value[5], value[6], value[7]]);
        let data = slice_to_vec(slice_subrange(value, 8, end));
        let stored = u32_from_be(value, end);
        proof {
            assert(chunk_type@ =~= value@.subrange(4, 8));
            assert(data@ =~= value@.subrange(8, end as int));
        }
        let chunk = Chunk::new(chunk_type, data);
        if chunk.crc == stored {
            Ok(chunk)
        } else {
            Err(PngError::ChecksumMismatch)
        }
    }
}

impl<'a> TryFrom<&'a [u8]> for Chunk {
    type Error = PngError;

    /// Reads one chunk from the start of `value`, as `Chunk::parse` does.
    fn try_from(value: &'a [u8]) -> (r: Result<Chunk, PngError>)
        ensures
            match parse_chunk(value@) {
                Ok(v) => r matches Ok(c) && c@ == v && c.wf(),
                Err(e) => r == Err::<Chunk, PngError>(e),
            },
    {
        Chunk::parse(value)
    }
}

impl<'a> vstd::std_specs::convert::TryFromSpecImpl<&'a [u8]> for Chunk {
    /// What `try_from` gives is stated in its own `ensures`, over the chunk's view;
    /// this spec is not used.
    open spec fn obeys_try_from_spec() -> bool {
        false
    }

    /// Not used: `obeys_try_from_spec` is false.
    open spec fn try_from_spec(v: &'a [u8]) -> Result<Chunk, PngError> {
        Err(PngError::TruncatedInput)
    }
}

} // verus!
