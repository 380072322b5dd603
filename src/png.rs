//! The container: a fixed signature followed by an ordered sequence of chunks.
use vstd::prelude::*;
use vstd::slice::slice_subrange;
use vstd::string::StringSliceAdditionalSpecFns;
use crate::chunk::{
    Chunk, ChunkView, chunk_bytes, chunk_view_wf, lemma_chunk_bytes_len, lemma_parse_chunk_prefix,
    parse_chunk,
};
use crate::chunk_type::ChunkType;
use crate::error::PngError;

verus! {

/// The eight bytes every container starts with.
pub const STANDARD_HEADER: [u8; 8] = [137, 80, 78, 71, 13, 10, 26, 10];

/// The signature, as a sequence.
pub open spec fn signature() -> Seq<u8> {
    seq![137u8, 80u8, 78u8, 71u8, 13u8, 10u8, 26u8, 10u8]
}

/// The chunks serialized one after another, in order.
pub open spec fn chunks_bytes(s: Seq<ChunkView>) -> Seq<u8>
    decreases s.len(),
{
    if s.len() == 0 {
        Seq::empty()
    } else {
        chunk_bytes(s[0]) + chunks_bytes(s.drop_first())
    }
}

/// The serialized container: the signature, then every chunk in order.
pub open spec fn png_bytes(s: Seq<ChunkView>) -> Seq<u8> {
    signature() + chunks_bytes(s)
}

/// `r` with `pre` put in front of the chunks it holds; an error stays.
pub open spec fn prepend(pre: Seq<ChunkView>, r: Result<Seq<ChunkView>, PngError>) -> Result<
    Seq<ChunkView>,
    PngError,
> {
    match r {
        Ok(s) => Ok(pre + s),
        Err(e) => Err(e),
    }
}

/// What reading chunks one after another until `buf` is used up gives; the first
/// chunk that cannot be read decides the error.
pub open spec fn parse_chunks(buf: Seq<u8>) -> Result<Seq<ChunkView>, PngError>
    decreases buf.len(),
{
    if buf.len() == 0 {
        Ok(Seq::empty())
    } else {
        match parse_chunk(buf) {
            Ok(v) => if 12 + v.data.len() <= buf.len() {
                prepend(seq![v], parse_chunks(buf.subrange(12 + v.data.len() as int, buf.len() as int)))
            } else {
                Err(PngError::TruncatedInput)
            },
            Err(e) => Err(e),
        }
    }
}

/// What reading a whole container from `buf` gives.
pub open spec fn parse_png(buf: Seq<u8>) -> Result<Seq<ChunkView>, PngError> {
    if buf.len() < 8 {
        Err(PngError::TruncatedInput)
    } else if buf.subrange(0, 8) != signature() {
        Err(PngError::SignatureMismatch)
    } else {
        parse_chunks(buf.subrange(8, buf.len() as int))
    }
}

/// The index of the first chunk whose tag is `tag`, if any.
pub open spec fn first_with_tag(s: Seq<ChunkView>, tag: Seq<u8>) -> Option<int>
    decreases s.len(),
{
    if s.len() == 0 {
        None
    } else if s[0].tag == tag {
        Some(0)
    } else {
        match first_with_tag(s.drop_first(), tag) {
            Some(i) => Some(i + 1),
            None => None,
        }
    }
}

/// `first_with_tag` gives the first index whose tag matches, and none exactly
/// when no tag matches.
pub proof fn lemma_first_with_tag(s: Seq<ChunkView>, tag: Seq<u8>)
    ensures
        first_with_tag(s, tag) is None <==> forall|j: int| 0 <= j < s.len() ==> s[j].tag != tag,
        first_with_tag(s, tag) matches Some(i) ==> {
            &&& 0 <= i < s.len()
            &&& s[i].tag == tag
            &&& forall|j: int| 0 <= j < i ==> s[j].tag != tag
        },
    decreases s.len(),
{
    if s.len() > 0 {
        lemma_first_with_tag(s.drop_first(), tag);
        if s[0].tag != tag {
            if let Some(k) = first_with_tag(s.drop_first(), tag) {
                assert forall|j: int| 0 <= j < k + 1 implies s[j].tag != tag by {
                    if j > 0 {
                        assert(s.drop_first()[j - 1] == s[j]);
                    }
                }
            }
            assert forall|j: int| 0 <= j < s.len() && s[j].tag == tag implies first_with_tag(
                s,
                tag,
            ) is Some by {
                assert(s.drop_first()[j - 1] == s[j]);
            }
        }
    }
}

/// The serialized chunks of a sequence grown by one end with that chunk's bytes.
proof fn lemma_chunks_bytes_push(s: Seq<ChunkView>, v: ChunkView)
    ensures
        chunks_bytes(s.push(v)) == chunks_bytes(s) + chunk_bytes(v),
    decreases s.len(),
{
    if s.len() == 0 {
        assert(s.push(v).drop_first() =~= Seq::empty());
        assert(s.push(v)[0] == v);
        assert(chunks_bytes(s.push(v)) == chunk_bytes(v) + chunks_bytes(s.push(v).drop_first()));
        assert(chunks_bytes(s.push(v)) =~= chunks_bytes(s) + chunk_bytes(v));
    } else {
        lemma_chunks_bytes_push(s.drop_first(), v);
        assert(s.push(v).drop_first() =~= s.drop_first().push(v));
        assert(chunks_bytes(s.push(v)) =~= chunks_bytes(s) + chunk_bytes(v));
    }
}

/// Reading back serialized well-formed chunks gives them back, in order.
proof fn lemma_parse_chunks_round_trip(s: Seq<ChunkView>)
    requires
        forall|i: int| 0 <= i < s.len() ==> chunk_view_wf(#[trigger] s[i]),
    ensures
        parse_chunks(chunks_bytes(s)) == Ok::<Seq<ChunkView>, PngError>(s),
    decreases s.len(),
{
    if s.len() == 0 {
        assert(chunks_bytes(s) =~= Seq::<u8>::empty());
        assert(s =~= Seq::<ChunkView>::empty());
    } else {
        let v = s[0];
        let rest = chunks_bytes(s.drop_first());
        let b = chunks_bytes(s);
        assert(chunk_view_wf(v));
        lemma_parse_chunk_prefix(v, rest);
        lemma_chunk_bytes_len(v);
        assert(b.subrange(12 + v.data.len() as int, b.len() as int) =~= rest);
        lemma_parse_chunks_round_trip(s.drop_first());
        assert(seq![v] + s.drop_first() =~= s);
    }
}

/// A container of chunks.
pub struct Png {
    chunks: Vec<Chunk>,
}

impl View for Png {
    type V = Seq<ChunkView>;

    closed spec fn view(&self) -> Seq<ChunkView> {
        self.chunks@.map_values(|c: Chunk| c@)
    }
}

/// Whether the tag `t` is written as the bytes `b`.
fn tag_is(t: &ChunkType, b: &[u8]) -> (r: bool)
    ensures
        r == (t@ == b@),
{
    proof {
        t.lemma_view_len();
    }
    if b.len() != 4 {
        return false;
    }
    let tb = t.bytes();
    let r = tb[0] == b[0] && tb[1] == b[1] && tb[2] == b[2] && tb[3] == b[3];
    proof {
        if r {
            assert(t@ =~= b@);
        }
    }
    r
}

impl Png {
    /// Every chunk is well-formed.
    pub open spec fn wf(&self) -> bool {
        forall|i: int| 0 <= i < self@.len() ==> chunk_view_wf(#[trigger] self@[i])
    }

    /// The container holding `chunks`, in order.
    pub fn from_chunks(chunks: Vec<Chunk>) -> (r: Png)
        requires
            forall|i: int| 0 <= i < chunks@.len() ==> (#[trigger] chunks@[i]).wf(),
        ensures
            r@ == chunks@.map_values(|c: Chunk| c@),
            r.wf(),
    {
        Png { chunks }
    }

    /// The chunks, in order.
    pub fn chunks(&self) -> (r: &[Chunk])
        ensures
            r@.map_values(|c: Chunk| c@) == self@,
    {
        self.chunks.as_slice()
    }

    /// Adds `chunk` at the end.
    pub fn append_chunk(&mut self, chunk: Chunk)
        requires
            old(self).wf(),
            chunk.wf(),
        ensures
            final(self)@ == old(self)@.push(chunk@),
            final(self).wf(),
    {
        self.chunks.push(chunk);
        assert(self@ =~= old(self)@.push(chunk@));
    }

    /// The index of the first chunk whose tag is written as `chunk_type`.
    fn position(&self, chunk_type: &str) -> (r: Option<usize>)
        ensures
            r matches Some(i) ==> first_with_tag(self@, chunk_type.spec_bytes()) == Some(i as int),
            r is None ==> first_with_tag(self@, chunk_type.spec_bytes()) is None,
    {
        let b = chunk_type.as_bytes();
        let ghost tag = chunk_type.spec_bytes();
        proof {
            lemma_first_with_tag(self@, tag);
        }
        let mut i: usize = 0;
        while i < self.chunks.len()
            invariant
                b@ == tag,
                tag == chunk_type.spec_bytes(),
                i <= self.chunks@.len(),
                self@.len() == self.chunks@.len(),
                forall|j: int| 0 <= j < i ==> self@[j].tag != tag,
                first_with_tag(self@, tag) is None <==> forall|j: int|
                    0 <= j < self@.len() ==> self@[j].tag != tag,
                first_with_tag(self@, tag) matches Some(k) ==> {
                    &&& 0 <= k < self@.len()
                    &&& self@[k].tag == tag
                    &&& forall|j: int| 0 <= j < k ==> self@[j].tag != tag
                },
            decreases self.chunks@.len() - i,
        {
            if tag_is(self.chunks[i].chunk_type(), b) {
                proof {
                    assert(self@[i as int] == self.chunks@[i as int]@);
                    assert(self@[i as int].tag == tag);
                    assert(first_with_tag(self@, tag) is Some);
                    if let Some(k) = first_with_tag(self@, tag) {
                        if k < i {
                            assert(self@[k].tag != tag);
                        }
                        if k > i {
                            assert(self@[i as int].tag != tag);
                        }
                    }
                }
                return Some(i);
            }
            assert(self@[i as int] == self.chunks@[i as int]@);
            i += 1;
        }
        None
    }

    /// The first chunk whose tag is written as `chunk_type`, if any.
    pub fn chunk_by_type(&self, chunk_type: &str) -> (r: Option<&Chunk>)
        ensures
            match first_with_tag(self@, chunk_type.spec_bytes()) {
                Some(i) => r matches Some(c) && c@ == self@[i],
                None => r is None,
            },
    {
        match self.position(chunk_type) {
            Some(i) => {
                proof {
                    lemma_first_with_tag(self@, chunk_type.spec_bytes());
                }
                Some(&self.chunks[i])
            },
            None => None,
        }
    }

    /// Removes and returns the first chunk whose tag is written as `chunk_type`;
    /// `NotFound`, with nothing changed, where there is none.
    pub fn remove_chunk(&mut self, chunk_type: &str) -> (r: Result<Chunk, PngError>)
        requires
            old(self).wf(),
        ensures
            final(self).wf(),
            match first_with_tag(old(self)@, chunk_type.spec_bytes()) {
                Some(i) => r matches Ok(c) && c@ == old(self)@[i] && final(self)@ == old(
                    self,
                )@.remove(i),
                None => r == Err::<Chunk, PngError>(PngError::NotFound) && final(self)@ == old(
                    self,
                )@,
            },
    {
        match self.position(chunk_type) {
            Some(i) => {
                proof {
                    lemma_first_with_tag(self@, chunk_type.spec_bytes());
                }
                let c = self.chunks.remove(i);
                assert(self@ =~= old(self)@.remove(i as int));
                Ok(c)
            },
            None => Err(PngError::NotFound),
        }
    }

    /// The serialized container: the signature, then each chunk in order.
    pub fn as_bytes(&self) -> (r: Vec<u8>)
        ensures
            r@ == png_bytes(self@),
    {
        let mut out: Vec<u8> = Vec::new();
        let mut k: usize = 0;
        while k < 8
            invariant
                k <= 8,
                out@ == signature().subrange(0, k as int),
            decreases 8 - k,
        {
            out.push(STANDARD_HEADER[k]);
            k += 1;
            assert(out@ =~= signature().subrange(0, k as int));
        }
        assert(signature().subrange(0, 8) =~= signature());
        assert(chunks_bytes(self@.subrange(0, 0)) =~= Seq::<u8>::empty());
        let mut i: usize = 0;
        while i < self.chunks.len()
            invariant
                i <= self.chunks@.len(),
                self@.len() == self.chunks@.len(),
                out@ == signature() + chunks_bytes(self@.subrange(0, i as int)),
            decreases self.chunks@.len() - i,
        {
            let b = self.chunks[i].as_bytes();
            let mut j: usize = 0;
            let ghost before = out@;
            while j < b.len()
                invariant
                    j <= b@.len(),
                    out@ == before + b@.subrange(0, j as int),
                decreases b@.len() - j,
            {
                out.push(b[j]);
                j += 1;
                assert(out@ =~= before + b@.subrange(0, j as int));
            }
            proof {
                assert(b@.subrange(0, b@.len() as int) =~= b@);
                assert(self@[i as int] == self.chunks@[i as int]@);
                lemma_chunks_bytes_push(self@.subrange(0, i as int), self@[i as int]);
                assert(self@.subrange(0, i as int).push(self@[i as int]) =~= self@.subrange(
                    0,
                    i + 1,
                ));
                assert(out@ =~= signature() + chunks_bytes(self@.subrange(0, i + 1)));
            }
            i += 1;
        }
        assert(self@.subrange(0, self@.len() as int) =~= self@);
        out
    }

    /// Reads a whole container: the signature, then chunks until `buf` is used up.
    pub fn parse(buf: &[u8]) -> (r: Result<Png, PngError>)
        ensures
            match parse_png(buf@) {
                Ok(s) => r matches Ok(p) && p@ == s && p.wf(),
                Err(e) => r == Err::<Png, PngError>(e),
            },
    {
        if buf.len() < 8 {
            return Err(PngError::TruncatedInput);
        }
        let mut k: usize = 0;
        while k < 8
            invariant
                8 <= buf@.len(),
                k <= 8,
                forall|j: int| 0 <= j < k ==> buf@[j] == signature()[j],
            decreases 8 - k,
        {
            if buf[k] != STANDARD_HEADER[k] {
                proof {
                    assert(buf@.subrange(0, 8)[k as int] != signature()[k as int]);
                }
                return Err(PngError::SignatureMismatch);
            }
            k += 1;
        }
        assert(buf@.subrange(0, 8) =~= signature());
        let ghost whole = buf@.subrange(8, buf@.len() as int);
        let mut chunks: Vec<Chunk> = Vec::new();
        let mut pos: usize = 8;
        assert(whole =~= buf@.subrange(pos as int, buf@.len() as int));
        assert(chunks@.map_values(|c: Chunk| c@) + Seq::empty() =~= Seq::<ChunkView>::empty());
        while pos < buf.len()
            invariant
                8 <= pos <= buf@.len(),
                buf@.subrange(0, 8) == signature(),
                whole == buf@.subrange(8, buf@.len() as int),
                forall|i: int| 0 <= i < chunks@.len() ==> (#[trigger] chunks@[i]).wf(),
                parse_chunks(whole) == prepend(
                    chunks@.map_values(|c: Chunk| c@),
                    parse_chunks(buf@.subrange(pos as int, buf@.len() as int)),
                ),
            decreases buf@.len() - pos,
        {
            let rest = slice_subrange(buf, pos, buf.len());
            match Chunk::parse(rest) {
                Ok(c) => {
                    let ghost pre = chunks@.map_values(|c: Chunk| c@);
                    let ghost v = c@;
                    proof {
                        lemma_chunk_bytes_len(v);
                        let tail = rest@.subrange(12 + v.data.len() as int, rest@.len() as int);
                        assert(tail =~= buf@.subrange(
                            pos + 12 + v.data.len(),
                            buf@.len() as int,
                        ));
                        assert(pre.push(v) =~= chunks@.push(c).map_values(|c: Chunk| c@));
                        match parse_chunks(tail) {
                            Ok(t) => {
                                assert(pre + (seq![v] + t) =~= pre.push(v) + t);
                            },
                            Err(e) => {},
                        }
                    }
                    pos = pos + 12 + c.length() as usize;
                    chunks.push(c);
                },
                Err(e) => {
                    proof {
                        assert(rest@ == buf@.subrange(pos as int, buf@.len() as int));
                        assert(parse_chunks(rest@) == Err::<Seq<ChunkView>, PngError>(e));
                    }
                    return Err(e);
                },
            }
        }
        assert(buf@.subrange(pos as int, buf@.len() as int) =~= Seq::<u8>::empty());
        assert(chunks@.map_values(|c: Chunk| c@) + Seq::empty() =~= chunks@.map_values(
            |c: Chunk| c@,
        ));
        let p = Png { chunks };
        Ok(p)
    }
}

/// Round trip: reading back a serialized container gives the same chunks, in order.
pub proof fn lemma_png_round_trip(p: Png)
    requires
        p.wf(),
    ensures
        parse_png(png_bytes(p@)) == Ok::<Seq<ChunkView>, PngError>(p@),
{
    let s = p@;
    lemma_parse_chunks_round_trip(s);
    lemma_parse_png_signed(chunks_bytes(s));
}

/// A buffer that starts with the signature is read as the chunks that follow it.
proof fn lemma_parse_png_signed(rest: Seq<u8>)
    ensures
        parse_png(signature() + rest) == parse_chunks(rest),
{
    let b = signature() + rest;
    assert(b.subrange(0, 8) =~= signature());
    assert(b.subrange(8, b.len() as int) =~= rest);
}

/// A buffer shorter than a signature and a chunk's length and tag is refused with
/// `TruncatedInput`, where it is shorter than the signature or starts with it and
/// goes on.
pub proof fn lemma_short_buffer_truncated(buf: Seq<u8>)
    requires
        buf.len() < 16,
        buf.len() >= 8 ==> buf.subrange(0, 8) == signature() && buf.len() > 8,
    ensures
        parse_png(buf) == Err::<Seq<ChunkView>, PngError>(PngError::TruncatedInput),
{
}

} // verus!
