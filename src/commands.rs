//! The four use cases, on the bytes of a file: embed a message, read it back,
//! remove a chunk, and list the chunks.
use vstd::prelude::*;
use vstd::slice::slice_to_vec;
use vstd::utf8::{decode_utf8, encode_utf8, valid_utf8};
use crate::args::{DecodeArgs, EncodeArgs, RemoveArgs};
use crate::chunk::{Chunk, ChunkView, chunk_crc};
use crate::chunk_type::{ChunkType, valid_tag_text};
use crate::error::PngError;
use crate::png::{Png, first_with_tag, parse_png, png_bytes};

verus! {

/// The container bytes `source` with a chunk of tag `tag` and payload `msg` added at
/// the end, or the error that stops it.
pub open spec fn encode_result(source: Seq<u8>, tag: Seq<u8>, msg: Seq<u8>) -> Result<
    Seq<u8>,
    PngError,
> {
    match parse_png(source) {
        Err(e) => Err(e),
        Ok(s) => if !valid_tag_text(tag) || msg.len() > u32::MAX {
            Err(PngError::FormatError)
        } else {
            Ok(png_bytes(s.push(ChunkView { tag, data: msg, crc: chunk_crc(tag, msg) })))
        },
    }
}

/// The text of the first chunk of tag `tag` in the container bytes `source`: none
/// where no chunk has that tag, or the error that stops it.
pub open spec fn decode_result(source: Seq<u8>, tag: Seq<u8>) -> Result<Option<Seq<char>>, PngError> {
    match parse_png(source) {
        Err(e) => Err(e),
        Ok(s) => if !valid_tag_text(tag) {
            Err(PngError::FormatError)
        } else {
            match first_with_tag(s, tag) {
                None => Ok(None),
                Some(i) => if valid_utf8(s[i].data) {
                    Ok(Some(decode_utf8(s[i].data)))
                } else {
                    Err(PngError::EncodingError)
                },
            }
        },
    }
}

/// The container bytes `source` without their first chunk of tag `tag`, or the error
/// that stops it.
pub open spec fn remove_result(source: Seq<u8>, tag: Seq<u8>) -> Result<Seq<u8>, PngError> {
    match parse_png(source) {
        Err(e) => Err(e),
        Ok(s) => if !valid_tag_text(tag) {
            Err(PngError::FormatError)
        } else {
            match first_with_tag(s, tag) {
                None => Err(PngError::NotFound),
                Some(i) => Ok(png_bytes(s.remove(i))),
            }
        },
    }
}

/// Adds the message of `args` as a new last chunk of the container `source`,
/// and returns the container's new bytes.
pub fn encode(args: &EncodeArgs, source: &[u8]) -> (r: Result<Vec<u8>, PngError>)
    ensures
        match encode_result(source@, encode_utf8(args.chunk_type@), encode_utf8(args.msg@)) {
            Ok(b) => r matches Ok(out) && out@ == b,
            Err(e) => r == Err::<Vec<u8>, PngError>(e),
        },
{
    let mut png = match Png::parse(source) {
        Ok(p) => p,
        Err(e) => return Err(e),
    };
    let chunk_type = match ChunkType::from_str(args.chunk_type.as_str()) {
        Ok(t) => t,
        Err(e) => return Err(e),
    };
    let msg = args.msg.as_str().as_bytes();
    if msg.len() as u64 > 0xFFFF_FFFFu64 {
        return Err(PngError::FormatError);
    }
    let chunk = Chunk::new(chunk_type, slice_to_vec(msg));
    png.append_chunk(chunk);
    Ok(png.as_bytes())
}

/// The text of the first chunk of type `args.chunk_type` in the container `source`;
/// `None` where there is no such chunk.
pub fn decode(args: &DecodeArgs, source: &[u8]) -> (r: Result<Option<String>, PngError>)
    ensures
        match decode_result(source@, encode_utf8(args.chunk_type@)) {
            Ok(Some(t)) => r matches Ok(Some(out)) && out@ == t,
            Ok(None) => r matches Ok(None),
            Err(e) => r == Err::<Option<String>, PngError>(e),
        },
{
    let png = match Png::parse(source) {
        Ok(p) => p,
        Err(e) => return Err(e),
    };
    let tag = args.chunk_type.as_str();
    match ChunkType::from_str(tag) {
        Ok(_) => {},
        Err(e) => return Err(e),
    }
    match png.chunk_by_type(tag) {
        Some(c) => match c.data_as_string() {
            Ok(s) => Ok(Some(s)),
            Err(e) => Err(e),
        },
        None => Ok(None),
    }
}

/// Removes the first chunk of type `args.chunk_type` from the container `source`,
/// and returns the container's new bytes; `NotFound` where there is no such chunk.
pub fn remove(args: &RemoveArgs, source: &[u8]) -> (r: Result<Vec<u8>, PngError>)
    ensures
        match remove_result(source@, encode_utf8(args.chunk_type@)) {
            Ok(b) => r matches Ok(out) && out@ == b,
            Err(e) => r == Err::<Vec<u8>, PngError>(e),
        },
{
    let mut png = match Png::parse(source) {
        Ok(p) => p,
        Err(e) => return Err(e),
    };
    let tag = args.chunk_type.as_str();
    match ChunkType::from_str(tag) {
        Ok(_) => {},
        Err(e) => return Err(e),
    }
    match png.remove_chunk(tag) {
        Ok(_) => Ok(png.as_bytes()),
        Err(e) => Err(e),
    }
}

} // verus!
