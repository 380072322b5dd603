use pngme::args::{DecodeArgs, EncodeArgs, RemoveArgs};
use pngme::chunk::Chunk;
use pngme::chunk_type::ChunkType;
use pngme::commands::{decode, encode, remove};
use pngme::error::PngError;
use pngme::png::{Png, STANDARD_HEADER};

fn chunk(tag: &str, data: &[u8]) -> Chunk {
    Chunk::new(ChunkType::from_str(tag).unwrap(), data.to_vec())
}

fn sample_png() -> Png {
    Png::from_chunks(vec![
        chunk("FrSt", b"I am the first chunk"),
        chunk("miDl", b"I am another chunk"),
        chunk("LASt", b"I am the last chunk"),
    ])
}

#[test]
fn container_round_trip() {
    let png = sample_png();
    let bytes = png.as_bytes();
    assert_eq!(&bytes[..8], &STANDARD_HEADER);
    let back = Png::parse(&bytes).unwrap();
    assert_eq!(back.chunks().len(), 3);
    for (a, b) in back.chunks().iter().zip(png.chunks().iter()) {
        assert_eq!(a.as_bytes(), b.as_bytes());
    }
    assert_eq!(back.as_bytes(), bytes);
}

#[test]
fn empty_container_is_the_signature() {
    let png = Png::from_chunks(Vec::new());
    assert_eq!(png.as_bytes(), STANDARD_HEADER.to_vec());
    assert_eq!(Png::parse(&STANDARD_HEADER).unwrap().chunks().len(), 0);
}

#[test]
fn lookup_and_remove() {
    let mut png = Png::from_chunks(Vec::new());
    png.append_chunk(chunk("TEST", &[1, 2, 3]));
    let found = png.chunk_by_type("TEST").unwrap();
    assert_eq!(found.chunk_type().bytes(), *b"TEST");
    assert_eq!(found.data(), &[1, 2, 3]);
    let removed = png.remove_chunk("TEST").unwrap();
    assert_eq!(removed.data(), &[1, 2, 3]);
    assert!(png.chunk_by_type("TEST").is_none());
    assert_eq!(png.remove_chunk("TEST").err(), Some(PngError::NotFound));
}

#[test]
fn lookup_takes_the_first_match() {
    let mut png = sample_png();
    png.append_chunk(chunk("miDl", b"second"));
    assert_eq!(png.chunk_by_type("miDl").unwrap().data(), b"I am another chunk");
    let removed = png.remove_chunk("miDl").unwrap();
    assert_eq!(removed.data(), b"I am another chunk");
    assert_eq!(png.chunks().len(), 3);
    assert_eq!(png.chunks()[0].data(), b"I am the first chunk");
    assert_eq!(png.chunks()[1].data(), b"I am the last chunk");
    assert_eq!(png.chunk_by_type("miDl").unwrap().data(), b"second");
}

#[test]
fn lookup_is_case_sensitive() {
    let png = sample_png();
    assert!(png.chunk_by_type("frst").is_none());
    assert!(png.chunk_by_type("FrSt").is_some());
}

#[test]
fn wrong_signature_is_refused() {
    let mut bytes = sample_png().as_bytes();
    bytes[0] = 0;
    assert_eq!(Png::parse(&bytes).err(), Some(PngError::SignatureMismatch));
}

#[test]
fn short_buffers_are_truncated() {
    for n in 0..8 {
        let buf = &STANDARD_HEADER[..n];
        assert_eq!(Png::parse(buf).err(), Some(PngError::TruncatedInput));
    }
    for n in 9..16 {
        let mut buf = STANDARD_HEADER.to_vec();
        buf.resize(n, 0);
        assert_eq!(Png::parse(&buf).err(), Some(PngError::TruncatedInput));
    }
}

#[test]
fn partial_last_chunk_is_truncated() {
    let bytes = sample_png().as_bytes();
    assert_eq!(
        Png::parse(&bytes[..bytes.len() - 2]).err(),
        Some(PngError::TruncatedInput)
    );
}

#[test]
fn corrupted_chunk_fails_the_container() {
    let mut bytes = sample_png().as_bytes();
    bytes[8 + 8] ^= 0x01;
    assert_eq!(Png::parse(&bytes).err(), Some(PngError::ChecksumMismatch));
}

#[test]
fn embed_then_extract() {
    let source = Png::from_chunks(Vec::new()).as_bytes();
    let encode_args = EncodeArgs {
        file_path: String::from("in.png"),
        chunk_type: String::from("ruSt"),
        msg: String::from("hello"),
        outfile_path: None,
    };
    let encoded = encode(&encode_args, &source).unwrap();
    assert_eq!(encoded.len(), 8 + 12 + 5);
    let reparsed = Png::parse(&encoded).unwrap();
    assert_eq!(reparsed.chunks().len(), 1);
    let found = decode(
        &DecodeArgs { file_path: String::from("in.png"), chunk_type: String::from("ruSt") },
        &encoded,
    );
    assert_eq!(found, Ok(Some(String::from("hello"))));
    let missing = decode(
        &DecodeArgs { file_path: String::from("in.png"), chunk_type: String::from("NoNe") },
        &encoded,
    );
    assert_eq!(missing, Ok(None));
}

#[test]
fn encode_output_path_defaults() {
    let mut args = EncodeArgs {
        file_path: String::from("in.png"),
        chunk_type: String::from("ruSt"),
        msg: String::from("hello"),
        outfile_path: None,
    };
    assert_eq!(args.output_path(), String::from("encoded.png"));
    args.outfile_path = Some(String::from("out.png"));
    assert_eq!(args.output_path(), String::from("out.png"));
}

#[test]
fn encode_refuses_bad_tag_text() {
    let source = sample_png().as_bytes();
    let args = EncodeArgs {
        file_path: String::from("in.png"),
        chunk_type: String::from("ru5t"),
        msg: String::from("hello"),
        outfile_path: None,
    };
    assert_eq!(encode(&args, &source), Err(PngError::FormatError));
}

#[test]
fn encode_refuses_bad_container() {
    let args = EncodeArgs {
        file_path: String::from("in.png"),
        chunk_type: String::from("ruSt"),
        msg: String::from("hello"),
        outfile_path: None,
    };
    assert_eq!(encode(&args, &[1, 2, 3]), Err(PngError::TruncatedInput));
}

#[test]
fn decode_of_binary_payload_is_encoding_error() {
    let mut png = sample_png();
    png.append_chunk(chunk("BiNn", &[0xff, 0x00]));
    let args = DecodeArgs { file_path: String::from("in.png"), chunk_type: String::from("BiNn") };
    assert_eq!(decode(&args, &png.as_bytes()), Err(PngError::EncodingError));
}

#[test]
fn remove_command() {
    let source = sample_png().as_bytes();
    let args = RemoveArgs { file_path: String::from("in.png"), chunk_type: String::from("miDl") };
    let out = remove(&args, &source).unwrap();
    let png = Png::parse(&out).unwrap();
    assert_eq!(png.chunks().len(), 2);
    assert!(png.chunk_by_type("miDl").is_none());
    let absent = RemoveArgs { file_path: String::from("in.png"), chunk_type: String::from("ABSn") };
    assert_eq!(remove(&absent, &source), Err(PngError::NotFound));
}
