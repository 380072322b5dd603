//! The ways in which decoding or editing a container can fail.
use vstd::prelude::*;

verus! {

/// Why an operation of the codec failed.
#[derive(Debug, Clone, Copy, PartialEq, Eq, Structural)]
pub enum PngError {
    /// The buffer ends before a length it declares.
    TruncatedInput,
    /// The first eight bytes are not the container signature.
    SignatureMismatch,
    /// A chunk's stored checksum differs from the one recomputed over its bytes.
    ChecksumMismatch,
    /// A tag text that is not four ASCII letters, or a payload too long for its length field.
    FormatError,
    /// A payload asked for as text is not valid UTF-8.
    EncodingError,
    /// No chunk carries the requested tag.
    NotFound,
}

} // verus!
