//! A codec for PNG-like chunk containers: chunk tags with property bits,
//! checksummed chunks, and the container that orders them.
pub mod args;
pub mod bytes;
pub mod chunk;
pub mod chunk_type;
pub mod commands;
pub mod error;
pub mod png;
