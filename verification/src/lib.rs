//! A verified codec for PNG chunk manipulation.
//!
//! A PNG file is a fixed 8-byte signature followed by a sequence of chunks:
//! length-prefixed, type-tagged, checksummed binary records. This crate
//! models that wire format exactly: [`ChunkType`] validates the 4-byte type
//! codes and exposes their bit-flag semantics, [`Chunk`] encodes and decodes
//! a single record, and [`Png`] holds the whole container and supports
//! lookup, append and remove by type. Every decoder states precisely on
//! which inputs it succeeds and which error each malformed input produces,
//! and serialization is proved to invert decoding.

mod chunk;
mod chunk_type;
mod crc32;
mod png;
mod text;
mod wire;

pub use chunk::Chunk;
pub use chunk::ChunkDecodingError;
pub use chunk::InvalidUtf8Error;
pub use chunk_type::ChunkType;
pub use chunk_type::ChunkTypeDecodingError;
pub use png::ChunkNotFoundError;
pub use png::Png;
pub use png::PngDecodingError;
