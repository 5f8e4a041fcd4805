//! Codec for the chunk-based layout of PNG files: validated four-byte chunk
//! types, checksummed chunks, and a container that parses, mutates and
//! re-serializes whole files.

pub mod args;
pub mod big_endian;
pub mod chunk;
pub mod chunk_type;
pub mod crc32;
pub mod error;
pub mod png;
pub mod text;
