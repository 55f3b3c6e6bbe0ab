//! A PNG container codec.
//!
//! The library parses a byte stream into a sequence of typed, length-prefixed,
//! CRC-protected chunks, validates each chunk against the PNG chunk-layout
//! rules, supports lookup, insertion, and removal of chunks by type, and
//! re-serializes the structure back into a byte-exact PNG stream.

pub mod chunk;
pub mod chunk_type;
pub mod crc;
pub mod errors;
pub mod png;
pub mod text;
pub mod wire;
