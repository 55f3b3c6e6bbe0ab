//! The error taxonomy shared by the whole codec.

use vstd::prelude::*;

verus! {

/// Every way a parse, lookup, or removal can fail. The kinds are mutually
/// exclusive: each operation reports exactly one of them.
#[derive(Clone, Copy, Debug, PartialEq, Eq, Structural)]
pub enum Error {
    /// A 4-byte type code contains a byte that is not an ASCII letter.
    InvalidChunkType,
    /// Fewer bytes are available than the fixed 12-byte chunk framing requires.
    ChunkTooShort,
    /// A declared payload length does not fit the remaining buffer.
    ChunkLengthInvalid,
    /// The CRC computed over type and payload mismatches the stored CRC.
    BadChunkCrc,
    /// A removal or lookup asked for a chunk type that is not present.
    NoSuchChunk,
    /// The first 8 bytes of a buffer are not the PNG signature.
    InvalidHeader,
    /// A buffer is shorter than the 8-byte signature itself.
    FileTooShort,
}

impl Error {
    /// A human-readable description of the failure kind.
    pub fn message(&self) -> (r: &'static str)
        ensures
            r@ == match self {
                Error::InvalidChunkType => "Chunk type is not valid"@,
                Error::ChunkTooShort => "Chunk seems to be too short"@,
                Error::ChunkLengthInvalid => "Chunk length is not valid"@,
                Error::BadChunkCrc => "Bad CRC"@,
                Error::NoSuchChunk => "Could not find chunk with given type"@,
                Error::InvalidHeader => "Does not start with the PNG header"@,
                Error::FileTooShort => "File too short"@,
            },
    {
        match self {
            Error::InvalidChunkType => "Chunk type is not valid",
            Error::ChunkTooShort => "Chunk seems to be too short",
            Error::ChunkLengthInvalid => "Chunk length is not valid",
            Error::BadChunkCrc => "Bad CRC",
            Error::NoSuchChunk => "Could not find chunk with given type",
            Error::InvalidHeader => "Does not start with the PNG header",
            Error::FileTooShort => "File too short",
        }
    }
}

} // verus!
