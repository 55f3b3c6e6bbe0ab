//! One container unit: a type code, an opaque payload, and the CRC computed
//! over both. A chunk's wire form is length, type, data, CRC, with the
//! multi-byte fields big-endian.

use vstd::prelude::*;
use crate::chunk_type::ChunkType;
use crate::chunk_type::valid_type_bytes;
use crate::crc::crc32_pair;
use crate::crc::spec_crc32;
use crate::errors::Error;
use crate::text::utf8_to_string;
use crate::wire::lemma_u32_be_identity;
use crate::wire::lemma_u32_be_round_trip;
use crate::wire::push_u32_be;
use crate::wire::spec_u32_from_be;
use crate::wire::spec_u32_to_be;
use crate::wire::u32_from_be_at;
use vstd::slice::slice_subrange;
use vstd::slice::slice_to_vec;
use vstd::utf8::decode_utf8;
use vstd::utf8::valid_utf8;

verus! {

/// The mathematical content of one chunk: its type bytes, its payload, and
/// the CRC it carries.
#[verifier::ext_equal]
pub ghost struct ChunkModel {
    pub ctype: Seq<u8>,
    pub data: Seq<u8>,
    pub crc: u32,
}

/// A chunk is well formed when its type code is legal, its payload length
/// fits the 4-byte length field, and its CRC is the checksum of type and
/// payload.
pub open spec fn chunk_model_wf(m: ChunkModel) -> bool {
    &&& valid_type_bytes(m.ctype)
    &&& m.data.len() <= 0xFFFFFFFF
    &&& m.crc == spec_crc32(m.ctype + m.data)
}

/// The wire form of a chunk: 4-byte big-endian length, 4 type bytes, the
/// payload, and the 4-byte big-endian CRC.
pub open spec fn spec_chunk_bytes(m: ChunkModel) -> Seq<u8> {
    spec_u32_to_be(m.data.len() as u32) + m.ctype + m.data + spec_u32_to_be(m.crc)
}

/// What decoding one chunk from the front of `s` yields: the chunk, or the
/// one failure its framing forces.
pub open spec fn spec_decode_chunk(s: Seq<u8>) -> Result<ChunkModel, Error> {
    if s.len() < 12 {
        Err(Error::ChunkTooShort)
    } else {
        let l = spec_u32_from_be(s.subrange(0, 4)) as int;
        if 12 + l > s.len() {
            Err(Error::ChunkLengthInvalid)
        } else if !valid_type_bytes(s.subrange(4, 8)) {
            Err(Error::InvalidChunkType)
        } else {
            let t = s.subrange(4, 8);
            let d = s.subrange(8, 8 + l);
            let stored = spec_u32_from_be(s.subrange(8 + l, 12 + l));
            if spec_crc32(t + d) != stored {
                Err(Error::BadChunkCrc)
            } else {
                Ok(ChunkModel { ctype: t, data: d, crc: stored })
            }
        }
    }
}

/// How many bytes the chunk at the front of `s` occupies when decoding
/// succeeds.
pub open spec fn spec_chunk_size(s: Seq<u8>) -> int {
    12 + spec_u32_from_be(s.subrange(0, 4)) as int
}

/// One typed, CRC-protected container unit.
#[derive(Debug)]
pub struct Chunk {
    ctype: ChunkType,
    data: Vec<u8>,
    crc: u32,
}

impl View for Chunk {
    type V = ChunkModel;

    closed spec fn view(&self) -> ChunkModel {
        ChunkModel { ctype: self.ctype@, data: self.data@, crc: self.crc }
    }
}

impl Chunk {
    /// See [`chunk_model_wf`].
    pub open spec fn wf(&self) -> bool {
        chunk_model_wf(self@)
    }

    /// Builds a fresh chunk, computing its CRC over type and payload.
    pub fn new(chunk_type: ChunkType, data: Vec<u8>) -> (r: Chunk)
        requires
            chunk_type.wf(),
            data@.len() <= 0xFFFFFFFF,
        ensures
            r.wf(),
            r@ == (ChunkModel {
                ctype: chunk_type@,
                data: data@,
                crc: spec_crc32(chunk_type@ + data@),
            }),
    {
        let tb = chunk_type.bytes();
        let crc = crc32_pair(tb.as_slice(), data.as_slice());
        Chunk { ctype: chunk_type, data, crc }
    }

    /// Decodes one chunk from the front of `bytes`, validating framing, type
    /// code, and CRC exactly as [`spec_decode_chunk`] states.
    pub fn decode(bytes: &[u8]) -> (r: Result<Chunk, Error>)
        ensures
            spec_decode_chunk(bytes@) matches Ok(m) ==> r matches Ok(c) && c@ == m && c.wf(),
            spec_decode_chunk(bytes@) matches Err(e) ==> r matches Err(e2) && e2 == e,
    {
        if bytes.len() < 12 {
            return Err(Error::ChunkTooShort);
        }
        let l = u32_from_be_at(bytes, 0);
        if l as usize > bytes.len() - 12 {
            return Err(Error::ChunkLengthInvalid);
        }
        let lu = l as usize;
        let tarr = [bytes[4], bytes[5], bytes[6], bytes[7]];
        proof {
            assert(tarr@ =~= bytes@.subrange(4, 8));
        }
        let ctype = match ChunkType::from_bytes(tarr) {
            Ok(t) => t,
            Err(e) => {
                return Err(e);
            },
        };
        let data = slice_to_vec(slice_subrange(bytes, 8, 8 + lu));
        let stored = u32_from_be_at(bytes, 8 + lu);
        let computed = crc32_pair(slice_subrange(bytes, 4, 8), data.as_slice());
        if computed != stored {
            return Err(Error::BadChunkCrc);
        }
        let c = Chunk { ctype, data, crc: stored };
        proof {
            assert(c@ =~= spec_decode_chunk(bytes@)->Ok_0);
        }
        Ok(c)
    }

    /// Emits the wire form, reusing the CRC stored at construction or decode
    /// time rather than recomputing it.
    pub fn encode(&self) -> (r: Vec<u8>)
        requires
            self.wf(),
        ensures
            r@ == spec_chunk_bytes(self@),
    {
        let mut out: Vec<u8> = Vec::new();
        push_u32_be(&mut out, self.data.len() as u32);
        let tb = self.ctype.bytes();
        out.extend_from_slice(tb.as_slice());
        out.extend_from_slice(self.data.as_slice());
        push_u32_be(&mut out, self.crc);
        proof {
            assert(out@ =~= spec_chunk_bytes(self@));
        }
        out
    }

    /// Interprets the payload as UTF-8 text; `None` when it is not valid
    /// UTF-8 (a recoverable condition, not a structural error).
    pub fn data_as_text(&self) -> (r: Option<String>)
        ensures
            r matches Some(s) ==> valid_utf8(self@.data) && s@ == decode_utf8(self@.data),
            r is None ==> !valid_utf8(self@.data),
    {
        let copy = slice_to_vec(self.data.as_slice());
        utf8_to_string(copy)
    }

    /// The chunk's type code.
    pub fn chunk_type(&self) -> (r: &ChunkType)
        ensures
            r@ == self@.ctype,
    {
        &self.ctype
    }

    /// The payload bytes.
    pub fn data(&self) -> (r: &Vec<u8>)
        ensures
            r@ == self@.data,
    {
        &self.data
    }

    /// The payload length, as the 4-byte wire field carries it.
    pub fn length(&self) -> (r: u32)
        requires
            self.wf(),
        ensures
            r == self@.data.len(),
    {
        self.data.len() as u32
    }

    /// The stored CRC.
    pub fn crc(&self) -> (r: u32)
        ensures
            r == self@.crc,
    {
        self.crc
    }
}

/// Decoding inverts encoding: the wire form of a well-formed chunk, however
/// followed, decodes to exactly that chunk and occupies exactly its own
/// length.
pub proof fn lemma_decode_chunk_of_bytes(m: ChunkModel, rest: Seq<u8>)
    requires
        chunk_model_wf(m),
    ensures
        spec_decode_chunk(spec_chunk_bytes(m) + rest) == Ok::<ChunkModel, Error>(m),
        spec_chunk_size(spec_chunk_bytes(m) + rest) == spec_chunk_bytes(m).len(),
{
    let s = spec_chunk_bytes(m) + rest;
    let n = m.data.len() as int;
    lemma_u32_be_round_trip(m.data.len() as u32);
    lemma_u32_be_round_trip(m.crc);
    assert(s.subrange(0, 4) =~= spec_u32_to_be(m.data.len() as u32));
    assert(s.subrange(4, 8) =~= m.ctype);
    assert(s.subrange(8, 8 + n) =~= m.data);
    assert(s.subrange(8 + n, 12 + n) =~= spec_u32_to_be(m.crc));
    assert(spec_decode_chunk(s)->Ok_0 =~= m);
}

/// CRC sensitivity: corrupting the type or payload bytes of a decodable
/// wire chunk, while its length and CRC fields stay put and the type stays
/// legal, makes decoding fail with `BadChunkCrc` — unless the corrupted
/// bytes happen to produce the very same checksum (a CRC collision).
pub proof fn lemma_crc_detects_corruption(s: Seq<u8>, s2: Seq<u8>)
    requires
        spec_decode_chunk(s) matches Ok(m),
        s2.len() == s.len(),
        s2.subrange(0, 4) == s.subrange(0, 4),
        valid_type_bytes(s2.subrange(4, 8)),
        s2.subrange(
            8 + spec_u32_from_be(s.subrange(0, 4)) as int,
            12 + spec_u32_from_be(s.subrange(0, 4)) as int,
        ) == s.subrange(
            8 + spec_u32_from_be(s.subrange(0, 4)) as int,
            12 + spec_u32_from_be(s.subrange(0, 4)) as int,
        ),
        spec_crc32(
            s2.subrange(4, 8) + s2.subrange(8, 8 + spec_u32_from_be(s.subrange(0, 4)) as int),
        ) != spec_crc32(
            s.subrange(4, 8) + s.subrange(8, 8 + spec_u32_from_be(s.subrange(0, 4)) as int),
        ),
    ensures
        spec_decode_chunk(s2) == Err::<ChunkModel, Error>(Error::BadChunkCrc),
{
    let l = spec_u32_from_be(s.subrange(0, 4)) as int;
    assert(spec_u32_from_be(s2.subrange(0, 4)) as int == l);
    assert(spec_u32_from_be(s2.subrange(8 + l, 12 + l)) == spec_u32_from_be(
        s.subrange(8 + l, 12 + l),
    ));
}

/// Encoding inverts decoding: a successfully decoded chunk re-encodes to
/// exactly the bytes it was decoded from.
pub proof fn lemma_chunk_bytes_of_decode(s: Seq<u8>)
    requires
        spec_decode_chunk(s) matches Ok(m),
    ensures
        spec_chunk_bytes(spec_decode_chunk(s)->Ok_0) == s.subrange(0, spec_chunk_size(s)),
        12 <= spec_chunk_size(s) <= s.len(),
        chunk_model_wf(spec_decode_chunk(s)->Ok_0),
{
    let m = spec_decode_chunk(s)->Ok_0;
    let n = m.data.len() as int;
    lemma_u32_be_identity(s.subrange(0, 4));
    lemma_u32_be_identity(s.subrange(8 + n, 12 + n));
    assert(spec_chunk_bytes(m) =~= s.subrange(0, spec_chunk_size(s)));
}

} // verus!
