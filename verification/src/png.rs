//! The whole container: the fixed 8-byte signature followed by an ordered
//! sequence of chunks, with parsing, lookup, insertion, removal, and
//! re-serialization.

use vstd::prelude::*;
use crate::chunk::Chunk;
use crate::chunk::ChunkModel;
use crate::chunk::chunk_model_wf;
use crate::chunk::lemma_chunk_bytes_of_decode;
use crate::chunk::lemma_decode_chunk_of_bytes;
use crate::chunk::spec_chunk_bytes;
use crate::chunk::spec_chunk_size;
use crate::chunk::spec_decode_chunk;
use crate::errors::Error;
use vstd::slice::slice_subrange;
use vstd::string::is_ascii_spec_bytes;

verus! {

/// The fixed 8-byte file signature every container starts with.
pub open spec fn spec_signature() -> Seq<u8> {
    seq![137u8, 80u8, 78u8, 71u8, 13u8, 10u8, 26u8, 10u8]
}

/// Parses the chunk area: one chunk after another until the bytes are
/// exactly exhausted. Any chunk failure propagates unchanged.
pub open spec fn spec_parse_chunks(s: Seq<u8>) -> Result<Seq<ChunkModel>, Error>
    decreases s.len(),
{
    if s.len() == 0 {
        Ok(Seq::empty())
    } else {
        match spec_decode_chunk(s) {
            Err(e) => Err(e),
            Ok(m) => match spec_parse_chunks(s.skip(spec_chunk_size(s))) {
                Err(e) => Err(e),
                Ok(ms) => Ok(seq![m] + ms),
            },
        }
    }
}

/// Parses a whole buffer: an exact signature, then the chunk area.
/// A buffer shorter than the signature fails first.
pub open spec fn spec_parse_png(s: Seq<u8>) -> Result<Seq<ChunkModel>, Error> {
    if s.len() < 8 {
        Err(Error::FileTooShort)
    } else if s.subrange(0, 8) != spec_signature() {
        Err(Error::InvalidHeader)
    } else {
        spec_parse_chunks(s.skip(8))
    }
}

/// The wire form of the chunk area: each chunk's bytes, in order.
pub open spec fn spec_chunks_bytes(ms: Seq<ChunkModel>) -> Seq<u8>
    decreases ms.len(),
{
    if ms.len() == 0 {
        Seq::empty()
    } else {
        spec_chunk_bytes(ms[0]) + spec_chunks_bytes(ms.drop_first())
    }
}

/// The wire form of a whole container: signature, then the chunk area.
pub open spec fn spec_png_bytes(ms: Seq<ChunkModel>) -> Seq<u8> {
    spec_signature() + spec_chunks_bytes(ms)
}

/// Does the chunk `m` carry the 4-character type code `t`?
pub open spec fn matches_type(m: ChunkModel, t: Seq<char>) -> bool {
    &&& t.len() == 4
    &&& m.ctype.len() == 4
    &&& forall|i: int| 0 <= i < 4 ==> #[trigger] m.ctype[i] as int == t[i] as int
}

/// The position of the first chunk of type `t`, in stored order.
pub open spec fn spec_first_match(ms: Seq<ChunkModel>, t: Seq<char>) -> Option<int>
    decreases ms.len(),
{
    if ms.len() == 0 {
        None
    } else if matches_type(ms[0], t) {
        Some(0)
    } else {
        match spec_first_match(ms.drop_first(), t) {
            None => None,
            Some(i) => Some(i + 1),
        }
    }
}

/// What [`spec_first_match`] means: the index it returns is a match and
/// everything before it is not; `None` means nothing matches.
pub proof fn lemma_first_match_characterization(ms: Seq<ChunkModel>, t: Seq<char>)
    ensures
        match spec_first_match(ms, t) {
            Some(i) => 0 <= i < ms.len() && matches_type(ms[i], t) && (forall|j: int|
                0 <= j < i ==> !matches_type(#[trigger] ms[j], t)),
            None => forall|j: int| 0 <= j < ms.len() ==> !matches_type(#[trigger] ms[j], t),
        },
    decreases ms.len(),
{
    if ms.len() > 0 && !matches_type(ms[0], t) {
        lemma_first_match_characterization(ms.drop_first(), t);
        assert(forall|j: int| 1 <= j < ms.len() ==> ms.drop_first()[j - 1] == #[trigger] ms[j]);
    }
}

/// The converse: a match at `i` with none before it is the first match.
pub proof fn lemma_first_match_at(ms: Seq<ChunkModel>, t: Seq<char>, i: int)
    requires
        0 <= i < ms.len(),
        matches_type(ms[i], t),
        forall|j: int| 0 <= j < i ==> !matches_type(#[trigger] ms[j], t),
    ensures
        spec_first_match(ms, t) == Some(i),
    decreases ms.len(),
{
    if i > 0 {
        assert(forall|j: int| 1 <= j < ms.len() ==> #[trigger] ms.drop_first()[j - 1] == ms[j]);
        lemma_first_match_at(ms.drop_first(), t, i - 1);
    }
}

/// The converse for `None`: when nothing matches there is no first match.
pub proof fn lemma_first_match_none(ms: Seq<ChunkModel>, t: Seq<char>)
    requires
        forall|j: int| 0 <= j < ms.len() ==> !matches_type(#[trigger] ms[j], t),
    ensures
        spec_first_match(ms, t) == None::<int>,
    decreases ms.len(),
{
    if ms.len() > 0 {
        assert(forall|j: int| 1 <= j < ms.len() ==> #[trigger] ms.drop_first()[j - 1] == ms[j]);
        lemma_first_match_none(ms.drop_first(), t);
    }
}

/// The ordered chunk sequence behind the fixed signature.
#[derive(Debug)]
pub struct Png {
    chunks: Vec<Chunk>,
}

impl View for Png {
    type V = Seq<ChunkModel>;

    closed spec fn view(&self) -> Seq<ChunkModel> {
        self.chunks@.map_values(|c: Chunk| c@)
    }
}

impl Png {
    /// Every held chunk is well formed.
    pub open spec fn wf(&self) -> bool {
        forall|i: int| 0 <= i < self@.len() ==> chunk_model_wf(#[trigger] self@[i])
    }

    /// An empty container: the signature and no chunks yet.
    pub fn new() -> (r: Png)
        ensures
            r@ == Seq::<ChunkModel>::empty(),
            r.wf(),
    {
        let r = Png { chunks: Vec::new() };
        proof {
            assert(r@ =~= Seq::<ChunkModel>::empty());
        }
        r
    }

    /// Parses a complete buffer, all-or-nothing, exactly as
    /// [`spec_parse_png`] states: signature first, then one chunk after
    /// another until the buffer is exhausted, in stored order.
    pub fn parse(bytes: &[u8]) -> (r: Result<Png, Error>)
        ensures
            spec_parse_png(bytes@) matches Ok(ms) ==> r matches Ok(p) && p@ == ms && p.wf(),
            spec_parse_png(bytes@) matches Err(e) ==> r matches Err(e2) && e2 == e,
    {
        if bytes.len() < 8 {
            return Err(Error::FileTooShort);
        }
        if bytes[0] != 137 || bytes[1] != 80 || bytes[2] != 78 || bytes[3] != 71 || bytes[4] != 13
            || bytes[5] != 10 || bytes[6] != 26 || bytes[7] != 10 {
            proof {
                assert(bytes@.subrange(0, 8) != spec_signature());
            }
            return Err(Error::InvalidHeader);
        }
        proof {
            assert(bytes@.subrange(0, 8) =~= spec_signature());
        }
        let mut chunks: Vec<Chunk> = Vec::new();
        let mut offset: usize = 8;
        proof {
            assert(chunks@.map_values(|c: Chunk| c@) =~= Seq::<ChunkModel>::empty());
        }
        while offset < bytes.len()
            invariant
                8 <= offset <= bytes@.len(),
                bytes@.subrange(0, 8) == spec_signature(),
                forall|i: int| 0 <= i < chunks@.len() ==> (#[trigger] chunks@[i]).wf(),
                spec_parse_chunks(bytes@.skip(8)) == (match spec_parse_chunks(
                    bytes@.skip(offset as int),
                ) {
                    Ok(ms) => Ok::<Seq<ChunkModel>, Error>(
                        chunks@.map_values(|c: Chunk| c@) + ms,
                    ),
                    Err(e) => Err(e),
                }),
            decreases bytes@.len() - offset,
        {
            let tail = slice_subrange(bytes, offset, bytes.len());
            proof {
                assert(tail@ =~= bytes@.skip(offset as int));
            }
            match Chunk::decode(tail) {
                Err(e) => {
                    proof {
                        assert(spec_parse_chunks(bytes@.skip(offset as int)) == Err::<
                            Seq<ChunkModel>,
                            Error,
                        >(e));
                    }
                    return Err(e);
                },
                Ok(c) => {
                    let len = c.length() as usize;
                    let consumed = 12 + len;
                    proof {
                        let old_acc = chunks@.map_values(|c: Chunk| c@);
                        assert(spec_chunk_size(tail@) == consumed);
                        assert(tail@.skip(consumed as int) =~= bytes@.skip(
                            offset as int + consumed as int,
                        ));
                        assert(chunks@.push(c).map_values(|c: Chunk| c@) =~= old_acc.push(c@));
                        if spec_parse_chunks(bytes@.skip(offset as int + consumed as int)) is Ok {
                            let ms = spec_parse_chunks(
                                bytes@.skip(offset as int + consumed as int),
                            )->Ok_0;
                            assert(old_acc.push(c@) + ms =~= old_acc + (seq![c@] + ms));
                        }
                    }
                    chunks.push(c);
                    offset = offset + consumed;
                },
            }
        }
        proof {
            assert(bytes@.skip(offset as int) =~= Seq::<u8>::empty());
            assert(chunks@.map_values(|c: Chunk| c@) + Seq::<ChunkModel>::empty() =~= chunks@
                .map_values(|c: Chunk| c@));
        }
        let ghost cs = chunks@;
        let p = Png { chunks };
        proof {
            assert forall|i: int| 0 <= i < p@.len() implies chunk_model_wf(#[trigger] p@[i]) by {
                assert(p@[i] == cs[i]@);
                assert(cs[i].wf());
            }
        }
        Ok(p)
    }

    /// Pushes a chunk to the end of the sequence; duplicates of a type may
    /// coexist.
    pub fn append_chunk(&mut self, chunk: Chunk)
        requires
            old(self).wf(),
            chunk.wf(),
        ensures
            final(self)@ == old(self)@.push(chunk@),
            final(self).wf(),
    {
        proof {
            assert(old(self).chunks@.push(chunk).map_values(|c: Chunk| c@) =~= old(self)@.push(
                chunk@,
            ));
        }
        self.chunks.push(chunk);
    }

    /// Removes and returns the first chunk of type `target`, in stored
    /// order; `NoSuchChunk` when none matches. Only one chunk is removed
    /// even if duplicates exist.
    pub fn remove_chunk(&mut self, target: &str) -> (r: Result<Chunk, Error>)
        requires
            old(self).wf(),
        ensures
            final(self).wf(),
            match spec_first_match(old(self)@, target@) {
                Some(i) => r matches Ok(c) && c@ == old(self)@[i] && final(self)@ == old(
                    self,
                )@.remove(i),
                None => r matches Err(e) && e == Error::NoSuchChunk && final(self)@ == old(self)@,
            },
    {
        let tb = match target_bytes(target) {
            Some(b) => b,
            None => {
                proof {
                    lemma_first_match_none(self@, target@);
                }
                return Err(Error::NoSuchChunk);
            },
        };
        let n = self.chunks.len();
        let mut i: usize = 0;
        while i < n
            invariant
                n == self.chunks@.len(),
                i <= n,
                self == old(self),
                old(self).wf(),
                tb@.len() == 4 && target@.len() == 4,
                forall|k: int| 0 <= k < 4 ==> #[trigger] tb@[k] as int == target@[k] as int,
                forall|j: int| 0 <= j < i ==> !matches_type(#[trigger] self@[j], target@),
            decreases n - i,
        {
            let hit = chunk_type_is(&self.chunks[i], &tb);
            proof {
                assert(self@[i as int] == self.chunks@[i as int]@);
            }
            if hit {
                proof {
                    assert(matches_type(self@[i as int], target@));
                    lemma_first_match_at(self@, target@, i as int);
                }
                let c = self.chunks.remove(i);
                proof {
                    assert(self.chunks@.map_values(|c: Chunk| c@) =~= old(self)@.remove(i as int));
                }
                return Ok(c);
            }
            proof {
                if matches_type(self@[i as int], target@) {
                    assert(self@[i as int].ctype =~= tb@);
                    assert(false);
                }
            }
            i = i + 1;
        }
        proof {
            lemma_first_match_none(self@, target@);
        }
        Err(Error::NoSuchChunk)
    }

    /// A borrow of the first chunk of type `target`, without removing it.
    pub fn chunk_by_type(&self, target: &str) -> (r: Option<&Chunk>)
        requires
            self.wf(),
        ensures
            match spec_first_match(self@, target@) {
                Some(i) => r matches Some(c) && c@ == self@[i],
                None => r is None,
            },
    {
        let tb = match target_bytes(target) {
            Some(b) => b,
            None => {
                proof {
                    lemma_first_match_none(self@, target@);
                }
                return None;
            },
        };
        let n = self.chunks.len();
        let mut i: usize = 0;
        while i < n
            invariant
                n == self.chunks@.len(),
                self.wf(),
                i <= n,
                tb@.len() == 4 && target@.len() == 4,
                forall|k: int| 0 <= k < 4 ==> #[trigger] tb@[k] as int == target@[k] as int,
                forall|j: int| 0 <= j < i ==> !matches_type(#[trigger] self@[j], target@),
            decreases n - i,
        {
            let hit = chunk_type_is(&self.chunks[i], &tb);
            proof {
                assert(self@[i as int] == self.chunks@[i as int]@);
            }
            if hit {
                proof {
                    assert(matches_type(self@[i as int], target@));
                    lemma_first_match_at(self@, target@, i as int);
                }
                return Some(&self.chunks[i]);
            }
            proof {
                if matches_type(self@[i as int], target@) {
                    assert(self@[i as int].ctype =~= tb@);
                    assert(false);
                }
            }
            i = i + 1;
        }
        proof {
            lemma_first_match_none(self@, target@);
        }
        None
    }

    /// The chunks in stored order.
    pub fn chunks(&self) -> (r: &Vec<Chunk>)
        ensures
            r@.map_values(|c: Chunk| c@) == self@,
    {
        &self.chunks
    }

    /// Serializes the container: the signature, then each chunk's wire
    /// form, concatenated in stored order.
    pub fn as_bytes(&self) -> (r: Vec<u8>)
        requires
            self.wf(),
        ensures
            r@ == spec_png_bytes(self@),
    {
        let mut out: Vec<u8> = Vec::new();
        out.push(137);
        out.push(80);
        out.push(78);
        out.push(71);
        out.push(13);
        out.push(10);
        out.push(26);
        out.push(10);
        proof {
            assert(out@ =~= spec_signature() + spec_chunks_bytes(self@.take(0)));
        }
        let n = self.chunks.len();
        let mut i: usize = 0;
        while i < n
            invariant
                n == self.chunks@.len(),
                self.wf(),
                i <= n,
                out@ == spec_signature() + spec_chunks_bytes(self@.take(i as int)),
            decreases n - i,
        {
            proof {
                assert(self.chunks@[i as int]@ == self@[i as int]);
            }
            let enc = self.chunks[i].encode();
            proof {
                lemma_chunks_bytes_push(self@.take(i as int), self@[i as int]);
                assert(self@.take(i as int).push(self@[i as int]) =~= self@.take(i + 1));
                assert((spec_signature() + spec_chunks_bytes(self@.take(i as int))) + enc@ =~= (
                spec_signature() + (spec_chunks_bytes(self@.take(i as int)) + spec_chunk_bytes(
                    self@[i as int],
                ))));
            }
            out.extend_from_slice(enc.as_slice());
            i = i + 1;
        }
        proof {
            assert(self@.take(n as int) =~= self@);
        }
        out
    }
}

/// The 4 bytes a 4-character ASCII target code stands for; `None` when no
/// well-formed chunk could possibly carry `target` as its type.
fn target_bytes(target: &str) -> (r: Option<[u8; 4]>)
    ensures
        r matches Some(b) ==> b@.len() == 4 && target@.len() == 4 && (forall|i: int|
            0 <= i < 4 ==> #[trigger] b@[i] as int == target@[i] as int),
        r is None ==> forall|m: ChunkModel|
            chunk_model_wf(m) ==> !matches_type(m, target@),
{
    if !target.is_ascii() {
        proof {
            assert forall|m: ChunkModel|
                chunk_model_wf(m) implies !matches_type(m, target@) by {
                if matches_type(m, target@) {
                    assert forall|i: int|
                        0 <= i < target@.len() implies '\0' <= #[trigger] target@[i] <= '\u{7f}' by {
                        assert(m.ctype[i] as int == target@[i] as int);
                        assert(crate::chunk_type::is_letter(m.ctype[i]));
                    }
                    assert(vstd::utf8::is_ascii_chars(target@));
                }
            }
        }
        return None;
    }
    proof {
        is_ascii_spec_bytes(target);
    }
    let b = target.as_bytes();
    if b.len() != 4 {
        return None;
    }
    Some([b[0], b[1], b[2], b[3]])
}

/// Does this chunk carry exactly the 4 type bytes `tb`?
fn chunk_type_is(c: &Chunk, tb: &[u8; 4]) -> (r: bool)
    ensures
        r == (c@.ctype == tb@),
{
    let cb = c.chunk_type().bytes();
    let r = cb[0] == tb[0] && cb[1] == tb[1] && cb[2] == tb[2] && cb[3] == tb[3];
    proof {
        if r {
            assert(c@.ctype =~= tb@);
        }
    }
    r
}

/// Appending one chunk appends exactly its wire form.
pub proof fn lemma_chunks_bytes_push(ms: Seq<ChunkModel>, m: ChunkModel)
    ensures
        spec_chunks_bytes(ms.push(m)) == spec_chunks_bytes(ms) + spec_chunk_bytes(m),
    decreases ms.len(),
{
    if ms.len() == 0 {
        assert(ms.push(m)[0] == m);
        assert(ms.push(m).drop_first() =~= Seq::<ChunkModel>::empty());
        assert(spec_chunks_bytes(ms.push(m).drop_first()) =~= Seq::<u8>::empty());
        assert(spec_chunks_bytes(ms.push(m)) =~= spec_chunks_bytes(ms) + spec_chunk_bytes(m));
    } else {
        assert(ms.push(m).drop_first() =~= ms.drop_first().push(m));
        lemma_chunks_bytes_push(ms.drop_first(), m);
        assert(spec_chunk_bytes(ms[0]) + (spec_chunks_bytes(ms.drop_first()) + spec_chunk_bytes(m))
            =~= (spec_chunk_bytes(ms[0]) + spec_chunks_bytes(ms.drop_first())) + spec_chunk_bytes(
            m,
        ));
    }
}

/// Round trip, serialize-then-parse direction: the byte stream that
/// serialization produces for any well-formed chunk sequence parses back to
/// exactly that sequence. Together with the contract of
/// [`Png::as_bytes`], a buffer produced by `as_bytes` always re-parses,
/// and serializing the result reproduces the buffer byte for byte.
pub proof fn lemma_parse_inverts_serialize(ms: Seq<ChunkModel>)
    requires
        forall|i: int| 0 <= i < ms.len() ==> chunk_model_wf(#[trigger] ms[i]),
    ensures
        spec_parse_png(spec_png_bytes(ms)) == Ok::<Seq<ChunkModel>, Error>(ms),
{
    let s = spec_png_bytes(ms);
    assert(s.subrange(0, 8) =~= spec_signature());
    assert(s.skip(8) =~= spec_chunks_bytes(ms));
    lemma_parse_chunks_inverts(ms);
}

/// The chunk-area half of the serialize-then-parse round trip.
#[verifier::rlimit(100)]
#[verifier::spinoff_prover]
proof fn lemma_parse_chunks_inverts(ms: Seq<ChunkModel>)
    requires
        forall|i: int| 0 <= i < ms.len() ==> chunk_model_wf(#[trigger] ms[i]),
    ensures
        spec_parse_chunks(spec_chunks_bytes(ms)) == Ok::<Seq<ChunkModel>, Error>(ms),
    decreases ms.len(),
{
    let s = spec_chunks_bytes(ms);
    if ms.len() == 0 {
        assert(s.len() == 0);
        assert(ms =~= Seq::<ChunkModel>::empty());
    } else {
        assert(forall|j: int|
            0 <= j < ms.drop_first().len() ==> #[trigger] ms.drop_first()[j] == ms[j + 1]);
        let rest = spec_chunks_bytes(ms.drop_first());
        assert(s == spec_chunk_bytes(ms[0]) + rest);
        lemma_decode_chunk_of_bytes(ms[0], rest);
        assert(s.len() > 0);
        assert(spec_decode_chunk(s) == Ok::<ChunkModel, Error>(ms[0]));
        assert(s.skip(spec_chunk_size(s)) =~= rest);
        lemma_parse_chunks_inverts(ms.drop_first());
        assert(seq![ms[0]] + ms.drop_first() =~= ms);
        assert(spec_parse_chunks(s) == Ok::<Seq<ChunkModel>, Error>(seq![ms[0]] + ms.drop_first()));
    }
}

/// Round trip, parse-then-serialize direction: a buffer that parses
/// successfully is reproduced byte for byte by serializing what it parsed
/// to, with no mutation in between.
pub proof fn lemma_serialize_inverts_parse(s: Seq<u8>)
    requires
        spec_parse_png(s) matches Ok(ms),
    ensures
        spec_png_bytes(spec_parse_png(s)->Ok_0) == s,
{
    lemma_chunks_bytes_of_parse(s.skip(8));
    assert(spec_signature() + s.skip(8) =~= s);
}

/// The chunk-area half of the parse-then-serialize round trip.
#[verifier::rlimit(60)]
proof fn lemma_chunks_bytes_of_parse(s: Seq<u8>)
    requires
        spec_parse_chunks(s) matches Ok(ms),
    ensures
        spec_chunks_bytes(spec_parse_chunks(s)->Ok_0) == s,
    decreases s.len(),
{
    if s.len() == 0 {
        assert(spec_chunks_bytes(spec_parse_chunks(s)->Ok_0) =~= s);
    } else {
        let m = spec_decode_chunk(s)->Ok_0;
        let size = spec_chunk_size(s);
        lemma_chunk_bytes_of_decode(s);
        lemma_chunks_bytes_of_parse(s.skip(size));
        let ms = spec_parse_chunks(s)->Ok_0;
        assert(ms == seq![m] + spec_parse_chunks(s.skip(size))->Ok_0);
        assert(ms[0] == m);
        assert(ms.drop_first() =~= spec_parse_chunks(s.skip(size))->Ok_0);
        assert(spec_chunk_bytes(m) + s.skip(size) =~= s);
    }
}

/// Duplicate handling: appending two chunks of one type to a container that
/// held none, then removing that type once, removes the first of the two and
/// leaves exactly one chunk of the type: the second one appended.
pub proof fn lemma_duplicate_then_remove(
    ms: Seq<ChunkModel>,
    c1: ChunkModel,
    c2: ChunkModel,
    t: Seq<char>,
)
    requires
        forall|j: int| 0 <= j < ms.len() ==> !matches_type(#[trigger] ms[j], t),
        matches_type(c1, t),
        matches_type(c2, t),
    ensures
        spec_first_match(ms.push(c1).push(c2), t) == Some(ms.len() as int),
        ms.push(c1).push(c2).remove(ms.len() as int) == ms.push(c2),
        spec_first_match(ms.push(c2), t) == Some(ms.len() as int),
        forall|j: int|
            0 <= j < ms.push(c2).len() && j != ms.len() ==> !matches_type(
                #[trigger] ms.push(c2)[j],
                t,
            ),
{
    let after = ms.push(c1).push(c2);
    assert(after[ms.len() as int] == c1);
    assert(forall|j: int| 0 <= j < ms.len() ==> after[j] == #[trigger] ms[j]);
    lemma_first_match_at(after, t, ms.len() as int);
    assert(after.remove(ms.len() as int) =~= ms.push(c2));
    lemma_first_match_at(ms.push(c2), t, ms.len() as int);
}

} // verus!
