//! CRC-32/ISO-HDLC, the checksum the PNG chunk layout protects each chunk
//! with. The specification is the reflected bit-at-a-time form of the
//! polynomial 0xEDB88320; the executable function mirrors it step by step.

use vstd::prelude::*;

verus! {

/// One shift-and-conditionally-xor round of the reflected CRC-32 polynomial.
pub open spec fn spec_crc_round(c: u32) -> u32 {
    if c & 1 == 1 {
        (c >> 1) ^ 0xEDB88320u32
    } else {
        c >> 1
    }
}

/// `n` rounds of [`spec_crc_round`].
pub open spec fn spec_crc_rounds(c: u32, n: nat) -> u32
    decreases n,
{
    if n == 0 {
        c
    } else {
        spec_crc_rounds(spec_crc_round(c), (n - 1) as nat)
    }
}

/// Folds one message byte into the running remainder: xor it into the low
/// 8 bits, then run 8 polynomial rounds.
pub open spec fn spec_crc_byte(c: u32, b: u8) -> u32 {
    spec_crc_rounds(c ^ (b as u32), 8)
}

/// The remainder after folding every byte of `s` into `c`, left to right.
pub open spec fn spec_crc_accum(c: u32, s: Seq<u8>) -> u32
    decreases s.len(),
{
    if s.len() == 0 {
        c
    } else {
        spec_crc_byte(spec_crc_accum(c, s.drop_last()), s.last())
    }
}

/// The CRC-32/ISO-HDLC checksum of `s`: fold into an all-ones register and
/// complement the result.
pub open spec fn spec_crc32(s: Seq<u8>) -> u32 {
    spec_crc_accum(0xFFFFFFFFu32, s) ^ 0xFFFFFFFFu32
}

/// Folds one byte into the running remainder.
fn crc_byte(c: u32, b: u8) -> (r: u32)
    ensures
        r == spec_crc_byte(c, b),
{
    let mut cur: u32 = c ^ (b as u32);
    let mut j: usize = 0;
    while j < 8
        invariant
            j <= 8,
            cur == spec_crc_rounds(c ^ (b as u32), j as nat),
        decreases 8 - j,
    {
        proof {
            lemma_crc_rounds_unfold_back(c ^ (b as u32), j as nat);
        }
        if cur & 1 == 1 {
            cur = (cur >> 1u32) ^ 0xEDB88320u32;
        } else {
            cur = cur >> 1u32;
        }
        j = j + 1;
    }
    cur
}

/// Appending rounds commutes with prepending them: `n + 1` rounds are one
/// round after `n` rounds as well as `n` rounds after one.
proof fn lemma_crc_rounds_unfold_back(c: u32, n: nat)
    ensures
        spec_crc_rounds(c, n + 1) == spec_crc_round(spec_crc_rounds(c, n)),
    decreases n,
{
    assert(spec_crc_rounds(c, n + 1) == spec_crc_rounds(spec_crc_round(c), n));
    if n > 0 {
        lemma_crc_rounds_unfold_back(spec_crc_round(c), (n - 1) as nat);
    }
}

/// The CRC-32 checksum over the concatenation of two byte sequences, as the
/// chunk layout computes it over the type code followed by the payload.
pub fn crc32_pair(a: &[u8], b: &[u8]) -> (r: u32)
    ensures
        r == spec_crc32(a@ + b@),
{
    let mut c: u32 = 0xFFFFFFFFu32;
    let mut i: usize = 0;
    while i < a.len()
        invariant
            i <= a@.len(),
            c == spec_crc_accum(0xFFFFFFFFu32, a@.take(i as int)),
        decreases a@.len() - i,
    {
        proof {
            assert(a@.take(i as int + 1).drop_last() =~= a@.take(i as int));
        }
        c = crc_byte(c, a[i]);
        i = i + 1;
    }
    proof {
        assert(a@.take(a@.len() as int) =~= a@);
        assert((a@ + b@).take(a@.len() as int) =~= a@);
    }
    let mut j: usize = 0;
    while j < b.len()
        invariant
            j <= b@.len(),
            c == spec_crc_accum(0xFFFFFFFFu32, (a@ + b@).take(a@.len() + j as int)),
        decreases b@.len() - j,
    {
        proof {
            assert((a@ + b@).take(a@.len() + j + 1 as int).drop_last() =~= (a@ + b@).take(a@.len() + j as int));
            assert((a@ + b@).take(a@.len() + j + 1 as int).last() == b@[j as int]);
        }
        c = crc_byte(c, b[j]);
        j = j + 1;
    }
    proof {
        assert((a@ + b@).take(a@.len() + b@.len() as int) =~= a@ + b@);
    }
    c ^ 0xFFFFFFFFu32
}

} // verus!
