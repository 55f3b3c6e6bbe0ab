//! Validated 4-byte chunk type codes and their property bits.

use vstd::prelude::*;
use crate::errors::Error;
use crate::text::lemma_ascii_bytes_decode;
use crate::text::utf8_to_string;
use vstd::string::is_ascii_spec_bytes;

verus! {

/// Is `b` an ASCII letter (`A`-`Z` or `a`-`z`)?
pub open spec fn is_letter(b: u8) -> bool {
    (65 <= b <= 90) || (97 <= b <= 122)
}

/// Is `c` an ASCII letter?
pub open spec fn is_letter_char(c: char) -> bool {
    (65 <= c as int <= 90) || (97 <= c as int <= 122)
}

/// A legal chunk type code: exactly 4 bytes, each an ASCII letter.
pub open spec fn valid_type_bytes(s: Seq<u8>) -> bool {
    s.len() == 4 && (forall|i: int| 0 <= i < 4 ==> is_letter(#[trigger] s[i]))
}

/// Is bit 5 (the case bit, value `1 << 5`) of `b` set?
pub open spec fn spec_bit5(b: u8) -> bool {
    b & 0x20 != 0
}

/// A validated 4-byte chunk type code. Each of its four property bits is
/// bit 5 (the ASCII case bit) of the corresponding byte.
#[derive(Clone, Copy, Debug, PartialEq, Eq)]
pub struct ChunkType {
    code: [u8; 4],
}

impl View for ChunkType {
    type V = Seq<u8>;

    closed spec fn view(&self) -> Seq<u8> {
        self.code@
    }
}

impl ChunkType {
    /// The type code is 4 bytes, all ASCII letters.
    pub open spec fn wf(&self) -> bool {
        valid_type_bytes(self@)
    }

    /// Validates a 4-byte code: every byte must be an ASCII letter.
    pub fn from_bytes(value: [u8; 4]) -> (r: Result<ChunkType, Error>)
        ensures
            r matches Ok(t) ==> valid_type_bytes(value@) && t@ == value@,
            r matches Err(e) ==> !valid_type_bytes(value@) && e == Error::InvalidChunkType,
    {
        let mut i: usize = 0;
        while i < 4
            invariant
                i <= 4,
                forall|j: int| 0 <= j < i ==> is_letter(#[trigger] value@[j]),
            decreases 4 - i,
        {
            let b = value[i];
            if !((b >= 65 && b <= 90) || (b >= 97 && b <= 122)) {
                return Err(Error::InvalidChunkType);
            }
            i = i + 1;
        }
        Ok(ChunkType { code: value })
    }

    /// Validates a text code: it must be exactly 4 characters, all ASCII
    /// letters.
    pub fn from_str(s: &str) -> (r: Result<ChunkType, Error>)
        ensures
            r matches Ok(t) ==> s@.len() == 4 && (forall|i: int|
                0 <= i < 4 ==> is_letter_char(#[trigger] s@[i])) && t.wf() && t@.len() == 4 && (
            forall|i: int| 0 <= i < 4 ==> #[trigger] t@[i] as int == s@[i] as int),
            r matches Err(e) ==> e == Error::InvalidChunkType && !(s@.len() == 4 && (forall|i: int|
                0 <= i < 4 ==> is_letter_char(#[trigger] s@[i]))),
    {
        if !s.is_ascii() {
            proof {
                if s@.len() == 4 && (forall|i: int|
                    0 <= i < 4 ==> is_letter_char(#[trigger] s@[i])) {
                    assert forall|i: int|
                        0 <= i < s@.len() implies '\0' <= #[trigger] s@[i] <= '\u{7f}' by {
                        assert(is_letter_char(s@[i]));
                    }
                    assert(vstd::utf8::is_ascii_chars(s@));
                    assert(false);
                }
            }
            return Err(Error::InvalidChunkType);
        }
        proof {
            is_ascii_spec_bytes(s);
        }
        let b = s.as_bytes();
        if b.len() != 4 {
            return Err(Error::InvalidChunkType);
        }
        let code = [b[0], b[1], b[2], b[3]];
        proof {
            assert(forall|i: int| 0 <= i < 4 ==> #[trigger] code@[i] as int == s@[i] as int);
        }
        match Self::from_bytes(code) {
            Ok(t) => Ok(t),
            Err(e) => {
                proof {
                    if forall|i: int| 0 <= i < 4 ==> is_letter_char(#[trigger] s@[i]) {
                        assert forall|i: int| 0 <= i < 4 implies is_letter(
                            #[trigger] code@[i],
                        ) by {
                            assert(is_letter_char(s@[i]));
                        }
                        assert(valid_type_bytes(code@));
                        assert(false);
                    }
                }
                Err(e)
            },
        }
    }

    /// The 4 raw bytes of the code.
    pub fn bytes(&self) -> (r: [u8; 4])
        ensures
            r@ == self@,
    {
        self.code
    }

    /// The original 4 characters of the code, case preserved.
    pub fn to_string(&self) -> (r: String)
        requires
            self.wf(),
        ensures
            r@.len() == 4,
            forall|i: int| 0 <= i < 4 ==> #[trigger] r@[i] as int == self@[i] as int,
    {
        let mut v: Vec<u8> = Vec::new();
        v.push(self.code[0]);
        v.push(self.code[1]);
        v.push(self.code[2]);
        v.push(self.code[3]);
        proof {
            assert(v@ =~= self@);
            lemma_ascii_bytes_decode(v@);
        }
        match utf8_to_string(v) {
            Some(s) => s,
            None => String::new(),
        }
    }

    /// Bit 5 of byte `n` of the code.
    fn get_bit(&self, n: usize) -> (r: bool)
        requires
            n < 4,
        ensures
            r == spec_bit5(self@[n as int]),
    {
        self.code[n] & 32 != 0
    }

    /// Critical chunks have the ancillary bit (bit 5 of byte 0) clear.
    pub fn is_critical(&self) -> (r: bool)
        ensures
            r == !spec_bit5(self@[0]),
    {
        !self.get_bit(0)
    }

    /// Public chunks have the private bit (bit 5 of byte 1) clear.
    pub fn is_public(&self) -> (r: bool)
        ensures
            r == !spec_bit5(self@[1]),
    {
        !self.get_bit(1)
    }

    /// The reserved bit (bit 5 of byte 2) must be clear to be valid.
    pub fn is_reserved_bit_valid(&self) -> (r: bool)
        ensures
            r == !spec_bit5(self@[2]),
    {
        !self.get_bit(2)
    }

    /// Safe-to-copy chunks have bit 5 of byte 3 set.
    pub fn is_safe_to_copy(&self) -> (r: bool)
        ensures
            r == spec_bit5(self@[3]),
    {
        self.get_bit(3)
    }

    /// Checks the reserved-bit rule alone, nothing more.
    pub fn is_valid(&self) -> (r: bool)
        ensures
            r == !spec_bit5(self@[2]),
    {
        self.is_reserved_bit_valid()
    }
}

} // verus!
