//! Turning byte payloads back into text.

use vstd::prelude::*;
use vstd::utf8::decode_utf8;
use vstd::utf8::is_leading_byte_width_1;
use vstd::utf8::valid_first_scalar;
use vstd::utf8::valid_utf8;

verus! {

/// Relies on `String::from_utf8`: it returns `Ok` exactly when the bytes are
/// a valid UTF-8 encoding, and then the string holds the decoded characters.
#[verifier::external_body]
pub(crate) fn utf8_to_string(v: Vec<u8>) -> (r: Option<String>)
    ensures
        r matches Some(s) ==> valid_utf8(v@) && s@ == decode_utf8(v@),
        r is None ==> !valid_utf8(v@),
{
    String::from_utf8(v).ok()
}

/// A sequence of ASCII bytes is valid UTF-8 and decodes to itself,
/// character for character.
pub proof fn lemma_ascii_bytes_decode(s: Seq<u8>)
    requires
        forall|i: int| 0 <= i < s.len() ==> #[trigger] s[i] < 128,
    ensures
        valid_utf8(s),
        decode_utf8(s).len() == s.len(),
        forall|i: int| 0 <= i < s.len() ==> #[trigger] decode_utf8(s)[i] as int == s[i] as int,
    decreases s.len(),
{
    if s.len() > 0 {
        let b = s[0];
        assert(is_leading_byte_width_1(b));
        assert(b & 0x7F == b) by (bit_vector)
            requires
                b < 128,
        ;
        assert(valid_first_scalar(s));
        let rest = s.subrange(1, s.len() as int);
        lemma_ascii_bytes_decode(rest);
        assert(valid_utf8(s));
        let c = (b as u32) as char;
        assert(c as int == b as int);
        assert(decode_utf8(s) == seq![c] + decode_utf8(rest));
    }
}

} // verus!
