//! Text fields on the wire: UTF-8 decoding of the venue and instrument
//! fields, and the well-formedness every text field must keep so that the
//! space separator and the `CR LF` delimiter stay unambiguous.

use crate::{CR, LF, SPACE};
use vstd::prelude::*;
use vstd::string::StringSliceAdditionalSpecFns;
use vstd::utf8::{
    decode_utf8, encode_utf8, encode_utf8_decode_utf8, is_leading_byte_width_1,
    partial_valid_utf8, partial_valid_utf8_extend_ascii_block, valid_utf8,
};

verus! {

/// A text field is wire-safe: non-empty, and its bytes contain neither the
/// field separator nor a delimiter byte.
pub open spec fn field_bytes_ok(b: Seq<u8>) -> bool {
    b.len() > 0 && forall|i: int|
        0 <= i < b.len() ==> #[trigger] b[i] != SPACE && b[i] != CR && b[i] != LF
}

/// A text value is wire-safe when its UTF-8 bytes are.
pub open spec fn field_text_ok(s: Seq<char>) -> bool {
    field_bytes_ok(encode_utf8(s))
}

/// Relies on std::str::from_utf8: it succeeds exactly on UTF-8 input, and
/// the returned string slice views the same bytes.
#[verifier::external_body]
fn bytes_as_str(v: &[u8]) -> (r: Option<&str>)
    ensures
        r is Some <==> valid_utf8(v@),
        r matches Some(s) ==> s.spec_bytes() == v@,
{
    match std::str::from_utf8(v) {
        Ok(s) => Some(s),
        Err(_) => None,
    }
}

/// Whether the bytes are valid UTF-8.
pub fn check_utf8(v: &[u8]) -> (b: bool)
    ensures
        b == valid_utf8(v@),
{
    bytes_as_str(v).is_some()
}

/// Decode a field's bytes into owned text, if they are valid UTF-8.
pub fn field_to_string(v: &[u8]) -> (r: Option<String>)
    ensures
        r is Some <==> valid_utf8(v@),
        r matches Some(s) ==> s@ == decode_utf8(v@) && encode_utf8(s@) == v@,
{
    match bytes_as_str(v) {
        Some(s) => {
            proof {
                encode_utf8_decode_utf8(s@);
            }
            Some(s.to_owned())
        },
        None => None,
    }
}

/// All-ASCII bytes are valid UTF-8.
pub proof fn lemma_ascii_valid_utf8(s: Seq<u8>)
    requires
        forall|i: int| 0 <= i < s.len() ==> #[trigger] s[i] < 128,
    ensures
        valid_utf8(s),
{
    assert(partial_valid_utf8(s, 0)) by {
        assert(s.subrange(0, 0) =~= Seq::<u8>::empty());
    }
    assert forall|i: int| 0 <= 0 <= i < s.len() implies #[trigger] is_leading_byte_width_1(
        s[i],
    ) by {
        assert(s[i] < 128);
    }
    partial_valid_utf8_extend_ascii_block(s, 0, s.len() as int);
    assert(s.subrange(0, s.len() as int) =~= s);
}

} // verus!
