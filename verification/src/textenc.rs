//! Between byte strings on the wire and `String` values in the model.

use vstd::prelude::*;
use vstd::utf8::{valid_utf8, encode_utf8, encode_utf8_decode_utf8};

verus! {

/// Relies on std's `String::from_utf8`: it returns `Ok` exactly on valid
/// UTF-8, and the returned string's byte encoding is the input itself.
#[verifier::external_body]
pub fn bytes_to_string(v: Vec<u8>) -> (r: Option<String>)
    ensures
        (r matches Some(s) ==> encode_utf8(s@) == v@),
        r is Some <==> valid_utf8(v@),
{
    match String::from_utf8(v) {
        Ok(s) => Some(s),
        Err(_) => None,
    }
}

/// UTF-8 encoding is injective: two strings with the same bytes are the
/// same string.
pub proof fn lemma_encode_utf8_injective(a: Seq<char>, b: Seq<char>)
    requires
        encode_utf8(a) == encode_utf8(b),
    ensures
        a == b,
{
    encode_utf8_decode_utf8(a);
    encode_utf8_decode_utf8(b);
}

} // verus!
