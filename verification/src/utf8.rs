//! Bytes to text.

use vstd::prelude::*;
use vstd::utf8::{decode_utf8, valid_utf8};

verus! {

/// `String::from_utf8`: the bytes as a string where they are valid UTF-8,
/// and nothing where they are not.
#[verifier::external_body]
pub(crate) fn decode(bytes: Vec<u8>) -> (r: Option<String>)
    ensures
        r is Some == valid_utf8(bytes@),
        r matches Some(text) ==> text@ == decode_utf8(bytes@),
{
    String::from_utf8(bytes).ok()
}

/// A copy of a slice.
fn copy(slice: &[u8]) -> (r: Vec<u8>)
    ensures
        r@ == slice@,
{
    let mut bytes: Vec<u8> = Vec::new();
    let mut i: usize = 0;
    while i < slice.len()
        invariant
            i <= slice.len(),
            bytes@ == slice@.subrange(0, i as int),
        decreases slice.len() - i,
    {
        bytes.push(slice[i]);
        assert(bytes@ =~= slice@.subrange(0, i + 1));
        i += 1;
    }
    assert(slice@.subrange(0, slice.len() as int) =~= slice@);
    bytes
}

/// The text that a slice of valid UTF-8 encodes.
pub fn convert_byte_slice_into_utf8(slice: &[u8]) -> (r: String)
    requires
        valid_utf8(slice@),
    ensures
        r@ == decode_utf8(slice@),
{
    decode(copy(slice)).unwrap()
}

/// The text that a slice encodes, where it is valid UTF-8.
pub fn try_convert_byte_slice_into_utf8(slice: &[u8]) -> (r: Option<String>)
    ensures
        r is Some == valid_utf8(slice@),
        r matches Some(text) ==> text@ == decode_utf8(slice@),
{
    decode(copy(slice))
}

} // verus!
