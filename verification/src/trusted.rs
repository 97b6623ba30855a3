//! The calls that leave this crate. Verus takes the contracts in this file
//! on trust: they restate what the called code does and are not proved.

use crate::framing::{frame, MAX_FIELD_LEN};
use vstd::prelude::*;
use vstd::utf8::{encode_utf8, valid_utf8};

verus! {

#[verifier::external_type_specification]
#[verifier::external_body]
pub struct ExBcsError(bcs::Error);

#[verifier::external_type_specification]
#[verifier::external_body]
pub struct ExFromUtf8Error(std::string::FromUtf8Error);

/// `bcs::to_bytes` on a slice of bytes.
///
/// BCS writes a sequence as its length, ULEB128-encoded, followed by its
/// elements, and a `u8` as itself; it refuses a sequence of more than
/// `bcs::MAX_SEQUENCE_LENGTH` elements, which is [`MAX_FIELD_LEN`]. A `str`
/// is written as the sequence of its UTF-8 bytes, so the outcome for
/// `s.as_bytes()` is the one for `s`.
#[verifier::external_body]
pub(crate) fn bcs_to_bytes(value: &[u8]) -> (r: Result<Vec<u8>, bcs::Error>)
    ensures
        r is Ok <==> value@.len() <= MAX_FIELD_LEN,
        r matches Ok(out) ==> out@ == frame(value@),
{
    bcs::to_bytes(value)
}

/// `String::from_utf8`: succeeds exactly on well-formed UTF-8, and the
/// string then consists of the bytes handed in.
#[verifier::external_body]
pub(crate) fn string_from_utf8(bytes: Vec<u8>) -> (r: Result<String, std::string::FromUtf8Error>)
    ensures
        r is Ok <==> valid_utf8(bytes@),
        r matches Ok(s) ==> encode_utf8(s@) == bytes@,
{
    String::from_utf8(bytes)
}

} // verus!
