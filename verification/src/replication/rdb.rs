//! The snapshot that a master sends to a replica that joins: always the same
//! empty one, framed by its length.

use vstd::prelude::*;
use vstd::utf8::encode_utf8;
use base64::Engine;
use crate::parser::number::{decimal_digits, push_unsigned};
use crate::parser::resp::{append_bytes, append_crlf, crlf, BULK_STRING_TAG};

verus! {

/// The empty snapshot in base64.
pub const EMPTY_RDB_BASE64_ENCODED: &'static str =
    "UkVESVMwMDEx+glyZWRpcy12ZXIFNy4yLjD6CnJlZGlzLWJpdHPAQPoFY3RpbWXCbQi8ZfoIdXNlZC1tZW3CsMQQAPoIYW9mLWJhc2XAAP/wbjv+wP9aog==";

/// What decoding `input` as standard base64, padded, gives: the bytes, or `None`
/// where `input` is no such text.
pub uninterp spec fn base64_standard_decode(input: Seq<u8>) -> Option<Seq<u8>>;

#[verifier::external_type_specification]
#[verifier::external_body]
pub struct ExDecodeError(base64::DecodeError);

/// Decodes `input` with `base64::engine::general_purpose::STANDARD.decode`.
///
/// Trusted: what the engine gives depends on the bytes of `input` alone; that is
/// all this contract says of it, by giving the outcome a name.
#[verifier::external_body]
fn decode_standard(input: &[u8]) -> (r: Result<Vec<u8>, base64::DecodeError>)
    ensures
        match r {
            Ok(bytes) => base64_standard_decode(input@) == Some(bytes@),
            Err(_) => base64_standard_decode(input@) is None,
        },
{
    base64::engine::general_purpose::STANDARD.decode(input)
}

/// The bytes of the empty snapshot.
pub open spec fn spec_empty_rdb() -> Option<Seq<u8>> {
    base64_standard_decode(encode_utf8(EMPTY_RDB_BASE64_ENCODED@))
}

/// The empty snapshot; `None` where its base64 text does not decode.
pub fn get_empty_rdb() -> (r: Option<Vec<u8>>)
    ensures
        match spec_empty_rdb() {
            Some(bytes) => r matches Some(rdb) && rdb@ == bytes,
            None => r is None,
        },
{
    match decode_standard(EMPTY_RDB_BASE64_ENCODED.as_bytes()) {
        Ok(rdb) => Some(rdb),
        Err(_) => None,
    }
}

/// A snapshot as it goes over the wire: its length on a line, then its bytes, with
/// no line terminator after them.
pub open spec fn spec_serialize_rdb(rdb: Seq<u8>) -> Seq<u8> {
    seq![BULK_STRING_TAG] + decimal_digits(rdb.len()) + crlf() + rdb
}

/// Frames `rdb` for the wire.
pub fn serialize_rdb(rdb: &[u8]) -> (r: Vec<u8>)
    ensures
        r@ == spec_serialize_rdb(rdb@),
{
    let mut out: Vec<u8> = Vec::new();
    out.push(BULK_STRING_TAG);
    push_unsigned(&mut out, rdb.len() as u64);
    append_crlf(&mut out);
    append_bytes(&mut out, rdb);
    assert(out@ =~= spec_serialize_rdb(rdb@));
    out
}

} // verus!
