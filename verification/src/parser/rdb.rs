//! The snapshot payload: a length line and that many bytes, with no line
//! terminator after them. It looks like the start of a bulk string and is none.

use vstd::prelude::*;
use vstd::slice::slice_subrange;
use crate::parser::number::{bytes_to_unsigned, decimal_digits, lemma_decimal_digits, parse_unsigned};
use crate::parser::resp::{
    copy_bytes, crlf, find_first_crlf, first_crlf, ParseError, BULK_STRING_TAG,
};
use crate::parser::roundtrip::{lemma_digits_hold_no_crlf, lemma_line_first_crlf};
use crate::replication::rdb::spec_serialize_rdb;

verus! {

/// A snapshot and the number of bytes that its frame took.
pub struct RdbParseResult {
    pub rdb: Vec<u8>,
    pub len: usize,
}

/// The snapshot payload that starts `message`, and the number of bytes that it takes.
pub open spec fn spec_parse_rdb_payload(message: Seq<u8>) -> Result<(Seq<u8>, nat), ParseError> {
    if message.len() == 0 {
        Err(ParseError::Incomplete)
    } else if message[0] != BULK_STRING_TAG {
        Err(ParseError::Invalid)
    } else {
        match first_crlf(message) {
            None => Err(ParseError::Incomplete),
            Some(p) => match parse_unsigned(message.subrange(1, p), u64::MAX as nat) {
                None => Err(ParseError::Invalid),
                Some(n) => if p + 2 + n > message.len() {
                    Err(ParseError::Incomplete)
                } else {
                    Ok((message.subrange(p + 2, p + 2 + n), (p + 2 + n) as nat))
                },
            },
        }
    }
}

/// Parses the snapshot payload that starts `message`.
pub fn parse_rdb_payload(message: &[u8]) -> (r: Result<RdbParseResult, ParseError>)
    ensures
        match spec_parse_rdb_payload(message@) {
            Ok((rdb, used)) => r matches Ok(result) && result.rdb@ == rdb && result.len == used,
            Err(e) => r matches Err(f) && f == e,
        },
        r matches Ok(result) ==> 0 < result.len <= message@.len(),
{
    if message.len() == 0 {
        return Err(ParseError::Incomplete);
    }
    if message[0] != BULK_STRING_TAG {
        return Err(ParseError::Invalid);
    }
    let p: usize = match find_first_crlf(message) {
        None => {
            return Err(ParseError::Incomplete);
        },
        Some(p) => p,
    };
    let n: u64 = match bytes_to_unsigned(slice_subrange(message, 1, p)) {
        None => {
            return Err(ParseError::Invalid);
        },
        Some(n) => n,
    };
    let start: usize = p + 2;
    if n > (message.len() - start) as u64 {
        return Err(ParseError::Incomplete);
    }
    let end: usize = start + n as usize;
    Ok(RdbParseResult { rdb: copy_bytes(slice_subrange(message, start, end)), len: end })
}

/// Parsing a framed snapshot, whatever follows it, gives the snapshot back and
/// takes exactly its frame: what follows is left for the next parse.
pub proof fn lemma_parse_serialized_rdb(rdb: Seq<u8>, tail: Seq<u8>)
    requires
        rdb.len() <= u64::MAX,
    ensures
        spec_parse_rdb_payload(spec_serialize_rdb(rdb) + tail) == Ok::<(Seq<u8>, nat), ParseError>(
            (rdb, spec_serialize_rdb(rdb).len()),
        ),
{
    let header = decimal_digits(rdb.len());
    let m = spec_serialize_rdb(rdb) + tail;
    lemma_decimal_digits(rdb.len());
    lemma_digits_hold_no_crlf(header);
    lemma_line_first_crlf(BULK_STRING_TAG, header, rdb + tail);
    assert(m =~= seq![BULK_STRING_TAG] + header + crlf() + (rdb + tail));
    let p = 1 + header.len() as int;
    assert(m.subrange(p + 2, p + 2 + rdb.len()) =~= rdb);
}

} // verus!
