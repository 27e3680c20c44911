//! What parsing makes of serialized frames: the frame itself, `Incomplete` for
//! every shorter prefix, and `Invalid` once a length header is damaged.

use vstd::prelude::*;
use vstd::utf8::{encode_utf8, encode_utf8_decode_utf8, encode_utf8_valid_utf8};
use crate::parser::number::{
    all_digits, decimal_digits, is_digit, lemma_decimal_digits, lemma_parse_signed_digits,
    parse_unsigned, signed_digits,
};
use crate::parser::resp::{
    crlf, crlf_at, first_crlf, is_first_crlf, lemma_first_crlf_is, lemma_first_crlf_none,
    null_length, spec_parse_bytes,
    spec_parse, spec_parse_items, spec_serialize, spec_serialize_all, Frame, ParseError,
    ARRAY_TAG, BULK_STRING_TAG, CR, INTEGER_TAG, LF, SIMPLE_STRING_TAG,
};

verus! {

/// Whether `frame` can be told apart from what follows it on the wire: no simple
/// string in it holds a line terminator, and every length in it fits in 64 bits.
pub open spec fn well_formed(frame: Frame) -> bool
    decreases frame,
{
    match frame {
        Frame::SimpleString(text) => forall|i: int| !crlf_at(encode_utf8(text), i),
        Frame::BulkString(data) => data.len() <= u64::MAX,
        Frame::NullBulkString => true,
        Frame::Integer(_) => true,
        Frame::Array(items) => items.len() <= u64::MAX && forall|i: int|
            0 <= i < items.len() ==> well_formed(#[trigger] items[i]),
    }
}

/// Whether each of `items` is well formed.
pub open spec fn all_well_formed(items: Seq<Frame>) -> bool {
    forall|i: int| 0 <= i < items.len() ==> well_formed(#[trigger] items[i])
}

/// The number of bytes that the tag and the first line of `frame` take on the
/// wire, line terminator included.
pub open spec fn first_line_len(frame: Frame) -> nat {
    match frame {
        Frame::SimpleString(text) => encode_utf8(text).len() + 3,
        Frame::BulkString(data) => decimal_digits(data.len()).len() + 3,
        Frame::NullBulkString => 5,
        Frame::Integer(n) => signed_digits(n as int).len() + 3,
        Frame::Array(items) => decimal_digits(items.len()).len() + 3,
    }
}

/// The tag of `frame`, what stands in its first line, and what comes after the
/// line terminator of that line.
pub open spec fn first_line(frame: Frame) -> (u8, Seq<u8>, Seq<u8>) {
    match frame {
        Frame::SimpleString(text) => (SIMPLE_STRING_TAG, encode_utf8(text), Seq::empty()),
        Frame::BulkString(data) => (
            BULK_STRING_TAG,
            decimal_digits(data.len()),
            data + crlf(),
        ),
        Frame::NullBulkString => (BULK_STRING_TAG, null_length(), Seq::empty()),
        Frame::Integer(n) => (INTEGER_TAG, signed_digits(n as int), Seq::empty()),
        Frame::Array(items) => (
            ARRAY_TAG,
            decimal_digits(items.len()),
            spec_serialize_all(items),
        ),
    }
}

/// A string of digits holds no line terminator.
pub proof fn lemma_digits_hold_no_crlf(digits: Seq<u8>)
    requires
        all_digits(digits),
    ensures
        forall|i: int| !crlf_at(digits, i),
{
    assert forall|i: int| !crlf_at(digits, i) by {
        if 0 <= i < digits.len() {
            assert(is_digit(digits[i]));
        }
    }
}

/// The text of a signed number holds no line terminator.
proof fn lemma_signed_digits_hold_no_crlf(n: int)
    ensures
        forall|i: int| !crlf_at(signed_digits(n), i),
{
    let text = signed_digits(n);
    if n < 0 {
        let digits = decimal_digits((-n) as nat);
        lemma_decimal_digits((-n) as nat);
        assert forall|i: int| !crlf_at(text, i) by {
            if 1 <= i < text.len() {
                assert(text[i] == digits[i - 1]);
                assert(is_digit(digits[i - 1]));
            }
        }
    } else {
        lemma_decimal_digits(n as nat);
        lemma_digits_hold_no_crlf(text);
    }
}

/// In a tag, a line without a line terminator in it, a line terminator and
/// anything after, the first line terminator is the one that ends the line.
pub proof fn lemma_line_first_crlf(tag: u8, body: Seq<u8>, tail: Seq<u8>)
    requires
        tag != CR,
        forall|i: int| !crlf_at(body, i),
    ensures
        ({
            let m = seq![tag] + body + crlf() + tail;
            &&& m.len() == body.len() + 3 + tail.len()
            &&& m[0] == tag
            &&& first_crlf(m) == Some(1 + body.len() as int)
            &&& m.subrange(1, 1 + body.len() as int) == body
            &&& m.skip(body.len() as int + 3) == tail
        }),
{
    let m = seq![tag] + body + crlf() + tail;
    let p = 1 + body.len() as int;
    assert(m[p] == CR && m[p + 1] == LF);
    assert(crlf_at(m, p));
    assert forall|j: int| 0 <= j < p implies !crlf_at(m, j) by {
        if j >= 1 {
            if j + 1 < p {
                assert(m[j] == body[j - 1]);
                assert(m[j + 1] == body[j]);
                assert(!crlf_at(body, j - 1));
            } else {
                assert(m[j + 1] == CR);
            }
        }
    }
    lemma_first_crlf_is(m, p);
    assert(m.subrange(1, p) =~= body);
    assert(m.skip(p + 2) =~= tail);
}

/// A line that is cut before the end of its line terminator holds none.
proof fn lemma_cut_line_holds_no_crlf(tag: u8, body: Seq<u8>, tail: Seq<u8>, k: int)
    requires
        tag != CR,
        forall|i: int| !crlf_at(body, i),
        0 <= k <= body.len() + 2,
    ensures
        first_crlf((seq![tag] + body + crlf() + tail).take(k)) is None,
{
    let m = seq![tag] + body + crlf() + tail;
    let cut = m.take(k);
    assert forall|j: int| !crlf_at(cut, j) by {
        if 0 <= j && j + 1 < cut.len() {
            assert(cut[j] == m[j]);
            assert(cut[j + 1] == m[j + 1]);
            if j >= 1 {
                if j + 1 < 1 + body.len() {
                    assert(m[j] == body[j - 1]);
                    assert(m[j + 1] == body[j]);
                    assert(!crlf_at(body, j - 1));
                } else {
                    assert(m[j + 1] == CR);
                }
            }
        }
    }
    lemma_first_crlf_none(cut);
}

/// Parsing a well-formed frame's bytes, whatever follows them, gives the frame back
/// and takes exactly its bytes.
pub proof fn lemma_parse_serialized(frame: Frame, tail: Seq<u8>)
    requires
        well_formed(frame),
    ensures
        spec_parse(spec_serialize(frame) + tail) == Ok::<(Frame, nat), ParseError>(
            (frame, spec_serialize(frame).len()),
        ),
    decreases frame, 0nat,
{
    let m = spec_serialize(frame) + tail;
    match frame {
        Frame::SimpleString(text) => {
            let body = encode_utf8(text);
            lemma_line_first_crlf(SIMPLE_STRING_TAG, body, tail);
            assert(m =~= seq![SIMPLE_STRING_TAG] + body + crlf() + tail);
            encode_utf8_valid_utf8(text);
            encode_utf8_decode_utf8(text);
        },
        Frame::BulkString(data) => {
            let header = decimal_digits(data.len());
            let rest = data + crlf() + tail;
            lemma_decimal_digits(data.len());
            lemma_digits_hold_no_crlf(header);
            lemma_line_first_crlf(BULK_STRING_TAG, header, rest);
            assert(m =~= seq![BULK_STRING_TAG] + header + crlf() + rest);
            assert(is_digit(header[0]));
            assert(header != null_length());
            assert(rest[data.len() as int] == CR);
            assert(rest[data.len() as int + 1] == LF);
            assert(rest.take(data.len() as int) =~= data);
        },
        Frame::NullBulkString => {
            let header = null_length();
            assert forall|i: int| !crlf_at(header, i) by {}
            lemma_line_first_crlf(BULK_STRING_TAG, header, tail);
            assert(m =~= seq![BULK_STRING_TAG] + header + crlf() + tail);
        },
        Frame::Integer(n) => {
            let body = signed_digits(n as int);
            lemma_signed_digits_hold_no_crlf(n as int);
            lemma_line_first_crlf(INTEGER_TAG, body, tail);
            assert(m =~= seq![INTEGER_TAG] + body + crlf() + tail);
            lemma_parse_signed_digits(n);
        },
        Frame::Array(items) => {
            let header = decimal_digits(items.len());
            let rest = spec_serialize_all(items) + tail;
            lemma_decimal_digits(items.len());
            lemma_digits_hold_no_crlf(header);
            lemma_line_first_crlf(ARRAY_TAG, header, rest);
            assert(m =~= seq![ARRAY_TAG] + header + crlf() + rest);
            lemma_parse_serialized_items(items, tail);
        },
    }
}

/// Parsing the bytes of well-formed frames, one after the other and whatever follows
/// them, gives the frames back and takes exactly their bytes.
pub proof fn lemma_parse_serialized_items(items: Seq<Frame>, tail: Seq<u8>)
    requires
        all_well_formed(items),
    ensures
        spec_parse_items(spec_serialize_all(items) + tail, items.len()) == Ok::<
            (Seq<Frame>, nat),
            ParseError,
        >((items, spec_serialize_all(items).len())),
    decreases items, 1nat,
{
    if items.len() == 0 {
        assert(items =~= Seq::<Frame>::empty());
    } else {
        let first = items[0];
        let others = items.drop_first();
        let head = spec_serialize(first);
        let rest = spec_serialize_all(others) + tail;
        let m = spec_serialize_all(items) + tail;
        assert(m =~= head + rest);
        assert(well_formed(first));
        lemma_parse_serialized(first, rest);
        assert forall|i: int| 0 <= i < others.len() implies well_formed(#[trigger] others[i]) by {
            assert(others[i] == items[i + 1]);
        }
        lemma_parse_serialized_items(others, tail);
        assert(m.skip(head.len() as int) =~= rest);
        assert(seq![first] + others =~= items);
    }
}

/// A frame that is cut in its first line is incomplete.
proof fn lemma_cut_first_line_is_incomplete(tag: u8, body: Seq<u8>, rest: Seq<u8>, k: int)
    requires
        tag == SIMPLE_STRING_TAG || tag == BULK_STRING_TAG || tag == INTEGER_TAG || tag
            == ARRAY_TAG,
        forall|i: int| !crlf_at(body, i),
        0 <= k <= body.len() + 2,
    ensures
        spec_parse((seq![tag] + body + crlf() + rest).take(k)) == Err::<(Frame, nat), ParseError>(
            ParseError::Incomplete,
        ),
{
    let whole = seq![tag] + body + crlf() + rest;
    if k > 0 {
        assert(whole.take(k)[0] == tag);
        lemma_cut_line_holds_no_crlf(tag, body, rest, k);
    }
}

/// A bulk string that is cut after its first line is incomplete.
proof fn lemma_cut_bulk_string_is_incomplete(data: Seq<u8>, k: int)
    requires
        data.len() <= u64::MAX,
        decimal_digits(data.len()).len() + 3 <= k < spec_serialize(Frame::BulkString(data)).len(),
    ensures
        spec_parse(spec_serialize(Frame::BulkString(data)).take(k)) == Err::<
            (Frame, nat),
            ParseError,
        >(ParseError::Incomplete),
{
    let s = spec_serialize(Frame::BulkString(data));
    let header = decimal_digits(data.len());
    let rest = data + crlf();
    let kept = rest.take(k - header.len() - 3);
    lemma_decimal_digits(data.len());
    lemma_digits_hold_no_crlf(header);
    assert(s =~= seq![BULK_STRING_TAG] + header + crlf() + rest);
    lemma_line_first_crlf(BULK_STRING_TAG, header, kept);
    assert(s.take(k) =~= seq![BULK_STRING_TAG] + header + crlf() + kept);
    assert(is_digit(header[0]));
    assert(header != null_length());
}

/// The first line of a well-formed frame, without the tag and the line terminator,
/// holds no line terminator, and the frame is its tag, that line and what comes after.
proof fn lemma_frame_starts_with_a_line(frame: Frame)
    requires
        well_formed(frame),
    ensures
        ({
            let (tag, body, rest) = first_line(frame);
            &&& tag == SIMPLE_STRING_TAG || tag == BULK_STRING_TAG || tag == INTEGER_TAG || tag
                == ARRAY_TAG
            &&& forall|i: int| !crlf_at(body, i)
            &&& spec_serialize(frame) == seq![tag] + body + crlf() + rest
            &&& first_line_len(frame) == body.len() + 3
        }),
{
    let (tag, body, rest) = first_line(frame);
    match frame {
        Frame::SimpleString(text) => {},
        Frame::NullBulkString => {
            assert forall|i: int| !crlf_at(null_length(), i) by {}
        },
        Frame::Integer(n) => {
            lemma_signed_digits_hold_no_crlf(n as int);
        },
        Frame::BulkString(data) => {
            lemma_decimal_digits(data.len());
            lemma_digits_hold_no_crlf(body);
        },
        Frame::Array(items) => {
            lemma_decimal_digits(items.len());
            lemma_digits_hold_no_crlf(body);
        },
    }
    assert(spec_serialize(frame) =~= seq![tag] + body + crlf() + rest);
}

/// Every strictly shorter prefix of a well-formed frame's bytes is incomplete.
pub proof fn lemma_prefix_incomplete(frame: Frame, k: int)
    requires
        well_formed(frame),
        0 <= k < spec_serialize(frame).len(),
    ensures
        spec_parse(spec_serialize(frame).take(k)) == Err::<(Frame, nat), ParseError>(
            ParseError::Incomplete,
        ),
    decreases frame, 0nat,
{
    let (tag, body, rest) = first_line(frame);
    lemma_frame_starts_with_a_line(frame);
    if k <= body.len() + 2 {
        lemma_cut_first_line_is_incomplete(tag, body, rest, k);
    } else {
        match frame {
            Frame::BulkString(data) => {
                lemma_cut_bulk_string_is_incomplete(data, k);
            },
            Frame::Array(items) => {
                let kept = rest.take(k - body.len() - 3);
                lemma_decimal_digits(items.len());
                lemma_line_first_crlf(ARRAY_TAG, body, kept);
                assert(spec_serialize(frame).take(k) =~= seq![ARRAY_TAG] + body + crlf() + kept);
                lemma_items_prefix_incomplete(items, k - body.len() - 3);
            },
            _ => {},
        }
    }
}

/// Every strictly shorter prefix of the bytes of well-formed frames lacks one of them.
pub proof fn lemma_items_prefix_incomplete(items: Seq<Frame>, k: int)
    requires
        all_well_formed(items),
        0 <= k < spec_serialize_all(items).len(),
    ensures
        spec_parse_items(spec_serialize_all(items).take(k), items.len()) == Err::<
            (Seq<Frame>, nat),
            ParseError,
        >(ParseError::Incomplete),
    decreases items, 1nat,
{
    let s = spec_serialize_all(items);
    let cut = s.take(k);
    if items.len() == 0 {
    } else {
        let first = items[0];
        let others = items.drop_first();
        let head = spec_serialize(first);
        let rest = spec_serialize_all(others);
        assert(s =~= head + rest);
        assert(well_formed(first));
        if k < head.len() {
            assert(cut =~= head.take(k));
            lemma_prefix_incomplete(first, k);
        } else {
            let kept = rest.take(k - head.len());
            assert(cut =~= head + kept);
            lemma_parse_serialized(first, kept);
            assert forall|i: int| 0 <= i < others.len() implies well_formed(
                #[trigger] others[i],
            ) by {
                assert(others[i] == items[i + 1]);
            }
            lemma_items_prefix_incomplete(others, k - head.len());
            assert(cut.skip(head.len() as int) =~= kept);
        }
    }
}

/// The first line terminator of a buffer is the first one of every longer buffer.
proof fn lemma_first_crlf_stays(buffer: Seq<u8>, more: Seq<u8>)
    requires
        first_crlf(buffer) is Some,
    ensures
        first_crlf(buffer + more) == first_crlf(buffer),
        ({
            let p = first_crlf(buffer).unwrap();
            &&& 0 <= p
            &&& p + 2 <= buffer.len()
            &&& (buffer + more).subrange(1, p) == buffer.subrange(1, p) || p < 1
        }),
{
    let p = choose|p: int| is_first_crlf(buffer, p);
    assert(is_first_crlf(buffer, p));
    let longer = buffer + more;
    assert(crlf_at(longer, p)) by {
        assert(longer[p] == buffer[p]);
        assert(longer[p + 1] == buffer[p + 1]);
    }
    assert forall|j: int| 0 <= j < p implies !crlf_at(longer, j) by {
        assert(longer[j] == buffer[j]);
        assert(longer[j + 1] == buffer[j + 1]);
        assert(!crlf_at(buffer, j));
    }
    lemma_first_crlf_is(longer, p);
    if p >= 1 {
        assert(longer.subrange(1, p) =~= buffer.subrange(1, p));
    }
}

/// A frame takes one byte at least, and no more than the buffer holds.
pub proof fn lemma_parse_bounds(buffer: Seq<u8>)
    ensures
        spec_parse(buffer) matches Ok((_, used)) ==> 0 < used <= buffer.len(),
    decreases buffer.len(), 0nat,
{
    if buffer.len() > 0 && first_crlf(buffer) is Some {
        let p = choose|p: int| is_first_crlf(buffer, p);
        assert(is_first_crlf(buffer, p));
        if buffer[0] == ARRAY_TAG {
            let header = buffer.subrange(1, p);
            if parse_unsigned(header, u64::MAX as nat) is Some && 1 <= p {
                let count = parse_unsigned(header, u64::MAX as nat).unwrap();
                lemma_items_bounds(buffer.skip(p + 2), count);
            }
        }
    }
}

/// The items of an array take no more than the buffer holds.
pub proof fn lemma_items_bounds(rest: Seq<u8>, count: nat)
    ensures
        spec_parse_items(rest, count) matches Ok((items, used)) ==> used <= rest.len()
            && items.len() == count,
    decreases rest.len(), 1 + count,
{
    if count > 0 {
        lemma_parse_bounds(rest);
        match spec_parse(rest) {
            Ok((first, used)) => {
                if used <= rest.len() {
                    lemma_items_bounds(rest.skip(used as int), (count - 1) as nat);
                }
            },
            Err(e) => {},
        }
    }
}

/// What has been parsed stays parsed: once a buffer holds a whole frame, or is
/// found invalid, nothing that comes in after changes the outcome. Only an
/// incomplete buffer is worth reading on for.
pub proof fn lemma_outcome_is_final(buffer: Seq<u8>, more: Seq<u8>)
    requires
        spec_parse(buffer) != Err::<(Frame, nat), ParseError>(ParseError::Incomplete),
    ensures
        spec_parse(buffer + more) == spec_parse(buffer),
    decreases buffer.len(), 0nat,
{
    let longer = buffer + more;
    assert(buffer.len() > 0);
    assert(longer[0] == buffer[0]);
    let tag = buffer[0];
    if tag == SIMPLE_STRING_TAG || tag == BULK_STRING_TAG || tag == INTEGER_TAG || tag
        == ARRAY_TAG {
        assert(first_crlf(buffer) is Some);
        lemma_first_crlf_stays(buffer, more);
        let p = first_crlf(buffer).unwrap();
        assert(p >= 1) by {
            let q = choose|q: int| is_first_crlf(buffer, q);
            assert(is_first_crlf(buffer, q));
        }
        let header = buffer.subrange(1, p);
        assert(longer.subrange(1, p) == header);
        if tag == BULK_STRING_TAG {
            if header != null_length() && parse_unsigned(header, u64::MAX as nat) is Some {
                let n = parse_unsigned(header, u64::MAX as nat).unwrap();
                let rest = buffer.skip(p + 2);
                let longer_rest = longer.skip(p + 2);
                assert(longer_rest =~= rest + more);
                assert(spec_parse_bytes(rest, n) != Err::<Seq<u8>, ParseError>(
                    ParseError::Incomplete,
                ));
                assert(n + 2 <= rest.len());
                assert(longer_rest[n as int] == rest[n as int]);
                assert(longer_rest[n as int + 1] == rest[n as int + 1]);
                assert(longer_rest.take(n as int) =~= rest.take(n as int));
            }
        } else if tag == ARRAY_TAG {
            if parse_unsigned(header, u64::MAX as nat) is Some {
                let count = parse_unsigned(header, u64::MAX as nat).unwrap();
                let rest = buffer.skip(p + 2);
                assert(longer.skip(p + 2) =~= rest + more);
                assert(spec_parse_items(rest, count) != Err::<(Seq<Frame>, nat), ParseError>(
                    ParseError::Incomplete,
                ));
                lemma_items_outcome_is_final(rest, count, more);
            }
        }
    }
}

/// What has been parsed of the items of an array stays parsed.
pub proof fn lemma_items_outcome_is_final(rest: Seq<u8>, count: nat, more: Seq<u8>)
    requires
        spec_parse_items(rest, count) != Err::<(Seq<Frame>, nat), ParseError>(
            ParseError::Incomplete,
        ),
    ensures
        spec_parse_items(rest + more, count) == spec_parse_items(rest, count),
    decreases rest.len(), 1 + count,
{
    if count > 0 {
        assert(spec_parse(rest) != Err::<(Frame, nat), ParseError>(ParseError::Incomplete));
        lemma_outcome_is_final(rest, more);
        lemma_parse_bounds(rest);
        match spec_parse(rest) {
            Ok((first, used)) => {
                assert(used <= rest.len());
                let left = rest.skip(used as int);
                assert((rest + more).skip(used as int) =~= left + more);
                assert(spec_parse_items(left, (count - 1) as nat) != Err::<
                    (Seq<Frame>, nat),
                    ParseError,
                >(ParseError::Incomplete));
                lemma_items_outcome_is_final(left, (count - 1) as nat, more);
            },
            Err(e) => {},
        }
    }
}

/// A well-formed frame parses to itself, and the parse takes all of its bytes.
pub proof fn theorem_parse_serialize(frame: Frame)
    requires
        well_formed(frame),
    ensures
        spec_parse(spec_serialize(frame)) == Ok::<(Frame, nat), ParseError>(
            (frame, spec_serialize(frame).len()),
        ),
{
    lemma_parse_serialized(frame, Seq::empty());
    assert(spec_serialize(frame) + Seq::<u8>::empty() =~= spec_serialize(frame));
}

/// Of two well-formed frames serialized one after the other, parsing gives the
/// first and takes its bytes; parsing what is left gives the second.
pub proof fn theorem_parse_concatenation(first: Frame, second: Frame)
    requires
        well_formed(first),
        well_formed(second),
    ensures
        ({
            let both = spec_serialize(first) + spec_serialize(second);
            &&& spec_parse(both) == Ok::<(Frame, nat), ParseError>(
                (first, spec_serialize(first).len()),
            )
            &&& spec_parse(both.skip(spec_serialize(first).len() as int)) == Ok::<
                (Frame, nat),
                ParseError,
            >((second, spec_serialize(second).len()))
        }),
{
    let both = spec_serialize(first) + spec_serialize(second);
    lemma_parse_serialized(first, spec_serialize(second));
    theorem_parse_serialize(second);
    assert(both.skip(spec_serialize(first).len() as int) =~= spec_serialize(second));
}

/// `bytes` with the byte `b` put in before index `at`.
pub open spec fn with_inserted(bytes: Seq<u8>, at: int, b: u8) -> Seq<u8> {
    bytes.take(at) + seq![b] + bytes.skip(at)
}

/// A number with a byte put into it that is no digit is no string of digits, and
/// holds no line terminator.
proof fn lemma_damaged_length(header: Seq<u8>, at: int, b: u8)
    requires
        all_digits(header),
        0 <= at <= header.len(),
        !is_digit(b),
    ensures
        !all_digits(with_inserted(header, at, b)),
        forall|i: int| !crlf_at(with_inserted(header, at, b), i),
        with_inserted(header, at, b).len() == header.len() + 1,
{
    let damaged = with_inserted(header, at, b);
    assert(damaged[at] == b);
    assert forall|i: int| 0 <= i < damaged.len() && i != at implies #[trigger] damaged[i] != CR
        && damaged[i] != LF by {
        let origin = if i < at {
            i
        } else {
            i - 1
        };
        assert(damaged[i] == header[origin]);
        assert(is_digit(header[origin]));
    }
    assert forall|i: int| !crlf_at(damaged, i) by {
        if 0 <= i && i + 1 < damaged.len() {
            if i == at {
                assert(damaged[i + 1] != LF);
            } else {
                assert(damaged[i] != CR);
            }
        }
    }
    assert(!is_digit(damaged[at]));
}

/// A damaged length spells `-1` only where a minus sign was put before the length `1`.
proof fn lemma_damaged_length_is_null(n: nat, at: int, b: u8)
    requires
        0 <= at <= decimal_digits(n).len(),
        with_inserted(decimal_digits(n), at, b) == null_length(),
    ensures
        n == 1,
        at == 0,
        b == 45,
{
    let header = decimal_digits(n);
    let damaged = with_inserted(header, at, b);
    lemma_decimal_digits(n);
    assert(damaged.len() == header.len() + 1);
    assert(header.len() == 1);
    if at == 0 {
        assert(damaged[0] == b);
        assert(damaged[1] == header[0]);
    } else {
        assert(damaged[0] == header[0]);
        assert(is_digit(header[0]));
    }
    if n >= 10 {
        lemma_decimal_digits(n / 10);
    }
}

/// A bulk string whose length is neither a number nor `-1` is invalid.
proof fn lemma_bad_length_invalid(tag: u8, header: Seq<u8>, rest: Seq<u8>)
    requires
        tag == BULK_STRING_TAG,
        !all_digits(header),
        header != null_length(),
        forall|i: int| !crlf_at(header, i),
    ensures
        spec_parse(seq![tag] + header + crlf() + rest) == Err::<(Frame, nat), ParseError>(
            ParseError::Invalid,
        ),
{
    lemma_line_first_crlf(tag, header, rest);
    assert(parse_unsigned(header, u64::MAX as nat) is None);
}

/// An array whose length is no number is invalid.
proof fn lemma_bad_array_length_invalid(header: Seq<u8>, rest: Seq<u8>)
    requires
        !all_digits(header),
        forall|i: int| !crlf_at(header, i),
    ensures
        spec_parse(seq![ARRAY_TAG] + header + crlf() + rest) == Err::<(Frame, nat), ParseError>(
            ParseError::Invalid,
        ),
{
    lemma_line_first_crlf(ARRAY_TAG, header, rest);
    assert(parse_unsigned(header, u64::MAX as nat) is None);
}

/// A byte put into the first line of a frame is a byte put into what stands
/// between the tag and the line terminator.
proof fn lemma_insert_into_first_line(tag: u8, header: Seq<u8>, rest: Seq<u8>, at: int, b: u8)
    requires
        1 <= at <= header.len() + 1,
    ensures
        with_inserted(seq![tag] + header + crlf() + rest, at, b) == seq![tag] + with_inserted(
            header,
            at - 1,
            b,
        ) + crlf() + rest,
{
    let line = seq![tag] + header;
    let after = crlf() + rest;
    let whole = line + after;
    assert(seq![tag] + header + crlf() + rest =~= whole);
    assert(whole.take(at) =~= line.take(at));
    assert(line.take(at) =~= seq![tag] + header.take(at - 1));
    assert(whole.skip(at) =~= line.skip(at) + after);
    assert(line.skip(at) =~= header.skip(at - 1));
    assert(with_inserted(whole, at, b) =~= seq![tag] + header.take(at - 1) + seq![b]
        + header.skip(at - 1) + after);
    assert(seq![tag] + with_inserted(header, at - 1, b) + crlf() + rest =~= seq![tag]
        + header.take(at - 1) + seq![b] + header.skip(at - 1) + after);
}

/// A bulk string with a byte that is no digit put into its length is invalid,
/// unless the length now spells `-1`.
proof fn lemma_damaged_bulk_string(data: Seq<u8>, at: int, b: u8)
    requires
        1 <= at <= decimal_digits(data.len()).len() + 1,
        !is_digit(b),
        !(data.len() == 1 && at == 1 && b == 45),
    ensures
        spec_parse(with_inserted(spec_serialize(Frame::BulkString(data)), at, b)) == Err::<
            (Frame, nat),
            ParseError,
        >(ParseError::Invalid),
{
    let header = decimal_digits(data.len());
    let rest = data + crlf();
    let damaged = with_inserted(header, at - 1, b);
    lemma_decimal_digits(data.len());
    lemma_damaged_length(header, at - 1, b);
    if damaged == null_length() {
        lemma_damaged_length_is_null(data.len(), at - 1, b);
    }
    assert(spec_serialize(Frame::BulkString(data)) =~= seq![BULK_STRING_TAG] + header + crlf()
        + rest);
    lemma_insert_into_first_line(BULK_STRING_TAG, header, rest, at, b);
    lemma_bad_length_invalid(BULK_STRING_TAG, damaged, rest);
}

/// An array with a byte that is no digit put into its length is invalid.
proof fn lemma_damaged_array(items: Seq<Frame>, at: int, b: u8)
    requires
        1 <= at <= decimal_digits(items.len()).len() + 1,
        !is_digit(b),
    ensures
        spec_parse(with_inserted(spec_serialize(Frame::Array(items)), at, b)) == Err::<
            (Frame, nat),
            ParseError,
        >(ParseError::Invalid),
{
    let header = decimal_digits(items.len());
    let rest = spec_serialize_all(items);
    let damaged = with_inserted(header, at - 1, b);
    lemma_decimal_digits(items.len());
    lemma_damaged_length(header, at - 1, b);
    assert(spec_serialize(Frame::Array(items)) =~= seq![ARRAY_TAG] + header + crlf() + rest);
    lemma_insert_into_first_line(ARRAY_TAG, header, rest, at, b);
    lemma_bad_array_length_invalid(damaged, rest);
}

/// A length of three bytes with a minus sign in it that is no line terminator
/// followed by one is neither a number nor `-1`, and holds no line terminator.
proof fn lemma_damaged_null_length(damaged: Seq<u8>, b: u8)
    requires
        damaged == seq![b, 45u8, 49u8] || damaged == seq![45u8, b, 49u8] || damaged == seq![
            45u8,
            49u8,
            b,
        ],
    ensures
        !all_digits(damaged),
        damaged != null_length(),
        forall|i: int| !crlf_at(damaged, i),
{
    assert(damaged.len() == 3);
    if damaged == seq![b, 45u8, 49u8] {
        assert(damaged[1] == 45);
        assert(damaged[2] == 49);
        assert(!is_digit(damaged[1]));
    } else if damaged == seq![45u8, b, 49u8] {
        assert(damaged[0] == 45);
        assert(damaged[2] == 49);
        assert(!is_digit(damaged[0]));
    } else {
        assert(damaged[0] == 45);
        assert(damaged[1] == 49);
        assert(!is_digit(damaged[0]));
    }
    assert forall|i: int| !crlf_at(damaged, i) by {
        if 0 <= i && i + 1 < damaged.len() {
            if i == 0 {
            } else {
                assert(i == 1);
            }
        }
    }
}

/// The null bulk string with any byte put into its length is invalid.
proof fn lemma_damaged_null(at: int, b: u8)
    requires
        1 <= at <= 3,
    ensures
        spec_parse(with_inserted(spec_serialize(Frame::NullBulkString), at, b)) == Err::<
            (Frame, nat),
            ParseError,
        >(ParseError::Invalid),
{
    let header = null_length();
    let rest = Seq::<u8>::empty();
    let damaged = with_inserted(header, at - 1, b);
    if at == 1 {
        assert(damaged =~= seq![b, 45u8, 49u8]);
    } else if at == 2 {
        assert(damaged =~= seq![45u8, b, 49u8]);
    } else {
        assert(damaged =~= seq![45u8, 49u8, b]);
    }
    lemma_damaged_null_length(damaged, b);
    assert(spec_serialize(Frame::NullBulkString) =~= seq![BULK_STRING_TAG] + header + crlf()
        + rest);
    lemma_insert_into_first_line(BULK_STRING_TAG, header, rest, at, b);
    lemma_bad_length_invalid(BULK_STRING_TAG, damaged, rest);
}

/// A byte that is no digit, put anywhere into the length header of a well-formed
/// bulk string or array, makes the frame invalid; so does any byte at all put into
/// the header of the null bulk string. The one exception is a minus sign put before
/// the length `1` of a bulk string, which spells the null bulk string.
pub proof fn theorem_damaged_length_header(frame: Frame, at: int, b: u8)
    requires
        well_formed(frame),
        frame is BulkString || frame is NullBulkString || frame is Array,
        1 <= at <= first_line_len(frame) - 2,
        frame is NullBulkString || !is_digit(b),
        !(frame matches Frame::BulkString(data) && data.len() == 1 && at == 1 && b == 45),
    ensures
        spec_parse(with_inserted(spec_serialize(frame), at, b)) == Err::<(Frame, nat), ParseError>(
            ParseError::Invalid,
        ),
{
    match frame {
        Frame::BulkString(data) => {
            lemma_damaged_bulk_string(data, at, b);
        },
        Frame::Array(items) => {
            lemma_damaged_array(items, at, b);
        },
        _ => {
            lemma_damaged_null(at, b);
        },
    }
}

} // verus!
