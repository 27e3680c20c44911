//! RESP frames: the token type, its mathematical model and the byte codec.

use vstd::prelude::*;
use vstd::utf8::{decode_utf8, encode_utf8, valid_utf8};
use vstd::slice::slice_subrange;
use crate::parser::number::{
    bytes_to_signed, bytes_to_unsigned, decimal_digits, parse_signed, parse_unsigned,
    push_signed, push_unsigned, signed_digits,
};
use crate::text::text_of_bytes;

verus! {

/// The carriage-return byte that starts a line terminator.
pub const CR: u8 = 13;

/// The line-feed byte that ends a line terminator.
pub const LF: u8 = 10;

/// The leading byte of a simple string, `+`.
pub const SIMPLE_STRING_TAG: u8 = 43;

/// The leading byte of a bulk string, `$`.
pub const BULK_STRING_TAG: u8 = 36;

/// The leading byte of an integer, `:`.
pub const INTEGER_TAG: u8 = 58;

/// The leading byte of an array, `*`.
pub const ARRAY_TAG: u8 = 42;

/// A RESP frame as it is held in memory.
#[derive(Debug, PartialEq, Eq)]
pub enum Token {
    SimpleString(String),
    BulkString(Vec<u8>),
    NullBulkString,
    Integer(i64),
    Array(Vec<Token>),
}

/// The mathematical model of a RESP frame.
pub enum Frame {
    SimpleString(Seq<char>),
    BulkString(Seq<u8>),
    NullBulkString,
    Integer(i64),
    Array(Seq<Frame>),
}

/// Why a buffer did not yield a frame.
#[derive(Debug, PartialEq, Eq, Clone, Copy, Structural)]
pub enum ParseError {
    /// The bytes cannot start any frame: the connection is to be closed.
    Invalid,
    /// The bytes end before the frame does: more are to be read.
    Incomplete,
}

/// One parsed frame, held as the one token of `tokens` with its nesting as it came,
/// and the number of bytes that the frame took.
#[derive(Debug)]
pub struct ParseResult {
    pub tokens: Vec<Token>,
    pub len: usize,
}

/// The model of `token`.
pub open spec fn frame_of(token: Token) -> Frame
    decreases token,
{
    match token {
        Token::SimpleString(text) => Frame::SimpleString(text@),
        Token::BulkString(data) => Frame::BulkString(data@),
        Token::NullBulkString => Frame::NullBulkString,
        Token::Integer(n) => Frame::Integer(n),
        Token::Array(items) => Frame::Array(
            Seq::new(
                items@.len(),
                |i: int|
                    if 0 <= i < items@.len() {
                        frame_of(items@[i])
                    } else {
                        Frame::NullBulkString
                    },
            ),
        ),
    }
}

impl View for Token {
    type V = Frame;

    open spec fn view(&self) -> Frame {
        frame_of(*self)
    }
}

/// The models of a sequence of tokens.
pub open spec fn frames_of(tokens: Seq<Token>) -> Seq<Frame> {
    Seq::new(tokens.len(), |i: int| tokens[i]@)
}

/// An array token is modelled by the models of its items.
pub proof fn lemma_array_view(items: Vec<Token>)
    ensures
        Token::Array(items)@ == Frame::Array(frames_of(items@)),
{
    assert(frame_of(Token::Array(items))->Array_0 =~= frames_of(items@));
}

/// The two bytes that end a line.
pub open spec fn crlf() -> Seq<u8> {
    seq![CR, LF]
}

/// Whether `message` holds a line terminator at index `i`.
pub open spec fn crlf_at(message: Seq<u8>, i: int) -> bool {
    0 <= i && i + 1 < message.len() && message[i] == CR && message[i + 1] == LF
}

/// Whether the first line terminator of `message` stands at index `i`.
pub open spec fn is_first_crlf(message: Seq<u8>, i: int) -> bool {
    crlf_at(message, i) && forall|j: int| 0 <= j < i ==> !crlf_at(message, j)
}

/// The index of the first line terminator in `message`, if there is one.
pub open spec fn first_crlf(message: Seq<u8>) -> Option<int> {
    if exists|i: int| is_first_crlf(message, i) {
        Some(choose|i: int| is_first_crlf(message, i))
    } else {
        None
    }
}

/// The first line terminator is where the earliest one stands.
pub proof fn lemma_first_crlf_is(message: Seq<u8>, i: int)
    requires
        is_first_crlf(message, i),
    ensures
        first_crlf(message) == Some(i),
{
    let k = choose|k: int| is_first_crlf(message, k);
    assert(is_first_crlf(message, k));
    if k < i {
        assert(!crlf_at(message, k));
    }
    if i < k {
        assert(!crlf_at(message, i));
    }
}

/// A message without any line terminator has no first one.
pub proof fn lemma_first_crlf_none(message: Seq<u8>)
    requires
        forall|i: int| !crlf_at(message, i),
    ensures
        first_crlf(message) is None,
{
}

/// What the codec makes of a buffer: a frame and the bytes it took, or the reason for none.
pub type Parsed = Result<(Frame, nat), ParseError>;

/// The frame that starts `buffer`, by its leading byte: a simple string, a bulk
/// string, an integer, or an array of as many frames as its first line says. An
/// empty buffer is incomplete, and any other leading byte is invalid.
///
/// The bounds on the first line of an array always hold where they are tested:
/// they are there for the definition to be well founded.
pub open spec fn spec_parse(buffer: Seq<u8>) -> Parsed
    decreases buffer.len(), 0nat,
{
    if buffer.len() == 0 {
        Err(ParseError::Incomplete)
    } else if buffer[0] == SIMPLE_STRING_TAG {
        spec_parse_simple_string(buffer)
    } else if buffer[0] == BULK_STRING_TAG {
        spec_parse_bulk_string(buffer)
    } else if buffer[0] == INTEGER_TAG {
        spec_parse_integer(buffer)
    } else if buffer[0] == ARRAY_TAG {
        match first_crlf(buffer) {
            None => Err(ParseError::Incomplete),
            Some(p) => match parse_unsigned(buffer.subrange(1, p), u64::MAX as nat) {
                None => Err(ParseError::Invalid),
                Some(count) => if 1 <= p && p + 2 <= buffer.len() {
                    match spec_parse_items(buffer.skip(p + 2), count) {
                        Err(e) => Err(e),
                        Ok((items, used)) => Ok((Frame::Array(items), (p + 2 + used) as nat)),
                    }
                } else {
                    Err(ParseError::Invalid)
                },
            },
        }
    } else {
        Err(ParseError::Invalid)
    }
}

/// The `count` frames that follow one another from the start of `rest`, and the
/// number of bytes that they take together. The first frame that fails decides.
///
/// A frame never takes more than there is, so the bound on `used` always holds:
/// it is there for the definition to be well founded.
pub open spec fn spec_parse_items(rest: Seq<u8>, count: nat) -> Result<(Seq<Frame>, nat), ParseError>
    decreases rest.len(), 1 + count,
{
    if count == 0 {
        Ok((Seq::empty(), 0))
    } else {
        match spec_parse(rest) {
            Err(e) => Err(e),
            Ok((first, used)) => if used <= rest.len() {
                match spec_parse_items(rest.skip(used as int), (count - 1) as nat) {
                    Err(e) => Err(e),
                    Ok((others, more)) => Ok((seq![first] + others, used + more)),
                }
            } else {
                Err(ParseError::Invalid)
            },
        }
    }
}

/// A simple string: the text between the tag and the first line terminator.
pub open spec fn spec_parse_simple_string(buffer: Seq<u8>) -> Parsed {
    match first_crlf(buffer) {
        None => Err(ParseError::Incomplete),
        Some(p) => {
            let text = buffer.subrange(1, p);
            if valid_utf8(text) {
                Ok((Frame::SimpleString(decode_utf8(text)), (p + 2) as nat))
            } else {
                Err(ParseError::Invalid)
            }
        },
    }
}

/// An integer: the signed decimal number between the tag and the first line terminator.
pub open spec fn spec_parse_integer(buffer: Seq<u8>) -> Parsed {
    match first_crlf(buffer) {
        None => Err(ParseError::Incomplete),
        Some(p) => match parse_signed(buffer.subrange(1, p)) {
            Some(n) => Ok((Frame::Integer(n as i64), (p + 2) as nat)),
            None => Err(ParseError::Invalid),
        },
    }
}

/// The text `-1`, the length that stands for the null bulk string.
pub open spec fn null_length() -> Seq<u8> {
    seq![45u8, 49u8]
}

/// A bulk string: a length line, that many bytes, and a line terminator.
pub open spec fn spec_parse_bulk_string(buffer: Seq<u8>) -> Parsed {
    match first_crlf(buffer) {
        None => Err(ParseError::Incomplete),
        Some(p) => {
            let header = buffer.subrange(1, p);
            if header == null_length() {
                Ok((Frame::NullBulkString, (p + 2) as nat))
            } else {
                match parse_unsigned(header, u64::MAX as nat) {
                    None => Err(ParseError::Invalid),
                    Some(n) => match spec_parse_bytes(buffer.skip(p + 2), n) {
                        Err(e) => Err(e),
                        Ok(data) => Ok((Frame::BulkString(data), (p + 2 + n + 2) as nat)),
                    },
                }
            }
        },
    }
}

/// The first `n` bytes of `message`, which a line terminator must follow.
pub open spec fn spec_parse_bytes(message: Seq<u8>, n: nat) -> Result<Seq<u8>, ParseError> {
    if n + 2 > message.len() {
        Err(ParseError::Incomplete)
    } else if message[n as int] != CR || message[n as int + 1] != LF {
        Err(ParseError::Invalid)
    } else {
        Ok(message.take(n as int))
    }
}

/// Whether the outcome `r` of the codec is the one that the model `p` asks for.
pub open spec fn parse_agrees(r: Result<(Token, usize), ParseError>, p: Parsed) -> bool {
    match p {
        Ok((frame, used)) => r matches Ok((token, len)) && token@ == frame && len == used,
        Err(e) => r matches Err(f) && f == e,
    }
}

/// Whether the outcome `r` holds, as its one token, the frame that the model `p`
/// asks for, and the number of bytes that it took.
pub open spec fn result_agrees(r: Result<ParseResult, ParseError>, p: Parsed) -> bool {
    match p {
        Ok((frame, used)) => r matches Ok(result) && frames_of(result.tokens@) == seq![frame]
            && result.len == used,
        Err(e) => r matches Err(f) && f == e,
    }
}

/// The outcome for an array whose header takes `start` bytes and whose items come out as `items`.
pub open spec fn array_of_items(start: int, items: Result<(Seq<Frame>, nat), ParseError>) -> Parsed {
    match items {
        Err(e) => Err(e),
        Ok((frames, used)) => Ok((Frame::Array(frames), (start + used) as nat)),
    }
}

/// The outcome of parsing items after `done` have been parsed in `used` bytes and
/// the others come out as `rest`.
pub open spec fn prepend_items(
    done: Seq<Frame>,
    used: int,
    rest: Result<(Seq<Frame>, nat), ParseError>,
) -> Result<(Seq<Frame>, nat), ParseError> {
    match rest {
        Ok((others, more)) => Ok((done + others, (used + more) as nat)),
        Err(e) => Err(e),
    }
}

/// The bytes that stand for `frame` on the wire.
pub open spec fn spec_serialize(frame: Frame) -> Seq<u8>
    decreases frame,
{
    match frame {
        Frame::SimpleString(text) => seq![SIMPLE_STRING_TAG] + encode_utf8(text) + crlf(),
        Frame::BulkString(data) => seq![BULK_STRING_TAG] + decimal_digits(data.len()) + crlf()
            + data + crlf(),
        Frame::NullBulkString => seq![BULK_STRING_TAG] + null_length() + crlf(),
        Frame::Integer(n) => seq![INTEGER_TAG] + signed_digits(n as int) + crlf(),
        Frame::Array(items) => seq![ARRAY_TAG] + decimal_digits(items.len()) + crlf()
            + spec_serialize_all(items),
    }
}

/// The serializations of `items`, one after the other.
pub open spec fn spec_serialize_all(items: Seq<Frame>) -> Seq<u8>
    decreases items,
{
    if items.len() == 0 {
        Seq::empty()
    } else {
        spec_serialize(items[0]) + spec_serialize_all(items.drop_first())
    }
}

/// Serializing one more frame appends its bytes.
pub proof fn lemma_serialize_all_push(items: Seq<Frame>, last: Frame)
    ensures
        spec_serialize_all(items.push(last)) == spec_serialize_all(items) + spec_serialize(last),
    decreases items.len(),
{
    if items.len() == 0 {
        assert(items.push(last).drop_first() =~= Seq::<Frame>::empty());
        assert(spec_serialize_all(Seq::<Frame>::empty()) =~= Seq::<u8>::empty());
        assert(spec_serialize_all(items.push(last)) =~= spec_serialize(last));
        assert(spec_serialize_all(items) + spec_serialize(last) =~= spec_serialize(last));
    } else {
        lemma_serialize_all_push(items.drop_first(), last);
        assert(items.push(last).drop_first() =~= items.drop_first().push(last));
        assert(items.push(last)[0] == items[0]);
        assert(spec_serialize_all(items.push(last)) =~= spec_serialize_all(items)
            + spec_serialize(last));
    }
}

/// An item of an array token is smaller than the token.
pub proof fn lemma_item_decreases(token: Token, items: Vec<Token>, i: int)
    requires
        token == Token::Array(items),
        0 <= i < items@.len(),
    ensures
        decreases_to!(token => items@[i]),
{
    match token {
        Token::Array(inner) => {
            assert(decreases_to!(token => inner));
            assert(decreases_to!(inner => inner@));
            assert(decreases_to!(inner@ => inner@[i]));
        },
        _ => {},
    }
}

/// Appends `bytes` to `out`.
pub fn append_bytes(out: &mut Vec<u8>, bytes: &[u8])
    ensures
        final(out)@ == old(out)@ + bytes@,
{
    out.extend_from_slice(bytes);
    assert(out@ =~= old(out)@ + bytes@);
}

/// Appends a line terminator to `out`.
pub fn append_crlf(out: &mut Vec<u8>)
    ensures
        final(out)@ == old(out)@ + crlf(),
{
    out.push(CR);
    out.push(LF);
    assert(out@ =~= old(out)@ + crlf());
}

/// A copy of `bytes`.
pub fn copy_bytes(bytes: &[u8]) -> (r: Vec<u8>)
    ensures
        r@ == bytes@,
{
    let mut out: Vec<u8> = Vec::new();
    append_bytes(&mut out, bytes);
    assert(out@ =~= bytes@);
    out
}

impl ParseError {
    /// What the error means, in words.
    pub fn to_string(&self) -> (r: String)
        ensures
            r@ == self.spec_message(),
    {
        match self {
            ParseError::Incomplete => "need more data to correctly process message".to_owned(),
            ParseError::Invalid => "containing RESP message is malformed".to_owned(),
        }
    }

    /// What the error means, in words.
    pub open spec fn spec_message(&self) -> Seq<char> {
        match self {
            ParseError::Incomplete => "need more data to correctly process message"@,
            ParseError::Invalid => "containing RESP message is malformed"@,
        }
    }
}

impl Clone for Token {
    fn clone(&self) -> (r: Token)
        ensures
            r@ == self@,
        decreases self,
    {
        match self {
            Token::SimpleString(text) => Token::SimpleString(text.clone()),
            Token::BulkString(data) => Token::BulkString(copy_bytes(data.as_slice())),
            Token::NullBulkString => Token::NullBulkString,
            Token::Integer(n) => Token::Integer(*n),
            Token::Array(items) => {
                let mut copies: Vec<Token> = Vec::new();
                let mut i: usize = 0;
                while i < items.len()
                    invariant
                        0 <= i <= items@.len(),
                        copies@.len() == i,
                        forall|j: int| 0 <= j < i ==> copies@[j]@ == items@[j]@,
                        *self == Token::Array(*items),
                    decreases items@.len() - i,
                {
                    proof {
                        lemma_item_decreases(*self, *items, i as int);
                    }
                    let copy = items[i].clone();
                    copies.push(copy);
                    i += 1;
                }
                proof {
                    lemma_array_view(*items);
                    lemma_array_view(copies);
                    assert(frames_of(copies@) =~= frames_of(items@));
                }
                Token::Array(copies)
            },
        }
    }
}

impl Token {
    /// The bytes of a bulk string; any other token is refused.
    pub fn get_bulk_string_data(&self) -> (r: Result<&Vec<u8>, ParseError>)
        ensures
            match *self {
                Token::BulkString(data) => r == Ok::<&Vec<u8>, ParseError>(&data),
                _ => r == Err::<&Vec<u8>, ParseError>(ParseError::Invalid),
            },
    {
        if let Token::BulkString(data) = self {
            Ok(data)
        } else {
            Err(ParseError::Invalid)
        }
    }

    /// The text of a simple string; any other token is refused.
    pub fn get_simple_string_data(&self) -> (r: Result<&String, ParseError>)
        ensures
            match *self {
                Token::SimpleString(text) => r == Ok::<&String, ParseError>(&text),
                _ => r == Err::<&String, ParseError>(ParseError::Invalid),
            },
    {
        if let Token::SimpleString(text) = self {
            Ok(text)
        } else {
            Err(ParseError::Invalid)
        }
    }

    /// The bytes that stand for this token on the wire.
    pub fn serialize(&self) -> (r: Vec<u8>)
        ensures
            r@ == spec_serialize(self@),
    {
        let mut out: Vec<u8> = Vec::new();
        self.serialize_into(&mut out);
        assert(out@ =~= spec_serialize(self@));
        out
    }

    /// Appends the bytes that stand for this token on the wire to `out`.
    pub fn serialize_into(&self, out: &mut Vec<u8>)
        ensures
            final(out)@ == old(out)@ + spec_serialize(self@),
        decreases self,
    {
        match self {
            Token::SimpleString(text) => {
                out.push(SIMPLE_STRING_TAG);
                append_bytes(out, text.as_str().as_bytes());
                append_crlf(out);
                assert(out@ =~= old(out)@ + spec_serialize(self@));
            },
            Token::BulkString(data) => {
                out.push(BULK_STRING_TAG);
                push_unsigned(out, data.len() as u64);
                append_crlf(out);
                append_bytes(out, data.as_slice());
                append_crlf(out);
                assert(out@ =~= old(out)@ + spec_serialize(self@));
            },
            Token::NullBulkString => {
                out.push(BULK_STRING_TAG);
                out.push(45);
                out.push(49);
                append_crlf(out);
                assert(out@ =~= old(out)@ + spec_serialize(self@));
            },
            Token::Integer(n) => {
                out.push(INTEGER_TAG);
                push_signed(out, *n);
                append_crlf(out);
                assert(out@ =~= old(out)@ + spec_serialize(self@));
            },
            Token::Array(items) => {
                out.push(ARRAY_TAG);
                push_unsigned(out, items.len() as u64);
                append_crlf(out);
                let ghost header = out@;
                let ghost frames = frames_of(items@);
                proof {
                    lemma_array_view(*items);
                    assert(frames.take(0) =~= Seq::<Frame>::empty());
                    assert(header =~= header + spec_serialize_all(frames.take(0)));
                }
                let mut i: usize = 0;
                while i < items.len()
                    invariant
                        0 <= i <= items@.len(),
                        frames == frames_of(items@),
                        out@ == header + spec_serialize_all(frames.take(i as int)),
                        *self == Token::Array(*items),
                    decreases items@.len() - i,
                {
                    proof {
                        lemma_item_decreases(*self, *items, i as int);
                    }
                    items[i].serialize_into(out);
                    proof {
                        lemma_serialize_all_push(frames.take(i as int), frames[i as int]);
                        assert(frames.take(i + 1) =~= frames.take(i as int).push(frames[i as int]));
                        assert(out@ =~= header + spec_serialize_all(frames.take(i + 1)));
                    }
                    i += 1;
                }
                proof {
                    assert(frames.take(i as int) =~= frames);
                    assert(out@ =~= old(out)@ + spec_serialize(self@));
                }
            },
        }
    }
}

/// The index of the first line terminator in `message`.
pub fn find_first_crlf(message: &[u8]) -> (r: Option<usize>)
    ensures
        match r {
            Some(i) => first_crlf(message@) == Some(i as int) && is_first_crlf(message@, i as int)
                && i + 2 <= usize::MAX,
            None => first_crlf(message@) is None,
        },
{
    let mut i: usize = 0;
    while i < message.len() && i + 1 < message.len()
        invariant
            0 <= i <= message@.len(),
            forall|j: int| 0 <= j < i ==> !crlf_at(message@, j),
        decreases message@.len() - i,
    {
        if message[i] == CR && message[i + 1] == LF {
            proof {
                lemma_first_crlf_is(message@, i as int);
            }
            return Some(i);
        }
        i += 1;
    }
    proof {
        lemma_first_crlf_none(message@);
    }
    None
}

/// The first `len` bytes of `message`, which a line terminator must follow.
pub fn parse_bytes(message: &[u8], len: u64) -> (r: Result<&[u8], ParseError>)
    ensures
        match spec_parse_bytes(message@, len as nat) {
            Ok(data) => r matches Ok(slice) && slice@ == data,
            Err(e) => r matches Err(f) && f == e,
        },
{
    if message.len() < 2 || len > (message.len() - 2) as u64 {
        return Err(ParseError::Incomplete);
    }
    let n: usize = len as usize;
    if message[n] != CR || message[n + 1] != LF {
        return Err(ParseError::Invalid);
    }
    Ok(slice_subrange(message, 0, n))
}

/// Parses the simple string that starts `buffer`.
fn simple_string_token(buffer: &[u8]) -> (r: Result<(Token, usize), ParseError>)
    requires
        buffer@.len() > 0,
        buffer@[0] == SIMPLE_STRING_TAG,
    ensures
        parse_agrees(r, spec_parse_simple_string(buffer@)),
        r matches Ok((_, len)) ==> 0 < len <= buffer@.len(),
{
    let p: usize = match find_first_crlf(buffer) {
        None => {
            return Err(ParseError::Incomplete);
        },
        Some(p) => p,
    };
    match text_of_bytes(slice_subrange(buffer, 1, p)) {
        None => Err(ParseError::Invalid),
        Some(text) => Ok((Token::SimpleString(text), p + 2)),
    }
}

/// Parses the integer that starts `buffer`.
fn integer_token(buffer: &[u8]) -> (r: Result<(Token, usize), ParseError>)
    requires
        buffer@.len() > 0,
        buffer@[0] == INTEGER_TAG,
    ensures
        parse_agrees(r, spec_parse_integer(buffer@)),
        r matches Ok((_, len)) ==> 0 < len <= buffer@.len(),
{
    let p: usize = match find_first_crlf(buffer) {
        None => {
            return Err(ParseError::Incomplete);
        },
        Some(p) => p,
    };
    match bytes_to_signed(slice_subrange(buffer, 1, p)) {
        None => Err(ParseError::Invalid),
        Some(n) => Ok((Token::Integer(n), p + 2)),
    }
}

/// Parses the bulk string that starts `buffer`.
fn bulk_string_token(buffer: &[u8]) -> (r: Result<(Token, usize), ParseError>)
    requires
        buffer@.len() > 0,
        buffer@[0] == BULK_STRING_TAG,
    ensures
        parse_agrees(r, spec_parse_bulk_string(buffer@)),
        r matches Ok((_, len)) ==> 0 < len <= buffer@.len(),
{
    let p: usize = match find_first_crlf(buffer) {
        None => {
            return Err(ParseError::Incomplete);
        },
        Some(p) => p,
    };
    let header = slice_subrange(buffer, 1, p);
    if header.len() == 2 && header[0] == 45 && header[1] == 49 {
        assert(header@ =~= null_length());
        return Ok((Token::NullBulkString, p + 2));
    }
    assert(header@ != null_length()) by {
        if header@ == null_length() {
            assert(header@.len() == 2 && header@[0] == 45 && header@[1] == 49);
        }
    }
    let n: u64 = match bytes_to_unsigned(header) {
        None => {
            return Err(ParseError::Invalid);
        },
        Some(n) => n,
    };
    let start: usize = p + 2;
    match parse_bytes(slice_subrange(buffer, start, buffer.len()), n) {
        Err(e) => Err(e),
        Ok(data) => Ok((Token::BulkString(copy_bytes(data)), start + n as usize + 2)),
    }
}

/// One more item has been parsed: the outcome for the items that are left, with
/// what is done put before it, is the outcome for all of them.
proof fn lemma_parse_items_step(
    buffer: Seq<u8>,
    offset: int,
    remaining: nat,
    done: Seq<Frame>,
    used_before: int,
)
    requires
        0 <= offset <= buffer.len(),
        remaining > 0,
        0 <= used_before,
    ensures
        match spec_parse(buffer.skip(offset)) {
            Err(e) => prepend_items(
                done,
                used_before,
                spec_parse_items(buffer.skip(offset), remaining),
            ) == Err::<(Seq<Frame>, nat), ParseError>(e),
            Ok((first, used)) => used <= buffer.len() - offset ==> prepend_items(
                done,
                used_before,
                spec_parse_items(buffer.skip(offset), remaining),
            ) == prepend_items(
                done.push(first),
                used_before + used,
                spec_parse_items(buffer.skip(offset + used), (remaining - 1) as nat),
            ),
        },
{
    let rest = buffer.skip(offset);
    match spec_parse(rest) {
        Err(e) => {},
        Ok((first, used)) => {
            if used <= buffer.len() - offset {
                assert(rest.skip(used as int) =~= buffer.skip(offset + used));
                match spec_parse_items(buffer.skip(offset + used), (remaining - 1) as nat) {
                    Err(e) => {},
                    Ok((others, more)) => {
                        assert(done + (seq![first] + others) =~= done.push(first) + others);
                    },
                }
            }
        },
    }
}

/// Parses the array that starts `buffer`.
fn array_token(buffer: &[u8]) -> (r: Result<(Token, usize), ParseError>)
    requires
        buffer@.len() > 0,
        buffer@[0] == ARRAY_TAG,
    ensures
        parse_agrees(r, spec_parse(buffer@)),
        r matches Ok((_, len)) ==> 0 < len <= buffer@.len(),
    decreases buffer@.len(), 0nat,
{
    let p: usize = match find_first_crlf(buffer) {
        None => {
            return Err(ParseError::Incomplete);
        },
        Some(p) => p,
    };
    let count: u64 = match bytes_to_unsigned(slice_subrange(buffer, 1, p)) {
        None => {
            return Err(ParseError::Invalid);
        },
        Some(count) => count,
    };
    let start: usize = p + 2;
    let mut offset: usize = start;
    let mut remaining: u64 = count;
    let mut items: Vec<Token> = Vec::new();
    proof {
        assert(frames_of(items@) =~= Seq::<Frame>::empty());
        match spec_parse_items(buffer@.skip(start as int), count as nat) {
            Ok((others, more)) => {
                assert(Seq::<Frame>::empty() + others =~= others);
            },
            Err(e) => {},
        }
    }
    assert(spec_parse(buffer@) == array_of_items(
        start as int,
        spec_parse_items(buffer@.skip(start as int), count as nat),
    ));
    while remaining > 0
        invariant
            2 <= start <= offset <= buffer@.len(),
            remaining <= count,
            spec_parse(buffer@) == array_of_items(
                start as int,
                spec_parse_items(buffer@.skip(start as int), count as nat),
            ),
            spec_parse_items(buffer@.skip(start as int), count as nat) == prepend_items(
                frames_of(items@),
                offset - start,
                spec_parse_items(buffer@.skip(offset as int), remaining as nat),
            ),
        decreases remaining,
    {
        let rest = slice_subrange(buffer, offset, buffer.len());
        proof {
            lemma_parse_items_step(
                buffer@,
                offset as int,
                remaining as nat,
                frames_of(items@),
                offset - start,
            );
        }
        match parse_token(rest) {
            Err(e) => {
                return Err(e);
            },
            Ok((token, used)) => {
                proof {
                    assert(frames_of(items@.push(token)) =~= frames_of(items@).push(token@));
                }
                items.push(token);
                offset = offset + used;
                remaining = remaining - 1;
            },
        }
    }
    proof {
        lemma_array_view(items);
        assert(frames_of(items@) + Seq::<Frame>::empty() =~= frames_of(items@));
    }
    Ok((Token::Array(items), offset))
}

/// Parses the frame that starts `buffer`, and says how many bytes it takes.
pub fn parse_token(buffer: &[u8]) -> (r: Result<(Token, usize), ParseError>)
    ensures
        parse_agrees(r, spec_parse(buffer@)),
        r matches Ok((_, len)) ==> 0 < len <= buffer@.len(),
    decreases buffer@.len(), 1nat,
{
    if buffer.len() == 0 {
        return Err(ParseError::Incomplete);
    }
    let tag: u8 = buffer[0];
    if tag == SIMPLE_STRING_TAG {
        simple_string_token(buffer)
    } else if tag == BULK_STRING_TAG {
        bulk_string_token(buffer)
    } else if tag == INTEGER_TAG {
        integer_token(buffer)
    } else if tag == ARRAY_TAG {
        array_token(buffer)
    } else {
        Err(ParseError::Invalid)
    }
}

/// The outcome of the codec as a result that holds the frame as its one token.
fn single_result(parsed: Result<(Token, usize), ParseError>) -> (r: Result<ParseResult, ParseError>)
    ensures
        match parsed {
            Ok((token, len)) => r matches Ok(result) && frames_of(result.tokens@) == seq![token@]
                && result.len == len,
            Err(e) => r matches Err(f) && f == e,
        },
{
    match parsed {
        Ok((token, len)) => {
            let mut tokens: Vec<Token> = Vec::new();
            tokens.push(token);
            assert(frames_of(tokens@) =~= seq![token@]);
            Ok(ParseResult { tokens, len })
        },
        Err(e) => Err(e),
    }
}

/// Parses the simple string that starts `message`.
pub fn parse_simple_string(message: &[u8]) -> (r: Result<ParseResult, ParseError>)
    requires
        message@.len() > 0,
        message@[0] == SIMPLE_STRING_TAG,
    ensures
        result_agrees(r, spec_parse(message@)),
        r matches Ok(result) ==> 0 < result.len <= message@.len(),
{
    single_result(simple_string_token(message))
}

/// Parses the bulk string that starts `message`.
pub fn parse_bulk_string(message: &[u8]) -> (r: Result<ParseResult, ParseError>)
    requires
        message@.len() > 0,
        message@[0] == BULK_STRING_TAG,
    ensures
        result_agrees(r, spec_parse(message@)),
        r matches Ok(result) ==> 0 < result.len <= message@.len(),
{
    single_result(bulk_string_token(message))
}

/// Parses the array that starts `message`: the result holds the array itself,
/// with its items in it, arrays among them as they came.
pub fn parse_array(message: &[u8]) -> (r: Result<ParseResult, ParseError>)
    requires
        message@.len() > 0,
        message@[0] == ARRAY_TAG,
    ensures
        result_agrees(r, spec_parse(message@)),
        r matches Ok(result) ==> 0 < result.len <= message@.len(),
{
    single_result(array_token(message))
}

/// Parses the frame that starts `buffer`, whatever its kind: the result holds the
/// frame itself and says how many bytes it took.
pub fn parse_buffer(buffer: &[u8]) -> (r: Result<ParseResult, ParseError>)
    ensures
        result_agrees(r, spec_parse(buffer@)),
        r matches Ok(result) ==> 0 < result.len <= buffer@.len(),
{
    single_result(parse_token(buffer))
}

} // verus!
