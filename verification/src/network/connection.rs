//! The read buffer of a connection: bytes come in at the tail as they are read,
//! and leave at the head as frames are parsed.

use vstd::prelude::*;
use crate::parser::resp::{append_bytes, copy_bytes, ParseError};

verus! {

/// The most that a connection may hold unread: one mebibyte.
pub const MAX_MESSAGE_SIZE: usize = 1024 * 1024;

/// What went wrong on the stream of a connection.
#[derive(Debug, PartialEq, Eq, Clone, Copy, Structural)]
pub enum IoErrorKind {
    /// The far end closed the stream.
    UnexpectedEof,
    /// More came in than a connection may hold unread.
    InvalidData,
    /// Any other failure of the stream.
    Other,
}

/// Why a connection is given up.
#[derive(Debug, PartialEq, Eq, Clone, Copy, Structural)]
pub enum ConnectionError {
    Io(IoErrorKind),
    Parse(ParseError),
}

/// The read buffer of a connection.
#[derive(Debug)]
pub struct Connection {
    buffer: Vec<u8>,
}

impl View for Connection {
    type V = Seq<u8>;

    closed spec fn view(&self) -> Seq<u8> {
        self.buffer@
    }
}

/// What a connection holds after `chunk` has come in, and whether it may go on.
pub open spec fn spec_read_message(buffer: Seq<u8>, chunk: Seq<u8>) -> (
    Seq<u8>,
    Result<(), ConnectionError>,
) {
    if chunk.len() == 0 {
        (buffer, Err(ConnectionError::Io(IoErrorKind::UnexpectedEof)))
    } else if buffer.len() + chunk.len() > MAX_MESSAGE_SIZE {
        (buffer + chunk, Err(ConnectionError::Io(IoErrorKind::InvalidData)))
    } else {
        (buffer + chunk, Ok(()))
    }
}

impl Connection {
    /// A connection that has read nothing yet.
    pub fn new() -> (r: Connection)
        ensures
            r@ == Seq::<u8>::empty(),
    {
        Connection { buffer: Vec::new() }
    }

    /// A connection that has read `buffer` and used none of it.
    pub fn from_existing(buffer: &[u8]) -> (r: Connection)
        ensures
            r@ == buffer@,
    {
        Connection { buffer: copy_bytes(buffer) }
    }

    /// Takes in `chunk`, the bytes of one read from the stream. An empty chunk is
    /// the end of the stream; more than a connection may hold unread is an error.
    pub fn read_message(&mut self, chunk: &[u8]) -> (r: Result<(), ConnectionError>)
        ensures
            final(self)@ == spec_read_message(old(self)@, chunk@).0,
            r == spec_read_message(old(self)@, chunk@).1,
    {
        if chunk.len() == 0 {
            return Err(ConnectionError::Io(IoErrorKind::UnexpectedEof));
        }
        append_bytes(&mut self.buffer, chunk);
        if self.buffer.len() > MAX_MESSAGE_SIZE {
            return Err(ConnectionError::Io(IoErrorKind::InvalidData));
        }
        Ok(())
    }

    /// Drops the first `n` bytes of what is unread.
    pub fn consume(&mut self, n: usize)
        requires
            n <= old(self)@.len(),
        ensures
            final(self)@ == old(self)@.skip(n as int),
    {
        let rest = self.buffer.split_off(n);
        self.buffer = rest;
    }

    /// What has been read and not yet used.
    pub fn get_buffer(&self) -> (r: &[u8])
        ensures
            r@ == self@,
    {
        self.buffer.as_slice()
    }
}

impl Default for Connection {
    fn default() -> (r: Connection)
        ensures
            r@ == Seq::<u8>::empty(),
    {
        Connection::new()
    }
}

} // verus!
