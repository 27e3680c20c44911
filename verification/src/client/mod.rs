//! The requesting side of a connection: it sends a request and reads frames back.

use vstd::prelude::*;
use crate::network::connection::{Connection, ConnectionError};
use crate::parser::resp::{
    frames_of, parse_buffer, spec_parse, ParseError, ParseResult,
};

verus! {

/// The requesting side of a connection.
#[derive(Debug)]
pub struct Client {
    conn: Connection,
}

/// Why a client gives up.
#[derive(Debug)]
pub enum ClientError {
    /// The stream failed; the text says how.
    ConnectionError(String),
    /// What came in is no frame.
    ParseError(ParseError),
}

impl View for Client {
    type V = Seq<u8>;

    closed spec fn view(&self) -> Seq<u8> {
        self.conn@
    }
}

impl Client {
    /// The client on `conn`.
    pub fn new(conn: Connection) -> (r: Client)
        ensures
            r@ == conn@,
    {
        Client { conn }
    }

    /// The connection of the client, to take in what was read from the stream.
    pub fn get_connection(&mut self) -> (r: &mut Connection)
        ensures
            r@ == old(self)@,
            final(self)@ == final(r)@,
    {
        &mut self.conn
    }

    /// What the client has read and not yet used.
    pub fn get_buffer(&self) -> (r: &[u8])
        ensures
            r@ == self@,
    {
        self.conn.get_buffer()
    }

    /// Drops the first `n` bytes of what is unread.
    pub fn consume(&mut self, n: usize)
        requires
            n <= old(self)@.len(),
        ensures
            final(self)@ == old(self)@.skip(n as int),
    {
        self.conn.consume(n);
    }

    /// The next frame that has come in, which leaves the buffer; `None` where more
    /// is to be read first, with the buffer as it was.
    pub fn get_next_message(&mut self) -> (r: Result<Option<ParseResult>, ClientError>)
        ensures
            match spec_parse(old(self)@) {
                Ok((frame, used)) => r matches Ok(Some(result)) && frames_of(result.tokens@)
                    == seq![frame] && result.len == used && final(self)@ == old(self)@.skip(
                    used as int,
                ),
                Err(ParseError::Incomplete) => r matches Ok(None) && final(self)@ == old(self)@,
                Err(ParseError::Invalid) => r matches Err(ClientError::ParseError(e)) && e
                    == ParseError::Invalid && final(self)@ == old(self)@,
            },
    {
        match parse_buffer(self.conn.get_buffer()) {
            Ok(result) => {
                self.conn.consume(result.len);
                Ok(Some(result))
            },
            Err(e) => match e {
                ParseError::Incomplete => Ok(None),
                ParseError::Invalid => Err(ClientError::ParseError(ParseError::Invalid)),
            },
        }
    }
}

} // verus!
