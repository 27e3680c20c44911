//! The options that the server is started with.

use vstd::prelude::*;
use vstd::slice::slice_subrange;
use vstd::utf8::{decode_utf8, valid_utf8};
use crate::parser::number::{bytes_to_unsigned, parse_unsigned};
use crate::text::text_of_bytes;

verus! {

/// The port on which the server listens where none is given.
pub const DEFAULT_PORT: u16 = 6379;

/// The options that the server is started with.
#[derive(Debug)]
pub struct Config {
    port: u16,
    replicaof: Option<String>,
    dir: Option<String>,
    dbfilename: Option<String>,
}

/// Whether `b` is an ASCII blank: a space, a tab or a line break.
pub open spec fn is_space(b: u8) -> bool {
    b == 32 || (9 <= b <= 13)
}

/// Whether each byte of `text` from index `from` up to `to` is a blank, if `blank`
/// is set, or none is, if it is not.
pub open spec fn run_of(text: Seq<u8>, from: int, to: int, blank: bool) -> bool {
    forall|i: int| from <= i < to ==> is_space(#[trigger] text[i]) == blank
}

/// Whether `text` is made of two words, the first from index `a` up to `b` and the
/// second from `c` up to `d`, with blanks between them and, maybe, around them.
pub open spec fn splits_in_two(text: Seq<u8>, a: int, b: int, c: int, d: int) -> bool {
    &&& 0 <= a < b < c < d <= text.len()
    &&& run_of(text, 0, a, true)
    &&& run_of(text, a, b, false)
    &&& run_of(text, b, c, true)
    &&& run_of(text, c, d, false)
    &&& run_of(text, d, text.len() as int, true)
}

/// Whether `text` names the master on `host` at `port`: a host, blanks and a port
/// number, where the host is well-formed UTF-8 and the port fits in 16 bits.
pub open spec fn names_master(text: Seq<u8>, host: Seq<char>, port: u16) -> bool {
    exists|a: int, b: int, c: int, d: int| #[trigger]
        splits_in_two(text, a, b, c, d) && valid_utf8(text.subrange(a, b)) && host == decode_utf8(
            text.subrange(a, b),
        ) && parse_unsigned(text.subrange(c, d), u16::MAX as nat) == Some(port as nat)
}

/// The index of the first byte of `text`, from `from` on, that is a blank where
/// `blank` is not set, or that is none where it is; the length of `text` where
/// there is no such byte.
fn end_of_run(text: &[u8], from: usize, blank: bool) -> (to: usize)
    requires
        from <= text@.len(),
    ensures
        from <= to <= text@.len(),
        run_of(text@, from as int, to as int, blank),
        to < text@.len() ==> is_space(text@[to as int]) != blank,
{
    let mut i: usize = from;
    while i < text.len()
        invariant
            from <= i <= text@.len(),
            run_of(text@, from as int, i as int, blank),
        decreases text@.len() - i,
    {
        let b: u8 = text[i];
        let space: bool = b == 32 || (9 <= b && b <= 13);
        if space != blank {
            return i;
        }
        i += 1;
    }
    i
}

/// Two ways to split a text in two words are the same way.
proof fn lemma_split_is_unique(
    text: Seq<u8>,
    a: int,
    b: int,
    c: int,
    d: int,
    a2: int,
    b2: int,
    c2: int,
    d2: int,
)
    requires
        splits_in_two(text, a, b, c, d),
        splits_in_two(text, a2, b2, c2, d2),
    ensures
        a == a2,
        b == b2,
        c == c2,
        d == d2,
{
    if a < a2 {
        assert(is_space(text[a]));
    }
    if a2 < a {
        assert(is_space(text[a2]));
    }
    if b < b2 {
        assert(is_space(text[b]));
    }
    if b2 < b {
        assert(is_space(text[b2]));
    }
    if c < c2 {
        assert(is_space(text[c]));
    }
    if c2 < c {
        assert(is_space(text[c2]));
    }
    if d < d2 {
        assert(is_space(text[d]));
    }
    if d2 < d {
        assert(is_space(text[d2]));
    }
}

/// The host and the port that `text` names, in the form `<host> <port>`.
pub fn parse_master_address(text: &[u8]) -> (r: Option<(String, u16)>)
    ensures
        match r {
            Some((host, port)) => names_master(text@, host@, port),
            None => forall|host: Seq<char>, port: u16| !names_master(text@, host, port),
        },
{
    let a: usize = end_of_run(text, 0, true);
    let b: usize = end_of_run(text, a, false);
    let c: usize = end_of_run(text, b, true);
    let d: usize = end_of_run(text, c, false);
    let e: usize = end_of_run(text, d, true);
    if a < b && b < c && c < d && e == text.len() {
        assert(splits_in_two(text@, a as int, b as int, c as int, d as int));
        assert forall|a2: int, b2: int, c2: int, d2: int| #[trigger]
            splits_in_two(text@, a2, b2, c2, d2) implies a2 == a && b2 == b && c2 == c && d2
            == d by {
            lemma_split_is_unique(text@, a as int, b as int, c as int, d as int, a2, b2, c2, d2);
        }
        let port: u64 = match bytes_to_unsigned(slice_subrange(text, c, d)) {
            Some(port) => port,
            None => {
                return None;
            },
        };
        if port > 0xffff {
            return None;
        }
        match text_of_bytes(slice_subrange(text, a, b)) {
            Some(host) => Some((host, port as u16)),
            None => None,
        }
    } else {
        assert forall|a2: int, b2: int, c2: int, d2: int| !#[trigger] splits_in_two(
            text@,
            a2,
            b2,
            c2,
            d2,
        ) by {
            if splits_in_two(text@, a2, b2, c2, d2) {
                if a < a2 {
                    assert(is_space(text@[a as int]));
                }
                if a2 < a {
                    assert(is_space(text@[a2]));
                }
                if b < b2 {
                    assert(is_space(text@[b as int]));
                }
                if b2 < b {
                    assert(is_space(text@[b2]));
                }
                if c < c2 {
                    assert(is_space(text@[c as int]));
                }
                if c2 < c {
                    assert(is_space(text@[c2]));
                }
                if d < d2 {
                    assert(is_space(text@[d as int]));
                }
                if d2 < d {
                    assert(is_space(text@[d2]));
                }
                if e < text@.len() {
                    assert(is_space(text@[e as int]));
                }
            }
        }
        None
    }
}

impl Config {
    /// The options as they were given: the port, the master to follow in the form
    /// `<host> <port>`, and where a snapshot would be kept.
    pub fn new(
        port: u16,
        replicaof: Option<String>,
        dir: Option<String>,
        dbfilename: Option<String>,
    ) -> (r: Config)
        ensures
            r.port() == port,
            r.replicaof() == replicaof,
            r.dir() == dir,
            r.dbfilename() == dbfilename,
    {
        Config { port, replicaof, dir, dbfilename }
    }

    /// The port on which the server listens.
    pub closed spec fn port(&self) -> u16 {
        self.port
    }

    /// The master to follow, as it was given.
    pub closed spec fn replicaof(&self) -> Option<String> {
        self.replicaof
    }

    /// The directory where a snapshot would be kept.
    pub closed spec fn dir(&self) -> Option<String> {
        self.dir
    }

    /// The file name under which a snapshot would be kept.
    pub closed spec fn dbfilename(&self) -> Option<String> {
        self.dbfilename
    }

    /// The port on which the server listens.
    pub fn get_listening_port(&self) -> (r: u16)
        ensures
            r == self.port(),
    {
        self.port
    }

    /// The host and the port of the master to follow, where one is named in the
    /// form `<host> <port>`.
    pub fn master_address(&self) -> (r: Option<(String, u16)>)
        ensures
            match r {
                Some((host, port)) => self.replicaof() matches Some(text) && names_master(
                    vstd::utf8::encode_utf8(text@),
                    host@,
                    port,
                ),
                None => self.replicaof() matches Some(text) ==> forall|host: Seq<char>, port: u16|
                    !names_master(vstd::utf8::encode_utf8(text@), host, port),
            },
    {
        match &self.replicaof {
            Some(text) => parse_master_address(text.as_str().as_bytes()),
            None => None,
        }
    }

    /// Whether the server follows no master.
    pub fn is_master(&self) -> (r: bool)
        ensures
            r == (self.replicaof() is None),
    {
        self.replicaof.is_none()
    }

    /// The directory where a snapshot would be kept.
    pub fn get_data_dir(&self) -> (r: Option<&str>)
        ensures
            match r {
                Some(text) => self.dir() matches Some(dir) && text@ == dir@,
                None => self.dir() is None,
            },
    {
        match &self.dir {
            Some(dir) => Some(dir.as_str()),
            None => None,
        }
    }

    /// The file name under which a snapshot would be kept.
    pub fn get_dbfilename(&self) -> (r: Option<&str>)
        ensures
            match r {
                Some(text) => self.dbfilename() matches Some(name) && text@ == name@,
                None => self.dbfilename() is None,
            },
    {
        match &self.dbfilename {
            Some(name) => Some(name.as_str()),
            None => None,
        }
    }
}

impl Default for Config {
    fn default() -> (r: Config)
        ensures
            r.port() == DEFAULT_PORT,
            r.replicaof() is None,
            r.dir() is None,
            r.dbfilename() is None,
    {
        Config { port: DEFAULT_PORT, replicaof: None, dir: None, dbfilename: None }
    }
}

} // verus!
