//! The handshake by which a replica joins its master: `PING`, the listening port,
//! the capabilities, `PSYNC`, and then the snapshot.
//!
//! The handshaker reads nothing and writes nothing. It says what is to be sent
//! next and judges what has come in; the caller moves the bytes.

use vstd::prelude::*;
use vstd::string::StringExecFns;
use vstd::utf8::encode_utf8;
use crate::client::{Client, ClientError};
use crate::parser::command::{
    spec_command_frame, Command, CommandModel, ReplConfCommand, ReplConfModel,
};
use crate::parser::rdb::{parse_rdb_payload, spec_parse_rdb_payload};
use crate::parser::resp::{
    frames_of, spec_parse, spec_serialize, Frame, ParseError, Token,
};
use crate::text::{is_name, spells};

verus! {

/// The snapshot that the master has sent.
#[derive(Debug)]
pub struct RDBPayload {
    pub rdb: Vec<u8>,
}

/// Why a handshake failed.
#[derive(Debug)]
pub enum HandshakeError {
    /// The master could not be reached.
    ConnectionError(Option<String>),
    /// The master answered what it should not.
    ParseError(Option<String>),
    /// The stream failed.
    IoError(Option<String>),
}

/// What a handshake that went well leaves: the client on the connection to the
/// master, with what came in after the snapshot still unread, and the snapshot.
#[derive(Debug)]
pub struct HandshakePayload {
    pub client: Client,
    pub rdb: RDBPayload,
}

/// Where the master is and on which port the replica itself listens.
#[derive(Debug)]
pub struct Config {
    pub master_host: String,
    pub master_port: u16,
    pub replica_port: u16,
}

/// The replica's side of the handshake.
#[derive(Debug)]
pub struct Handshaker {
    config: Config,
}

/// How far a handshake has come: what the replica waits for.
#[derive(Debug, PartialEq, Eq, Clone, Copy, Structural)]
pub enum HandshakeStage {
    /// `PING` is sent; `PONG` is awaited.
    AwaitingPong,
    /// The listening port is sent; `OK` is awaited.
    AwaitingPortAck,
    /// The capabilities are sent; `OK` is awaited.
    AwaitingCapaAck,
    /// `PSYNC` is sent; `FULLRESYNC` is awaited.
    AwaitingFullResync,
    /// `FULLRESYNC` has come; the snapshot is awaited.
    AwaitingSnapshot,
}

/// What the caller is to do next for the handshake.
#[derive(Debug)]
pub enum HandshakeStep {
    /// Read more from the master, and go on at this stage.
    NeedMore(HandshakeStage),
    /// Write this message to the master, and go on at the next stage.
    Send { message: Vec<u8>, next: HandshakeStage },
    /// The handshake is over: this is the snapshot.
    Finished(RDBPayload),
    /// The handshake has failed.
    Failed(HandshakeError),
}

/// The mathematical model of a handshake error.
pub enum HandshakeErrorModel {
    ConnectionError(Option<Seq<char>>),
    ParseError(Option<Seq<char>>),
    IoError(Option<Seq<char>>),
}

/// The mathematical model of a step of the handshake.
pub enum HandshakeStepModel {
    NeedMore(HandshakeStage),
    Send { message: Seq<u8>, next: HandshakeStage },
    Finished(Seq<u8>),
    Failed(HandshakeErrorModel),
}

/// The model of an optional text.
pub open spec fn text_model(text: Option<String>) -> Option<Seq<char>> {
    match text {
        Some(text) => Some(text@),
        None => None,
    }
}

impl View for HandshakeError {
    type V = HandshakeErrorModel;

    open spec fn view(&self) -> HandshakeErrorModel {
        match self {
            HandshakeError::ConnectionError(text) => HandshakeErrorModel::ConnectionError(
                text_model(*text),
            ),
            HandshakeError::ParseError(text) => HandshakeErrorModel::ParseError(text_model(*text)),
            HandshakeError::IoError(text) => HandshakeErrorModel::IoError(text_model(*text)),
        }
    }
}

impl View for HandshakeStep {
    type V = HandshakeStepModel;

    open spec fn view(&self) -> HandshakeStepModel {
        match self {
            HandshakeStep::NeedMore(stage) => HandshakeStepModel::NeedMore(*stage),
            HandshakeStep::Send { message, next } => HandshakeStepModel::Send {
                message: message@,
                next: *next,
            },
            HandshakeStep::Finished(payload) => HandshakeStepModel::Finished(payload.rdb@),
            HandshakeStep::Failed(error) => HandshakeStepModel::Failed(error@),
        }
    }
}

/// The handshake error that a client's error becomes.
pub open spec fn spec_from_client_error(error: ClientError) -> HandshakeErrorModel {
    match error {
        ClientError::ConnectionError(text) => HandshakeErrorModel::ConnectionError(Some(text@)),
        ClientError::ParseError(e) => HandshakeErrorModel::ParseError(Some(e.spec_message())),
    }
}

impl HandshakeError {
    /// The handshake error that a client's error becomes.
    pub fn from_client_error(error: ClientError) -> (r: HandshakeError)
        ensures
            r@ == spec_from_client_error(error),
    {
        match error {
            ClientError::ConnectionError(text) => HandshakeError::ConnectionError(Some(text)),
            ClientError::ParseError(e) => HandshakeError::ParseError(Some(e.to_string())),
        }
    }
}

/// Whether `bytes` begin with `prefix`.
pub open spec fn begins_with(bytes: Seq<u8>, prefix: Seq<u8>) -> bool {
    prefix.len() <= bytes.len() && bytes.take(prefix.len() as int) == prefix
}

/// Whether `bytes` begin with `prefix`.
pub fn starts_with(bytes: &[u8], prefix: &[u8]) -> (r: bool)
    ensures
        r == begins_with(bytes@, prefix@),
{
    if prefix.len() > bytes.len() {
        return false;
    }
    let mut i: usize = 0;
    while i < prefix.len()
        invariant
            0 <= i <= prefix@.len() <= bytes@.len(),
            forall|j: int| 0 <= j < i ==> bytes@[j] == prefix@[j],
        decreases prefix@.len() - i,
    {
        if bytes[i] != prefix[i] {
            assert(bytes@.take(prefix@.len() as int)[i as int] != prefix@[i as int]);
            return false;
        }
        i += 1;
    }
    assert(bytes@.take(prefix@.len() as int) =~= prefix@);
    true
}

/// What the master is expected to answer with.
#[derive(Debug, PartialEq, Eq, Clone, Copy, Structural)]
pub enum Expected {
    /// The simple string `PONG`, in any case.
    Pong,
    /// The simple string `OK`, in any case.
    Okay,
    /// A simple string that begins with `FULLRESYNC `.
    FullResync,
}

impl Expected {
    /// The name of the request that the answer is to, as it stands in error texts.
    pub open spec fn spec_request_name(self) -> Seq<char> {
        match self {
            Expected::Pong => "PING"@,
            Expected::Okay => "REPLCONF"@,
            Expected::FullResync => "PSYNC"@,
        }
    }

    /// Whether the simple string `text` is the answer that is expected.
    pub open spec fn met_by(self, text: Seq<char>) -> bool {
        match self {
            Expected::Pong => spells(encode_utf8(text), "pong"),
            Expected::Okay => spells(encode_utf8(text), "ok"),
            Expected::FullResync => begins_with(encode_utf8(text), encode_utf8("FULLRESYNC "@)),
        }
    }

    /// The name of the request that the answer is to, as it stands in error texts.
    fn request_name(self) -> (r: &'static str)
        ensures
            r@ == self.spec_request_name(),
    {
        match self {
            Expected::Pong => "PING",
            Expected::Okay => "REPLCONF",
            Expected::FullResync => "PSYNC",
        }
    }
}

/// What the answer `response` of the master is found to be where `expected` is
/// expected: it must be one simple string, and the one that is expected.
pub open spec fn spec_validate(response: Seq<Frame>, expected: Expected) -> Result<
    (),
    HandshakeErrorModel,
> {
    if response.len() != 1 {
        Err(
            HandshakeErrorModel::ParseError(
                Some("Invalid "@ + expected.spec_request_name() + " response length"@),
            ),
        )
    } else {
        match response[0] {
            Frame::SimpleString(text) => if expected.met_by(text) {
                Ok(())
            } else {
                Err(
                    HandshakeErrorModel::ParseError(
                        Some("Unexpected "@ + expected.spec_request_name() + " response: "@ + text),
                    ),
                )
            },
            _ => Err(
                HandshakeErrorModel::ParseError(
                    Some("Expected SimpleString in "@ + expected.spec_request_name() + " response"@),
                ),
            ),
        }
    }
}

/// Whether the outcome `r` of judging an answer is the one that the model `m` asks for.
pub open spec fn validation_agrees(
    r: Result<(), HandshakeError>,
    m: Result<(), HandshakeErrorModel>,
) -> bool {
    match m {
        Ok(()) => r is Ok,
        Err(e) => r matches Err(f) && f@ == e,
    }
}

/// Judges the answer `response` of the master where `expected` is expected.
pub fn validate(response: &Vec<Token>, expected: Expected) -> (r: Result<(), HandshakeError>)
    ensures
        validation_agrees(r, spec_validate(frames_of(response@), expected)),
{
    if response.len() != 1 {
        return Err(
            HandshakeError::ParseError(
                Some("Invalid ".to_owned().concat(expected.request_name()).concat(" response length")),
            ),
        );
    }
    match &response[0] {
        Token::SimpleString(text) => {
            let bytes = text.as_str().as_bytes();
            let met = match expected {
                Expected::Pong => is_name(bytes, "pong"),
                Expected::Okay => is_name(bytes, "ok"),
                Expected::FullResync => starts_with(bytes, "FULLRESYNC ".as_bytes()),
            };
            if met {
                Ok(())
            } else {
                Err(
                    HandshakeError::ParseError(
                        Some(
                            "Unexpected ".to_owned().concat(expected.request_name()).concat(
                                " response: ",
                            ).concat(text.as_str()),
                        ),
                    ),
                )
            }
        },
        _ => Err(
            HandshakeError::ParseError(
                Some(
                    "Expected SimpleString in ".to_owned().concat(expected.request_name()).concat(
                        " response",
                    ),
                ),
            ),
        ),
    }
}

/// The request that is sent at the start of the handshake, and after the answer
/// at each stage but the last two.
pub open spec fn spec_request(config: Config, stage: Option<HandshakeStage>) -> CommandModel {
    match stage {
        None => CommandModel::Ping,
        Some(HandshakeStage::AwaitingPong) => CommandModel::ReplConf(
            ReplConfModel::ListeningPort(config.replica_port),
        ),
        Some(HandshakeStage::AwaitingPortAck) => CommandModel::ReplConf(
            ReplConfModel::Capa("psync2"@),
        ),
        _ => CommandModel::Psync,
    }
}

/// The snapshot stage on what is unread: the step to take and what is left unread.
pub open spec fn spec_receive_rdb(buffer: Seq<u8>) -> (HandshakeStepModel, Seq<u8>) {
    match spec_parse_rdb_payload(buffer) {
        Ok((rdb, used)) => (HandshakeStepModel::Finished(rdb), buffer.skip(used as int)),
        Err(ParseError::Incomplete) => (
            HandshakeStepModel::NeedMore(HandshakeStage::AwaitingSnapshot),
            buffer,
        ),
        Err(ParseError::Invalid) => (
            HandshakeStepModel::Failed(
                HandshakeErrorModel::ParseError(Some(ParseError::Invalid.spec_message())),
            ),
            buffer,
        ),
    }
}

/// What the master is expected to answer at `stage`.
pub open spec fn spec_expected(stage: HandshakeStage) -> Expected {
    match stage {
        HandshakeStage::AwaitingPong => Expected::Pong,
        HandshakeStage::AwaitingPortAck => Expected::Okay,
        HandshakeStage::AwaitingCapaAck => Expected::Okay,
        _ => Expected::FullResync,
    }
}

/// The stage that follows `stage`.
pub open spec fn spec_next_stage(stage: HandshakeStage) -> HandshakeStage {
    match stage {
        HandshakeStage::AwaitingPong => HandshakeStage::AwaitingPortAck,
        HandshakeStage::AwaitingPortAck => HandshakeStage::AwaitingCapaAck,
        HandshakeStage::AwaitingCapaAck => HandshakeStage::AwaitingFullResync,
        _ => HandshakeStage::AwaitingSnapshot,
    }
}

/// One step of the handshake at `stage`, on what is unread from the master: the
/// step to take and what is left unread. An answer is taken from the buffer once it
/// is whole; a good one leads to the next request or, after `FULLRESYNC`, straight
/// on to the snapshot.
pub open spec fn spec_advance(config: Config, stage: HandshakeStage, buffer: Seq<u8>) -> (
    HandshakeStepModel,
    Seq<u8>,
) {
    if stage == HandshakeStage::AwaitingSnapshot {
        spec_receive_rdb(buffer)
    } else {
        match spec_parse(buffer) {
            Err(ParseError::Incomplete) => (HandshakeStepModel::NeedMore(stage), buffer),
            Err(ParseError::Invalid) => (
                HandshakeStepModel::Failed(
                    HandshakeErrorModel::ParseError(Some(ParseError::Invalid.spec_message())),
                ),
                buffer,
            ),
            Ok((frame, used)) => match spec_validate(seq![frame], spec_expected(stage)) {
                Err(e) => (HandshakeStepModel::Failed(e), buffer.skip(used as int)),
                Ok(()) => if stage == HandshakeStage::AwaitingFullResync {
                    spec_receive_rdb(buffer.skip(used as int))
                } else {
                    (
                        HandshakeStepModel::Send {
                            message: spec_serialize(
                                spec_command_frame(spec_request(config, Some(stage))),
                            ),
                            next: spec_next_stage(stage),
                        },
                        buffer.skip(used as int),
                    )
                },
            },
        }
    }
}

impl Handshaker {
    /// The handshaker of a replica with the settings `config`.
    pub fn new(config: Config) -> (r: Handshaker)
        ensures
            r.spec_config() == config,
    {
        Self { config }
    }

    /// The settings of the replica.
    pub closed spec fn spec_config(&self) -> Config {
        self.config
    }

    /// The settings of the replica.
    pub fn config(&self) -> (r: &Config)
        ensures
            *r == self.spec_config(),
    {
        &self.config
    }

    /// The first message of the handshake, `PING`, and the stage that it leads to.
    pub fn begin(&self) -> (r: (HandshakeStage, Vec<u8>))
        ensures
            r.0 == HandshakeStage::AwaitingPong,
            r.1@ == spec_serialize(spec_command_frame(spec_request(self.spec_config(), None))),
    {
        (HandshakeStage::AwaitingPong, Command::Ping.to_resp_token().serialize())
    }

    /// The request that follows a good answer at `stage`.
    fn request_after(&self, stage: HandshakeStage) -> (r: Vec<u8>)
        ensures
            r@ == spec_serialize(spec_command_frame(spec_request(self.spec_config(), Some(stage)))),
    {
        let command = match stage {
            HandshakeStage::AwaitingPong => Command::ReplConf(
                ReplConfCommand::ListeningPort(self.config.replica_port),
            ),
            HandshakeStage::AwaitingPortAck => Command::ReplConf(
                ReplConfCommand::Capa("psync2".to_owned()),
            ),
            _ => Command::Psync,
        };
        command.to_resp_token().serialize()
    }

    /// Judges the answer to `PING`: one simple string, `PONG` in any case.
    pub fn validate_ping(&self, response: Vec<Token>) -> (r: Result<(), HandshakeError>)
        ensures
            validation_agrees(r, spec_validate(frames_of(response@), Expected::Pong)),
    {
        validate(&response, Expected::Pong)
    }

    /// Judges the answer to `REPLCONF`: one simple string, `OK` in any case.
    pub fn validate_replconf(&self, response: Vec<Token>) -> (r: Result<(), HandshakeError>)
        ensures
            validation_agrees(r, spec_validate(frames_of(response@), Expected::Okay)),
    {
        validate(&response, Expected::Okay)
    }

    /// Judges the answer to `PSYNC`: one simple string that begins with `FULLRESYNC `.
    pub fn validate_psync(&self, response: Vec<Token>) -> (r: Result<(), HandshakeError>)
        ensures
            validation_agrees(r, spec_validate(frames_of(response@), Expected::FullResync)),
    {
        validate(&response, Expected::FullResync)
    }

    /// Takes the snapshot from what `client` holds unread, once all of it is there.
    /// What came in after it stays unread: it is the first of the replicated commands.
    pub fn receive_rdb_payload(&self, client: &mut Client) -> (r: HandshakeStep)
        ensures
            r@ == spec_receive_rdb(old(client)@).0,
            final(client)@ == spec_receive_rdb(old(client)@).1,
    {
        match parse_rdb_payload(client.get_buffer()) {
            Ok(payload) => {
                client.consume(payload.len);
                HandshakeStep::Finished(RDBPayload { rdb: payload.rdb })
            },
            Err(e) => match e {
                ParseError::Incomplete => HandshakeStep::NeedMore(HandshakeStage::AwaitingSnapshot),
                ParseError::Invalid => HandshakeStep::Failed(
                    HandshakeError::ParseError(Some(e.to_string())),
                ),
            },
        }
    }

    /// Takes one step of the handshake at `stage`, on what `client` holds unread.
    pub fn advance(&self, stage: HandshakeStage, client: &mut Client) -> (r: HandshakeStep)
        ensures
            r@ == spec_advance(self.spec_config(), stage, old(client)@).0,
            final(client)@ == spec_advance(self.spec_config(), stage, old(client)@).1,
    {
        let expected = match stage {
            HandshakeStage::AwaitingPong => Expected::Pong,
            HandshakeStage::AwaitingPortAck => Expected::Okay,
            HandshakeStage::AwaitingCapaAck => Expected::Okay,
            HandshakeStage::AwaitingFullResync => Expected::FullResync,
            HandshakeStage::AwaitingSnapshot => {
                return self.receive_rdb_payload(client);
            },
        };
        let response = match client.get_next_message() {
            Ok(Some(result)) => result.tokens,
            Ok(None) => {
                return HandshakeStep::NeedMore(stage);
            },
            Err(e) => {
                return HandshakeStep::Failed(HandshakeError::from_client_error(e));
            },
        };
        match validate(&response, expected) {
            Err(e) => HandshakeStep::Failed(e),
            Ok(()) => match stage {
                HandshakeStage::AwaitingPong => HandshakeStep::Send {
                    message: self.request_after(stage),
                    next: HandshakeStage::AwaitingPortAck,
                },
                HandshakeStage::AwaitingPortAck => HandshakeStep::Send {
                    message: self.request_after(stage),
                    next: HandshakeStage::AwaitingCapaAck,
                },
                HandshakeStage::AwaitingCapaAck => HandshakeStep::Send {
                    message: self.request_after(stage),
                    next: HandshakeStage::AwaitingFullResync,
                },
                _ => self.receive_rdb_payload(client),
            },
        }
    }
}

} // verus!
