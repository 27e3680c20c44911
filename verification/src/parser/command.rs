//! Typed commands: what an array of bulk strings asks the server to do.

use vstd::prelude::*;
use vstd::slice::slice_subrange;
use vstd::utf8::{decode_utf8, encode_utf8, valid_utf8};
use crate::parser::number::{bytes_to_unsigned, decimal_digits, parse_unsigned, unsigned_to_bytes};
use crate::parser::resp::{
    copy_bytes, frames_of, lemma_array_view, parse_token, spec_parse, Frame, ParseError, Token,
};
use crate::text::{ascii_lower, is_name, spells, text_of_bytes, to_ascii_lowercase};

verus! {

/// What a replica and its master tell each other with `REPLCONF`.
#[derive(Debug, PartialEq)]
pub enum ReplConfCommand {
    /// The replica has applied the replicated stream up to this byte offset.
    Ack(u64),
    /// The master asks for an acknowledgement; the argument is kept as it came.
    GetAck(Vec<u8>),
    /// The port on which the replica listens.
    ListeningPort(u16),
    /// A capability that the replica has.
    Capa(String),
    /// Any other setting, by its name in lower case.
    Other(String),
}

/// A command of the server.
#[derive(Debug, PartialEq)]
pub enum Command {
    Ping,
    Echo(Vec<u8>),
    Get(Vec<u8>),
    /// Stores `value` under `key`; `expiry` is the time to live in milliseconds.
    SetValue { key: Vec<u8>, value: Vec<u8>, expiry: Option<u64> },
    Info(Vec<u8>),
    ReplConf(ReplConfCommand),
    Psync,
    /// Waits until `replica_count` replicas have caught up, `timeout_ms` milliseconds at most.
    Wait { replica_count: u64, timeout_ms: u64 },
}

/// A command and the number of bytes that its frame took.
#[derive(Debug)]
pub struct CommandResult {
    pub command: Command,
    pub len: usize,
}

/// The mathematical model of a `REPLCONF` command.
pub enum ReplConfModel {
    Ack(u64),
    GetAck(Seq<u8>),
    ListeningPort(u16),
    Capa(Seq<char>),
    Other(Seq<char>),
}

/// The mathematical model of a command.
pub enum CommandModel {
    Ping,
    Echo(Seq<u8>),
    Get(Seq<u8>),
    SetValue { key: Seq<u8>, value: Seq<u8>, expiry: Option<u64> },
    Info(Seq<u8>),
    ReplConf(ReplConfModel),
    Psync,
    Wait { replica_count: u64, timeout_ms: u64 },
}

impl View for ReplConfCommand {
    type V = ReplConfModel;

    open spec fn view(&self) -> ReplConfModel {
        match self {
            ReplConfCommand::Ack(offset) => ReplConfModel::Ack(*offset),
            ReplConfCommand::GetAck(argument) => ReplConfModel::GetAck(argument@),
            ReplConfCommand::ListeningPort(port) => ReplConfModel::ListeningPort(*port),
            ReplConfCommand::Capa(capability) => ReplConfModel::Capa(capability@),
            ReplConfCommand::Other(name) => ReplConfModel::Other(name@),
        }
    }
}

impl View for Command {
    type V = CommandModel;

    open spec fn view(&self) -> CommandModel {
        match self {
            Command::Ping => CommandModel::Ping,
            Command::Echo(data) => CommandModel::Echo(data@),
            Command::Get(key) => CommandModel::Get(key@),
            Command::SetValue { key, value, expiry } => CommandModel::SetValue {
                key: key@,
                value: value@,
                expiry: *expiry,
            },
            Command::Info(section) => CommandModel::Info(section@),
            Command::ReplConf(replconf) => CommandModel::ReplConf(replconf@),
            Command::Psync => CommandModel::Psync,
            Command::Wait { replica_count, timeout_ms } => CommandModel::Wait {
                replica_count: *replica_count,
                timeout_ms: *timeout_ms,
            },
        }
    }
}

/// What compiling gives: a command, or `Invalid`.
pub type Compiled = Result<CommandModel, ParseError>;

/// `PING` takes no argument.
pub open spec fn spec_compile_ping(args: Seq<Frame>) -> Compiled {
    if args.len() == 0 {
        Ok(CommandModel::Ping)
    } else {
        Err(ParseError::Invalid)
    }
}

/// `ECHO` takes the bytes to send back.
pub open spec fn spec_compile_echo(args: Seq<Frame>) -> Compiled {
    if args.len() == 1 && args[0] is BulkString {
        Ok(CommandModel::Echo(args[0]->BulkString_0))
    } else {
        Err(ParseError::Invalid)
    }
}

/// `GET` takes a key.
pub open spec fn spec_compile_get(args: Seq<Frame>) -> Compiled {
    if args.len() == 1 && args[0] is BulkString {
        Ok(CommandModel::Get(args[0]->BulkString_0))
    } else {
        Err(ParseError::Invalid)
    }
}

/// `INFO` takes the name of a section.
pub open spec fn spec_compile_info(args: Seq<Frame>) -> Compiled {
    if args.len() == 1 && args[0] is BulkString {
        Ok(CommandModel::Info(args[0]->BulkString_0))
    } else {
        Err(ParseError::Invalid)
    }
}

/// `PSYNC` takes a replication id and an offset, neither of which is read.
pub open spec fn spec_compile_psync(args: Seq<Frame>) -> Compiled {
    if args.len() == 2 && args[0] is BulkString && args[1] is BulkString {
        Ok(CommandModel::Psync)
    } else {
        Err(ParseError::Invalid)
    }
}

/// The unsigned number, of 64 bits at most, that the bulk string `frame` spells.
pub open spec fn number_of(frame: Frame, max: nat) -> Option<nat> {
    match frame {
        Frame::BulkString(digits) => parse_unsigned(digits, max),
        _ => None,
    }
}

/// `WAIT` takes a number of replicas and a timeout in milliseconds.
pub open spec fn spec_compile_wait(args: Seq<Frame>) -> Compiled {
    if args.len() == 2 && number_of(args[0], u64::MAX as nat) is Some && number_of(
        args[1],
        u64::MAX as nat,
    ) is Some {
        Ok(
            CommandModel::Wait {
                replica_count: number_of(args[0], u64::MAX as nat).unwrap() as u64,
                timeout_ms: number_of(args[1], u64::MAX as nat).unwrap() as u64,
            },
        )
    } else {
        Err(ParseError::Invalid)
    }
}

/// The time to live that the options of a `SET` ask for: each option is `PX` and a
/// number of milliseconds, the last one counts, and `current` stands where there is none.
pub open spec fn spec_set_expiry(options: Seq<Frame>, current: Option<u64>) -> Result<
    Option<u64>,
    ParseError,
>
    decreases options.len(),
{
    if options.len() == 0 {
        Ok(current)
    } else if options.len() >= 2 && options[0] is BulkString && spells(
        options[0]->BulkString_0,
        "px",
    ) && number_of(options[1], u64::MAX as nat) is Some {
        spec_set_expiry(
            options.skip(2),
            Some(number_of(options[1], u64::MAX as nat).unwrap() as u64),
        )
    } else {
        Err(ParseError::Invalid)
    }
}

/// `SET` takes a key, a value and options.
pub open spec fn spec_compile_set(args: Seq<Frame>) -> Compiled {
    if args.len() >= 2 && args[0] is BulkString && args[1] is BulkString {
        match spec_set_expiry(args.skip(2), None) {
            Ok(expiry) => Ok(
                CommandModel::SetValue {
                    key: args[0]->BulkString_0,
                    value: args[1]->BulkString_0,
                    expiry,
                },
            ),
            Err(e) => Err(e),
        }
    } else {
        Err(ParseError::Invalid)
    }
}

/// `REPLCONF` takes the name of a setting and, for the settings that are known, one value.
pub open spec fn spec_compile_replconf(args: Seq<Frame>) -> Compiled {
    if args.len() >= 1 && args[0] is BulkString {
        let setting = args[0]->BulkString_0;
        let one_value = args.len() == 2 && args[1] is BulkString;
        if spells(setting, "ack") {
            if args.len() == 2 && number_of(args[1], u64::MAX as nat) is Some {
                Ok(
                    CommandModel::ReplConf(
                        ReplConfModel::Ack(number_of(args[1], u64::MAX as nat).unwrap() as u64),
                    ),
                )
            } else {
                Err(ParseError::Invalid)
            }
        } else if spells(setting, "listening-port") {
            if args.len() == 2 && number_of(args[1], u16::MAX as nat) is Some {
                Ok(
                    CommandModel::ReplConf(
                        ReplConfModel::ListeningPort(
                            number_of(args[1], u16::MAX as nat).unwrap() as u16,
                        ),
                    ),
                )
            } else {
                Err(ParseError::Invalid)
            }
        } else if spells(setting, "capa") {
            if one_value && valid_utf8(args[1]->BulkString_0) {
                Ok(
                    CommandModel::ReplConf(
                        ReplConfModel::Capa(decode_utf8(args[1]->BulkString_0)),
                    ),
                )
            } else {
                Err(ParseError::Invalid)
            }
        } else if spells(setting, "getack") {
            if one_value {
                Ok(CommandModel::ReplConf(ReplConfModel::GetAck(args[1]->BulkString_0)))
            } else {
                Err(ParseError::Invalid)
            }
        } else if args.len() == 1 && valid_utf8(ascii_lower(setting)) {
            Ok(CommandModel::ReplConf(ReplConfModel::Other(decode_utf8(ascii_lower(setting)))))
        } else {
            Err(ParseError::Invalid)
        }
    } else {
        Err(ParseError::Invalid)
    }
}

/// The command that the items of an array spell: the first is its name, read
/// without regard to ASCII case, the others are its arguments.
pub open spec fn spec_compile(tokens: Seq<Frame>) -> Compiled {
    if tokens.len() >= 1 && tokens[0] is BulkString {
        let name = tokens[0]->BulkString_0;
        let args = tokens.skip(1);
        if spells(name, "ping") {
            spec_compile_ping(args)
        } else if spells(name, "echo") {
            spec_compile_echo(args)
        } else if spells(name, "get") {
            spec_compile_get(args)
        } else if spells(name, "set") {
            spec_compile_set(args)
        } else if spells(name, "info") {
            spec_compile_info(args)
        } else if spells(name, "replconf") {
            spec_compile_replconf(args)
        } else if spells(name, "psync") {
            spec_compile_psync(args)
        } else if spells(name, "wait") {
            spec_compile_wait(args)
        } else {
            Err(ParseError::Invalid)
        }
    } else {
        Err(ParseError::Invalid)
    }
}

/// The command that `frame` spells: only an array spells one.
pub open spec fn spec_compile_frame(frame: Frame) -> Compiled {
    match frame {
        Frame::Array(items) => spec_compile(items),
        _ => Err(ParseError::Invalid),
    }
}

/// The command that starts `message`, and the number of bytes that it takes.
pub open spec fn spec_parse_command(message: Seq<u8>) -> Result<(CommandModel, nat), ParseError> {
    match spec_parse(message) {
        Err(e) => Err(e),
        Ok((frame, used)) => match spec_compile_frame(frame) {
            Err(e) => Err(e),
            Ok(command) => Ok((command, used)),
        },
    }
}

/// Whether the outcome `r` of compiling is the one that the model `m` asks for.
pub open spec fn command_agrees(r: Result<Command, ParseError>, m: Compiled) -> bool {
    match m {
        Ok(command) => r matches Ok(compiled) && compiled@ == command,
        Err(e) => r matches Err(f) && f == e,
    }
}

/// The bytes of the bulk string `token`.
fn bulk_bytes(token: &Token) -> (r: Option<Vec<u8>>)
    ensures
        match token@ {
            Frame::BulkString(data) => r matches Some(bytes) && bytes@ == data,
            _ => r is None,
        },
{
    match token {
        Token::BulkString(data) => Some(copy_bytes(data.as_slice())),
        _ => None,
    }
}

/// The unsigned number that the bulk string `token` spells.
fn bulk_number(token: &Token) -> (r: Option<u64>)
    ensures
        match number_of(token@, u64::MAX as nat) {
            Some(n) => r == Some(n as u64),
            None => r is None,
        },
{
    match token {
        Token::BulkString(digits) => bytes_to_unsigned(digits.as_slice()),
        _ => None,
    }
}

/// Compiles the arguments of `PING`.
pub fn compile_ping_command(tokens: &[Token]) -> (r: Result<Command, ParseError>)
    ensures
        command_agrees(r, spec_compile_ping(frames_of(tokens@))),
{
    if tokens.len() == 0 {
        Ok(Command::Ping)
    } else {
        Err(ParseError::Invalid)
    }
}

/// Compiles the arguments of `ECHO`.
pub fn compile_echo_command(tokens: &[Token]) -> (r: Result<Command, ParseError>)
    ensures
        command_agrees(r, spec_compile_echo(frames_of(tokens@))),
{
    if tokens.len() != 1 {
        return Err(ParseError::Invalid);
    }
    match bulk_bytes(&tokens[0]) {
        Some(data) => Ok(Command::Echo(data)),
        None => Err(ParseError::Invalid),
    }
}

/// Compiles the arguments of `GET`.
pub fn compile_get_command(tokens: &[Token]) -> (r: Result<Command, ParseError>)
    ensures
        command_agrees(r, spec_compile_get(frames_of(tokens@))),
{
    if tokens.len() != 1 {
        return Err(ParseError::Invalid);
    }
    match bulk_bytes(&tokens[0]) {
        Some(key) => Ok(Command::Get(key)),
        None => Err(ParseError::Invalid),
    }
}

/// Compiles the arguments of `INFO`.
pub fn compile_info_command(tokens: &[Token]) -> (r: Result<Command, ParseError>)
    ensures
        command_agrees(r, spec_compile_info(frames_of(tokens@))),
{
    if tokens.len() != 1 {
        return Err(ParseError::Invalid);
    }
    match bulk_bytes(&tokens[0]) {
        Some(section) => Ok(Command::Info(section)),
        None => Err(ParseError::Invalid),
    }
}

/// Compiles the arguments of `PSYNC`.
pub fn compile_psync_command(tokens: &[Token]) -> (r: Result<Command, ParseError>)
    ensures
        command_agrees(r, spec_compile_psync(frames_of(tokens@))),
{
    if tokens.len() != 2 {
        return Err(ParseError::Invalid);
    }
    match (&tokens[0], &tokens[1]) {
        (Token::BulkString(_), Token::BulkString(_)) => Ok(Command::Psync),
        _ => Err(ParseError::Invalid),
    }
}

/// Compiles the arguments of `WAIT`.
pub fn compile_wait_command(tokens: &[Token]) -> (r: Result<Command, ParseError>)
    ensures
        command_agrees(r, spec_compile_wait(frames_of(tokens@))),
{
    if tokens.len() != 2 {
        return Err(ParseError::Invalid);
    }
    let replica_count: u64 = match bulk_number(&tokens[0]) {
        Some(n) => n,
        None => {
            return Err(ParseError::Invalid);
        },
    };
    let timeout_ms: u64 = match bulk_number(&tokens[1]) {
        Some(n) => n,
        None => {
            return Err(ParseError::Invalid);
        },
    };
    Ok(Command::Wait { replica_count, timeout_ms })
}

/// Compiles the arguments of `SET`.
pub fn compile_set_command(tokens: &[Token]) -> (r: Result<Command, ParseError>)
    ensures
        command_agrees(r, spec_compile_set(frames_of(tokens@))),
{
    if tokens.len() < 2 {
        return Err(ParseError::Invalid);
    }
    let key = match bulk_bytes(&tokens[0]) {
        Some(key) => key,
        None => {
            return Err(ParseError::Invalid);
        },
    };
    let value = match bulk_bytes(&tokens[1]) {
        Some(value) => value,
        None => {
            return Err(ParseError::Invalid);
        },
    };
    let ghost args = frames_of(tokens@);
    let mut expiry: Option<u64> = None;
    let mut i: usize = 2;
    while i < tokens.len()
        invariant
            2 <= i <= tokens@.len(),
            args == frames_of(tokens@),
            spec_set_expiry(args.skip(2), None) == spec_set_expiry(args.skip(i as int), expiry),
        decreases tokens@.len() - i,
    {
        let ghost options = args.skip(i as int);
        assert(options[0] == tokens@[i as int]@);
        let is_px = match &tokens[i] {
            Token::BulkString(option) => is_name(option.as_slice(), "px"),
            _ => false,
        };
        if !is_px || tokens.len() - i < 2 {
            return Err(ParseError::Invalid);
        }
        assert(options[1] == tokens@[i + 1]@);
        match bulk_number(&tokens[i + 1]) {
            Some(ms) => {
                expiry = Some(ms);
            },
            None => {
                return Err(ParseError::Invalid);
            },
        }
        assert(options.skip(2) =~= args.skip(i + 2));
        i += 2;
    }
    Ok(Command::SetValue { key, value, expiry })
}

/// Compiles the arguments of `REPLCONF`.
pub fn compile_replconf_command(tokens: &[Token]) -> (r: Result<Command, ParseError>)
    ensures
        command_agrees(r, spec_compile_replconf(frames_of(tokens@))),
{
    if tokens.len() < 1 {
        return Err(ParseError::Invalid);
    }
    let setting = match &tokens[0] {
        Token::BulkString(setting) => setting,
        _ => {
            return Err(ParseError::Invalid);
        },
    };
    if is_name(setting.as_slice(), "ack") {
        if tokens.len() != 2 {
            return Err(ParseError::Invalid);
        }
        match bulk_number(&tokens[1]) {
            Some(offset) => Ok(Command::ReplConf(ReplConfCommand::Ack(offset))),
            None => Err(ParseError::Invalid),
        }
    } else if is_name(setting.as_slice(), "listening-port") {
        if tokens.len() != 2 {
            return Err(ParseError::Invalid);
        }
        match bulk_number(&tokens[1]) {
            Some(port) => {
                if port > 0xffff {
                    Err(ParseError::Invalid)
                } else {
                    Ok(Command::ReplConf(ReplConfCommand::ListeningPort(port as u16)))
                }
            },
            None => Err(ParseError::Invalid),
        }
    } else if is_name(setting.as_slice(), "capa") {
        if tokens.len() != 2 {
            return Err(ParseError::Invalid);
        }
        match &tokens[1] {
            Token::BulkString(capability) => match text_of_bytes(capability.as_slice()) {
                Some(text) => Ok(Command::ReplConf(ReplConfCommand::Capa(text))),
                None => Err(ParseError::Invalid),
            },
            _ => Err(ParseError::Invalid),
        }
    } else if is_name(setting.as_slice(), "getack") {
        if tokens.len() != 2 {
            return Err(ParseError::Invalid);
        }
        match bulk_bytes(&tokens[1]) {
            Some(argument) => Ok(Command::ReplConf(ReplConfCommand::GetAck(argument))),
            None => Err(ParseError::Invalid),
        }
    } else {
        if tokens.len() != 1 {
            return Err(ParseError::Invalid);
        }
        let lowered = to_ascii_lowercase(setting.as_slice());
        match text_of_bytes(lowered.as_slice()) {
            Some(name) => Ok(Command::ReplConf(ReplConfCommand::Other(name))),
            None => Err(ParseError::Invalid),
        }
    }
}

/// Compiles the items of an array into the command that they spell.
pub fn compile_and_get_command(tokens: &[Token]) -> (r: Result<Command, ParseError>)
    ensures
        command_agrees(r, spec_compile(frames_of(tokens@))),
{
    if tokens.len() < 1 {
        return Err(ParseError::Invalid);
    }
    let name = match &tokens[0] {
        Token::BulkString(name) => name,
        _ => {
            return Err(ParseError::Invalid);
        },
    };
    let rest = slice_subrange(tokens, 1, tokens.len());
    assert(frames_of(rest@) =~= frames_of(tokens@).skip(1));
    if is_name(name.as_slice(), "ping") {
        compile_ping_command(rest)
    } else if is_name(name.as_slice(), "echo") {
        compile_echo_command(rest)
    } else if is_name(name.as_slice(), "get") {
        compile_get_command(rest)
    } else if is_name(name.as_slice(), "set") {
        compile_set_command(rest)
    } else if is_name(name.as_slice(), "info") {
        compile_info_command(rest)
    } else if is_name(name.as_slice(), "replconf") {
        compile_replconf_command(rest)
    } else if is_name(name.as_slice(), "psync") {
        compile_psync_command(rest)
    } else if is_name(name.as_slice(), "wait") {
        compile_wait_command(rest)
    } else {
        Err(ParseError::Invalid)
    }
}

/// Compiles a frame into the command that it spells.
pub fn compile_token(token: &Token) -> (r: Result<Command, ParseError>)
    ensures
        command_agrees(r, spec_compile_frame(token@)),
{
    match token {
        Token::Array(items) => {
            proof {
                lemma_array_view(*items);
            }
            compile_and_get_command(items.as_slice())
        },
        _ => Err(ParseError::Invalid),
    }
}

/// Parses the frame that starts `message` and compiles it into a command.
pub fn parse_command(message: &[u8]) -> (r: Result<CommandResult, ParseError>)
    ensures
        match spec_parse_command(message@) {
            Ok((command, used)) => r matches Ok(result) && result.command@ == command
                && result.len == used,
            Err(e) => r matches Err(f) && f == e,
        },
        r matches Ok(result) ==> 0 < result.len <= message@.len(),
{
    match parse_token(message) {
        Err(e) => Err(e),
        Ok((token, len)) => match compile_token(&token) {
            Err(e) => Err(e),
            Ok(command) => Ok(CommandResult { command, len }),
        },
    }
}

/// The bulk string that holds `text`.
pub open spec fn text_frame(text: &str) -> Frame {
    Frame::BulkString(encode_utf8(text@))
}

/// The bulk string that holds the decimal text of `n`.
pub open spec fn number_frame(n: nat) -> Frame {
    Frame::BulkString(decimal_digits(n))
}

/// The items of the array that spells `command`.
pub open spec fn spec_command_items(command: CommandModel) -> Seq<Frame> {
    match command {
        CommandModel::Ping => seq![text_frame("PING")],
        CommandModel::Echo(data) => seq![text_frame("ECHO"), Frame::BulkString(data)],
        CommandModel::Get(key) => seq![text_frame("GET"), Frame::BulkString(key)],
        CommandModel::SetValue { key, value, expiry } => match expiry {
            None => seq![text_frame("SET"), Frame::BulkString(key), Frame::BulkString(value)],
            Some(ms) => seq![
                text_frame("SET"),
                Frame::BulkString(key),
                Frame::BulkString(value),
                text_frame("PX"),
                number_frame(ms as nat),
            ],
        },
        CommandModel::Info(section) => seq![text_frame("INFO"), Frame::BulkString(section)],
        CommandModel::ReplConf(replconf) => match replconf {
            ReplConfModel::Ack(offset) => seq![
                text_frame("REPLCONF"),
                text_frame("ACK"),
                number_frame(offset as nat),
            ],
            ReplConfModel::GetAck(argument) => seq![
                text_frame("REPLCONF"),
                text_frame("GETACK"),
                Frame::BulkString(argument),
            ],
            ReplConfModel::ListeningPort(port) => seq![
                text_frame("REPLCONF"),
                text_frame("listening-port"),
                number_frame(port as nat),
            ],
            ReplConfModel::Capa(capability) => seq![
                text_frame("REPLCONF"),
                text_frame("capa"),
                Frame::BulkString(encode_utf8(capability)),
            ],
            ReplConfModel::Other(name) => seq![
                text_frame("REPLCONF"),
                Frame::BulkString(encode_utf8(name)),
            ],
        },
        CommandModel::Psync => seq![text_frame("PSYNC"), text_frame("?"), text_frame("-1")],
        CommandModel::Wait { replica_count, timeout_ms } => seq![
            text_frame("WAIT"),
            number_frame(replica_count as nat),
            number_frame(timeout_ms as nat),
        ],
    }
}

/// The frame that spells `command`: an array of bulk strings.
pub open spec fn spec_command_frame(command: CommandModel) -> Frame {
    Frame::Array(spec_command_items(command))
}

/// The bulk string that holds `text`.
pub fn text_token(text: &str) -> (r: Token)
    ensures
        r@ == text_frame(text),
{
    Token::BulkString(copy_bytes(text.as_bytes()))
}

/// The bulk string that holds the decimal text of `n`.
pub fn number_token(n: u64) -> (r: Token)
    ensures
        r@ == number_frame(n as nat),
{
    Token::BulkString(unsigned_to_bytes(n))
}

/// The bulk string that holds a copy of `bytes`.
pub fn bytes_token(bytes: &[u8]) -> (r: Token)
    ensures
        r@ == Frame::BulkString(bytes@),
{
    Token::BulkString(copy_bytes(bytes))
}

/// The array of the given tokens.
fn array_of(tokens: Vec<Token>) -> (r: Token)
    ensures
        r@ == Frame::Array(frames_of(tokens@)),
{
    proof {
        lemma_array_view(tokens);
    }
    Token::Array(tokens)
}

/// The array of two tokens.
fn array_of_two(first: Token, second: Token) -> (r: Token)
    ensures
        r@ == Frame::Array(seq![first@, second@]),
{
    let mut tokens: Vec<Token> = Vec::new();
    tokens.push(first);
    tokens.push(second);
    assert(frames_of(tokens@) =~= seq![first@, second@]);
    array_of(tokens)
}

/// The array of three tokens.
fn array_of_three(first: Token, second: Token, third: Token) -> (r: Token)
    ensures
        r@ == Frame::Array(seq![first@, second@, third@]),
{
    let mut tokens: Vec<Token> = Vec::new();
    tokens.push(first);
    tokens.push(second);
    tokens.push(third);
    assert(frames_of(tokens@) =~= seq![first@, second@, third@]);
    array_of(tokens)
}

impl ReplConfCommand {
    /// The frame that spells this command: an array of bulk strings.
    pub fn to_resp_token(&self) -> (r: Token)
        ensures
            r@ == spec_command_frame(CommandModel::ReplConf(self@)),
    {
        let name = text_token("REPLCONF");
        match self {
            ReplConfCommand::Ack(offset) => array_of_three(
                name,
                text_token("ACK"),
                number_token(*offset),
            ),
            ReplConfCommand::GetAck(argument) => array_of_three(
                name,
                text_token("GETACK"),
                bytes_token(argument.as_slice()),
            ),
            ReplConfCommand::ListeningPort(port) => array_of_three(
                name,
                text_token("listening-port"),
                number_token(*port as u64),
            ),
            ReplConfCommand::Capa(capability) => array_of_three(
                name,
                text_token("capa"),
                bytes_token(capability.as_str().as_bytes()),
            ),
            ReplConfCommand::Other(setting) => array_of_two(
                name,
                bytes_token(setting.as_str().as_bytes()),
            ),
        }
    }
}

impl Command {
    /// The frame that spells this command: an array of bulk strings.
    pub fn to_resp_token(&self) -> (r: Token)
        ensures
            r@ == spec_command_frame(self@),
    {
        match self {
            Command::Ping => {
                let mut tokens: Vec<Token> = Vec::new();
                tokens.push(text_token("PING"));
                assert(frames_of(tokens@) =~= seq![text_frame("PING")]);
                array_of(tokens)
            },
            Command::Echo(data) => array_of_two(text_token("ECHO"), bytes_token(data.as_slice())),
            Command::Get(key) => array_of_two(text_token("GET"), bytes_token(key.as_slice())),
            Command::SetValue { key, value, expiry } => {
                let mut tokens: Vec<Token> = Vec::new();
                tokens.push(text_token("SET"));
                tokens.push(bytes_token(key.as_slice()));
                tokens.push(bytes_token(value.as_slice()));
                if let Some(ms) = expiry {
                    tokens.push(text_token("PX"));
                    tokens.push(number_token(*ms));
                }
                assert(frames_of(tokens@) =~= spec_command_items(self@));
                array_of(tokens)
            },
            Command::Info(section) => array_of_two(
                text_token("INFO"),
                bytes_token(section.as_slice()),
            ),
            Command::ReplConf(replconf) => replconf.to_resp_token(),
            Command::Psync => array_of_three(
                text_token("PSYNC"),
                text_token("?"),
                text_token("-1"),
            ),
            Command::Wait { replica_count, timeout_ms } => array_of_three(
                text_token("WAIT"),
                number_token(*replica_count),
                number_token(*timeout_ms),
            ),
        }
    }
}

} // verus!
