//! What compiling makes of the frame that spells a command: the command itself.
//! So what a master sends on for a write is the same write to its replicas.

use vstd::prelude::*;
use vstd::utf8::{
    decode_utf8, encode_utf8, encode_utf8_decode_utf8, encode_utf8_valid_utf8,
    is_ascii_chars_encode_utf8,
};
use crate::parser::command::{
    number_frame, number_of, spec_command_frame, spec_command_items, spec_compile,
    spec_compile_echo, spec_compile_frame, spec_compile_get, spec_compile_info,
    spec_compile_ping, spec_compile_psync, spec_compile_replconf, spec_compile_set,
    spec_compile_wait, spec_parse_command, spec_set_expiry, text_frame, CommandModel, Compiled,
    ReplConfModel,
};
use crate::parser::number::{lemma_decimal_digits, lemma_decimal_digits_len};
use crate::parser::resp::{spec_serialize, Frame, ParseError};
use crate::parser::roundtrip::{lemma_parse_serialized, well_formed};
use crate::text::{ascii_lower, spells};

verus! {

/// The encoding of a text of ASCII characters holds one byte for each of them.
proof fn lemma_ascii_encoding(text: Seq<char>, bytes: Seq<u8>)
    requires
        text.len() == bytes.len(),
        forall|i: int|
            0 <= i < text.len() ==> '\0' <= (#[trigger] text[i]) <= '\u{7f}' && text[i] as u8
                == bytes[i],
    ensures
        encode_utf8(text) == bytes,
{
    assert(vstd::utf8::is_ascii_chars(text));
    is_ascii_chars_encode_utf8(text);
    assert(encode_utf8(text) =~= bytes);
}

/// The bytes of the names of the commands, as they are sent.
proof fn lemma_sent_names()
    ensures
        encode_utf8("PING"@) == seq![80u8, 73, 78, 71],
        encode_utf8("ECHO"@) == seq![69u8, 67, 72, 79],
        encode_utf8("GET"@) == seq![71u8, 69, 84],
        encode_utf8("SET"@) == seq![83u8, 69, 84],
        encode_utf8("INFO"@) == seq![73u8, 78, 70, 79],
        encode_utf8("REPLCONF"@) == seq![82u8, 69, 80, 76, 67, 79, 78, 70],
        encode_utf8("PSYNC"@) == seq![80u8, 83, 89, 78, 67],
        encode_utf8("WAIT"@) == seq![87u8, 65, 73, 84],
{
    reveal_strlit("PING");
    lemma_ascii_encoding("PING"@, seq![80u8, 73, 78, 71]);
    reveal_strlit("ECHO");
    lemma_ascii_encoding("ECHO"@, seq![69u8, 67, 72, 79]);
    reveal_strlit("GET");
    lemma_ascii_encoding("GET"@, seq![71u8, 69, 84]);
    reveal_strlit("SET");
    lemma_ascii_encoding("SET"@, seq![83u8, 69, 84]);
    reveal_strlit("INFO");
    lemma_ascii_encoding("INFO"@, seq![73u8, 78, 70, 79]);
    reveal_strlit("REPLCONF");
    lemma_ascii_encoding("REPLCONF"@, seq![82u8, 69, 80, 76, 67, 79, 78, 70]);
    reveal_strlit("PSYNC");
    lemma_ascii_encoding("PSYNC"@, seq![80u8, 83, 89, 78, 67]);
    reveal_strlit("WAIT");
    lemma_ascii_encoding("WAIT"@, seq![87u8, 65, 73, 84]);
}

/// The bytes of the names of the commands, as they are compared.
proof fn lemma_known_names()
    ensures
        encode_utf8("ping"@) == seq![112u8, 105, 110, 103],
        encode_utf8("echo"@) == seq![101u8, 99, 104, 111],
        encode_utf8("get"@) == seq![103u8, 101, 116],
        encode_utf8("set"@) == seq![115u8, 101, 116],
        encode_utf8("info"@) == seq![105u8, 110, 102, 111],
        encode_utf8("replconf"@) == seq![114u8, 101, 112, 108, 99, 111, 110, 102],
        encode_utf8("psync"@) == seq![112u8, 115, 121, 110, 99],
        encode_utf8("wait"@) == seq![119u8, 97, 105, 116],
{
    reveal_strlit("ping");
    lemma_ascii_encoding("ping"@, seq![112u8, 105, 110, 103]);
    reveal_strlit("echo");
    lemma_ascii_encoding("echo"@, seq![101u8, 99, 104, 111]);
    reveal_strlit("get");
    lemma_ascii_encoding("get"@, seq![103u8, 101, 116]);
    reveal_strlit("set");
    lemma_ascii_encoding("set"@, seq![115u8, 101, 116]);
    reveal_strlit("info");
    lemma_ascii_encoding("info"@, seq![105u8, 110, 102, 111]);
    reveal_strlit("replconf");
    lemma_ascii_encoding("replconf"@, seq![114u8, 101, 112, 108, 99, 111, 110, 102]);
    reveal_strlit("psync");
    lemma_ascii_encoding("psync"@, seq![112u8, 115, 121, 110, 99]);
    reveal_strlit("wait");
    lemma_ascii_encoding("wait"@, seq![119u8, 97, 105, 116]);
}

/// The bytes of the names of the settings and options, as they are sent and compared.
proof fn lemma_setting_names()
    ensures
        encode_utf8("ACK"@) == seq![65u8, 67, 75],
        encode_utf8("ack"@) == seq![97u8, 99, 107],
        encode_utf8("GETACK"@) == seq![71u8, 69, 84, 65, 67, 75],
        encode_utf8("getack"@) == seq![103u8, 101, 116, 97, 99, 107],
        encode_utf8("capa"@) == seq![99u8, 97, 112, 97],
        encode_utf8("listening-port"@) == seq![
            108u8,
            105,
            115,
            116,
            101,
            110,
            105,
            110,
            103,
            45,
            112,
            111,
            114,
            116,
        ],
        encode_utf8("PX"@) == seq![80u8, 88],
        encode_utf8("px"@) == seq![112u8, 120],
        encode_utf8("?"@) == seq![63u8],
        encode_utf8("-1"@) == seq![45u8, 49],
{
    reveal_strlit("ACK");
    lemma_ascii_encoding("ACK"@, seq![65u8, 67, 75]);
    reveal_strlit("ack");
    lemma_ascii_encoding("ack"@, seq![97u8, 99, 107]);
    reveal_strlit("GETACK");
    lemma_ascii_encoding("GETACK"@, seq![71u8, 69, 84, 65, 67, 75]);
    reveal_strlit("getack");
    lemma_ascii_encoding("getack"@, seq![103u8, 101, 116, 97, 99, 107]);
    reveal_strlit("capa");
    lemma_ascii_encoding("capa"@, seq![99u8, 97, 112, 97]);
    reveal_strlit("listening-port");
    lemma_ascii_encoding(
        "listening-port"@,
        seq![108u8, 105, 115, 116, 101, 110, 105, 110, 103, 45, 112, 111, 114, 116],
    );
    reveal_strlit("PX");
    lemma_ascii_encoding("PX"@, seq![80u8, 88]);
    reveal_strlit("px");
    lemma_ascii_encoding("px"@, seq![112u8, 120]);
    reveal_strlit("?");
    lemma_ascii_encoding("?"@, seq![63u8]);
    reveal_strlit("-1");
    lemma_ascii_encoding("-1"@, seq![45u8, 49]);
}

/// The number of the command whose name `bytes` spell, in the order in which the
/// names are tried; 8 where they spell none.
#[verifier::opaque]
spec fn spelled_command(bytes: Seq<u8>) -> int {
    if spells(bytes, "ping") {
        0
    } else if spells(bytes, "echo") {
        1
    } else if spells(bytes, "get") {
        2
    } else if spells(bytes, "set") {
        3
    } else if spells(bytes, "info") {
        4
    } else if spells(bytes, "replconf") {
        5
    } else if spells(bytes, "psync") {
        6
    } else if spells(bytes, "wait") {
        7
    } else {
        8
    }
}

/// Each name that is sent spells its own command and no other.
proof fn lemma_sent_names_spell_their_commands()
    ensures
        spelled_command(encode_utf8("PING"@)) == 0,
        spelled_command(encode_utf8("ECHO"@)) == 1,
        spelled_command(encode_utf8("GET"@)) == 2,
        spelled_command(encode_utf8("SET"@)) == 3,
        spelled_command(encode_utf8("INFO"@)) == 4,
        spelled_command(encode_utf8("REPLCONF"@)) == 5,
        spelled_command(encode_utf8("PSYNC"@)) == 6,
        spelled_command(encode_utf8("WAIT"@)) == 7,
{
    reveal(spelled_command);
    lemma_sent_names();
    lemma_known_names();
    let ping = seq![80u8, 73, 78, 71];
    let echo = seq![69u8, 67, 72, 79];
    let get = seq![71u8, 69, 84];
    let set = seq![83u8, 69, 84];
    let info = seq![73u8, 78, 70, 79];
    let replconf = seq![82u8, 69, 80, 76, 67, 79, 78, 70];
    let psync = seq![80u8, 83, 89, 78, 67];
    let wait = seq![87u8, 65, 73, 84];
    assert(ascii_lower(ping) =~= seq![112u8, 105, 110, 103]);
    assert(ascii_lower(echo) =~= seq![101u8, 99, 104, 111]);
    assert(ascii_lower(get) =~= seq![103u8, 101, 116]);
    assert(ascii_lower(set) =~= seq![115u8, 101, 116]);
    assert(ascii_lower(info) =~= seq![105u8, 110, 102, 111]);
    assert(ascii_lower(replconf) =~= seq![114u8, 101, 112, 108, 99, 111, 110, 102]);
    assert(ascii_lower(psync) =~= seq![112u8, 115, 121, 110, 99]);
    assert(ascii_lower(wait) =~= seq![119u8, 97, 105, 116]);
    assert(seq![101u8, 99, 104, 111][0] != seq![112u8, 105, 110, 103][0]);
    assert(seq![115u8, 101, 116][0] != seq![103u8, 101, 116][0]);
    assert(seq![105u8, 110, 102, 111][0] != seq![112u8, 105, 110, 103][0]);
    assert(seq![105u8, 110, 102, 111][0] != seq![101u8, 99, 104, 111][0]);
    assert(seq![119u8, 97, 105, 116][0] != seq![112u8, 105, 110, 103][0]);
    assert(seq![119u8, 97, 105, 116][0] != seq![101u8, 99, 104, 111][0]);
    assert(seq![119u8, 97, 105, 116][0] != seq![105u8, 110, 102, 111][0]);
    assert(seq![112u8, 105, 110, 103].len() == 4);
    assert(seq![101u8, 99, 104, 111].len() == 4);
    assert(seq![103u8, 101, 116].len() == 3);
    assert(seq![115u8, 101, 116].len() == 3);
    assert(seq![105u8, 110, 102, 111].len() == 4);
    assert(seq![114u8, 101, 112, 108, 99, 111, 110, 102].len() == 8);
    assert(seq![112u8, 115, 121, 110, 99].len() == 5);
    assert(seq![119u8, 97, 105, 116].len() == 4);
}

/// The number of the setting whose name `bytes` spell, in the order in which the
/// names are tried; 4 where they spell none.
#[verifier::opaque]
spec fn spelled_setting(bytes: Seq<u8>) -> int {
    if spells(bytes, "ack") {
        0
    } else if spells(bytes, "listening-port") {
        1
    } else if spells(bytes, "capa") {
        2
    } else if spells(bytes, "getack") {
        3
    } else {
        4
    }
}

/// Each name of a setting that is sent spells its own setting and no other, and
/// `PX` spells the one option of `SET`.
proof fn lemma_sent_settings_spell_their_settings()
    ensures
        spelled_setting(encode_utf8("ACK"@)) == 0,
        spelled_setting(encode_utf8("listening-port"@)) == 1,
        spelled_setting(encode_utf8("capa"@)) == 2,
        spelled_setting(encode_utf8("GETACK"@)) == 3,
        spells(encode_utf8("PX"@), "px"),
{
    reveal(spelled_setting);
    lemma_setting_names();
    let port = seq![108u8, 105, 115, 116, 101, 110, 105, 110, 103, 45, 112, 111, 114, 116];
    assert(ascii_lower(seq![65u8, 67, 75]) =~= seq![97u8, 99, 107]);
    assert(ascii_lower(port) =~= port);
    assert(ascii_lower(seq![99u8, 97, 112, 97]) =~= seq![99u8, 97, 112, 97]);
    assert(ascii_lower(seq![71u8, 69, 84, 65, 67, 75]) =~= seq![103u8, 101, 116, 97, 99, 107]);
    assert(ascii_lower(seq![80u8, 88]) =~= seq![112u8, 120]);
    assert(seq![97u8, 99, 107].len() == 3);
    assert(port.len() == 14);
    assert(seq![99u8, 97, 112, 97].len() == 4);
    assert(seq![103u8, 101, 116, 97, 99, 107].len() == 6);
}

/// Whether `command` is one that compiling can give: a setting of `REPLCONF` that
/// is none of the known ones has a name in lower case, and is none of the known ones.
pub open spec fn is_canonical(command: CommandModel) -> bool {
    match command {
        CommandModel::ReplConf(ReplConfModel::Other(name)) => {
            let bytes = encode_utf8(name);
            &&& ascii_lower(bytes) == bytes
            &&& !spells(bytes, "ack")
            &&& !spells(bytes, "listening-port")
            &&& !spells(bytes, "capa")
            &&& !spells(bytes, "getack")
        },
        _ => true,
    }
}

/// The text of a number is read back as the number.
proof fn lemma_number_frame(n: nat, max: nat)
    requires
        n <= max,
    ensures
        number_of(number_frame(n), max) == Some(n),
{
    lemma_decimal_digits(n);
}

/// The arguments that spell a `SET` compile to it.
proof fn lemma_compile_spelled_set(key: Seq<u8>, value: Seq<u8>, expiry: Option<u64>)
    ensures
        spec_compile_set(
            spec_command_items(CommandModel::SetValue { key, value, expiry }).skip(1),
        ) == Ok::<CommandModel, ParseError>(CommandModel::SetValue { key, value, expiry }),
{
    let args = spec_command_items(CommandModel::SetValue { key, value, expiry }).skip(1);
    let options = args.skip(2);
    assert(args[0] == Frame::BulkString(key));
    assert(args[1] == Frame::BulkString(value));
    match expiry {
        None => {
            assert(options.len() == 0);
        },
        Some(ms) => {
            lemma_sent_settings_spell_their_settings();
            lemma_number_frame(ms as nat, u64::MAX as nat);
            assert(options.len() == 2);
            assert(options[0] == text_frame("PX"));
            assert(options[1] == number_frame(ms as nat));
            assert(options.skip(2).len() == 0);
            assert(spec_set_expiry(options.skip(2), Some(ms)) == Ok::<Option<u64>, ParseError>(
                Some(ms),
            ));
        },
    }
}

/// What compiling makes of the arguments `args` of a `REPLCONF` whose setting has
/// the number `number`, in the order in which the names are tried.
#[verifier::opaque]
spec fn replconf_as(number: int, args: Seq<Frame>) -> Compiled {
    if number == 0 {
        if args.len() == 2 && number_of(args[1], u64::MAX as nat) is Some {
            Ok(
                CommandModel::ReplConf(
                    ReplConfModel::Ack(number_of(args[1], u64::MAX as nat).unwrap() as u64),
                ),
            )
        } else {
            Err(ParseError::Invalid)
        }
    } else if number == 1 {
        if args.len() == 2 && number_of(args[1], u16::MAX as nat) is Some {
            Ok(
                CommandModel::ReplConf(
                    ReplConfModel::ListeningPort(
                        number_of(args[1], u16::MAX as nat).unwrap() as u16,
                    ),
                ),
            )
        } else {
            Err(ParseError::Invalid)
        }
    } else if number == 2 {
        if args.len() == 2 && args[1] is BulkString && vstd::utf8::valid_utf8(
            args[1]->BulkString_0,
        ) {
            Ok(CommandModel::ReplConf(ReplConfModel::Capa(decode_utf8(args[1]->BulkString_0))))
        } else {
            Err(ParseError::Invalid)
        }
    } else if number == 3 {
        if args.len() == 2 && args[1] is BulkString {
            Ok(CommandModel::ReplConf(ReplConfModel::GetAck(args[1]->BulkString_0)))
        } else {
            Err(ParseError::Invalid)
        }
    } else if args.len() == 1 && vstd::utf8::valid_utf8(ascii_lower(args[0]->BulkString_0)) {
        Ok(
            CommandModel::ReplConf(
                ReplConfModel::Other(decode_utf8(ascii_lower(args[0]->BulkString_0))),
            ),
        )
    } else {
        Err(ParseError::Invalid)
    }
}

/// Compiling a `REPLCONF` goes by the setting that its first argument spells.
proof fn lemma_replconf_goes_by_setting(args: Seq<Frame>, setting: Seq<u8>)
    requires
        args.len() >= 1,
        args[0] == Frame::BulkString(setting),
    ensures
        spec_compile_replconf(args) == replconf_as(spelled_setting(setting), args),
{
    reveal(spelled_setting);
    reveal(replconf_as);
}

/// A canonical name of a setting that is none of the known ones spells none of them.
proof fn lemma_other_setting(name: Seq<char>)
    requires
        is_canonical(CommandModel::ReplConf(ReplConfModel::Other(name))),
    ensures
        spelled_setting(encode_utf8(name)) == 4,
{
    reveal(spelled_setting);
}

/// The arguments of a `REPLCONF` with a number compile to it.
proof fn lemma_numbered_setting_compiles(replconf: ReplConfModel)
    requires
        replconf is Ack || replconf is ListeningPort,
    ensures
        replconf_as(
            if replconf is Ack {
                0
            } else {
                1
            },
            spec_command_items(CommandModel::ReplConf(replconf)).skip(1),
        ) == Ok::<CommandModel, ParseError>(CommandModel::ReplConf(replconf)),
{
    let args = spec_command_items(CommandModel::ReplConf(replconf)).skip(1);
    reveal(replconf_as);
    match replconf {
        ReplConfModel::Ack(offset) => {
            lemma_number_frame(offset as nat, u64::MAX as nat);
            assert(args[1] == number_frame(offset as nat));
        },
        ReplConfModel::ListeningPort(port) => {
            lemma_number_frame(port as nat, u16::MAX as nat);
            assert(args[1] == number_frame(port as nat));
        },
        _ => {},
    }
}

/// The arguments of a `REPLCONF` with a text or with bytes compile to it.
proof fn lemma_worded_setting_compiles(replconf: ReplConfModel)
    requires
        replconf is Capa || replconf is GetAck,
    ensures
        replconf_as(
            if replconf is Capa {
                2
            } else {
                3
            },
            spec_command_items(CommandModel::ReplConf(replconf)).skip(1),
        ) == Ok::<CommandModel, ParseError>(CommandModel::ReplConf(replconf)),
{
    let args = spec_command_items(CommandModel::ReplConf(replconf)).skip(1);
    reveal(replconf_as);
    match replconf {
        ReplConfModel::Capa(capability) => {
            encode_utf8_valid_utf8(capability);
            encode_utf8_decode_utf8(capability);
            assert(args[1] == Frame::BulkString(encode_utf8(capability)));
        },
        ReplConfModel::GetAck(argument) => {
            assert(args[1] == Frame::BulkString(argument));
        },
        _ => {},
    }
}

/// The one argument of a `REPLCONF` with a setting that is none of the known ones
/// compiles to it.
proof fn lemma_unknown_setting_compiles(name: Seq<char>)
    requires
        is_canonical(CommandModel::ReplConf(ReplConfModel::Other(name))),
    ensures
        replconf_as(
            4,
            spec_command_items(CommandModel::ReplConf(ReplConfModel::Other(name))).skip(1),
        ) == Ok::<CommandModel, ParseError>(CommandModel::ReplConf(ReplConfModel::Other(name))),
{
    let args = spec_command_items(CommandModel::ReplConf(ReplConfModel::Other(name))).skip(1);
    reveal(replconf_as);
    encode_utf8_valid_utf8(name);
    encode_utf8_decode_utf8(name);
    assert(args[0] == Frame::BulkString(encode_utf8(name)));
    assert(args.len() == 1);
}

/// The arguments that spell a `REPLCONF` compile to it.
proof fn lemma_compile_spelled_replconf(replconf: ReplConfModel)
    requires
        is_canonical(CommandModel::ReplConf(replconf)),
    ensures
        spec_compile_replconf(spec_command_items(CommandModel::ReplConf(replconf)).skip(1)) == Ok::<
            CommandModel,
            ParseError,
        >(CommandModel::ReplConf(replconf)),
{
    let args = spec_command_items(CommandModel::ReplConf(replconf)).skip(1);
    lemma_sent_settings_spell_their_settings();
    match replconf {
        ReplConfModel::Ack(_) => {
            assert(args[0] == text_frame("ACK"));
            lemma_replconf_goes_by_setting(args, encode_utf8("ACK"@));
            lemma_numbered_setting_compiles(replconf);
        },
        ReplConfModel::GetAck(_) => {
            assert(args[0] == text_frame("GETACK"));
            lemma_replconf_goes_by_setting(args, encode_utf8("GETACK"@));
            lemma_worded_setting_compiles(replconf);
        },
        ReplConfModel::ListeningPort(_) => {
            assert(args[0] == text_frame("listening-port"));
            lemma_replconf_goes_by_setting(args, encode_utf8("listening-port"@));
            lemma_numbered_setting_compiles(replconf);
        },
        ReplConfModel::Capa(_) => {
            assert(args[0] == text_frame("capa"));
            lemma_replconf_goes_by_setting(args, encode_utf8("capa"@));
            lemma_worded_setting_compiles(replconf);
        },
        ReplConfModel::Other(name) => {
            assert(args[0] == Frame::BulkString(encode_utf8(name)));
            lemma_replconf_goes_by_setting(args, encode_utf8(name));
            lemma_other_setting(name);
            lemma_unknown_setting_compiles(name);
        },
    }
}

/// What compiling makes of the arguments `args` of the command with the number
/// `number`, in the order in which the names are tried.
#[verifier::opaque]
spec fn compiled_as(number: int, args: Seq<Frame>) -> Compiled {
    if number == 0 {
        spec_compile_ping(args)
    } else if number == 1 {
        spec_compile_echo(args)
    } else if number == 2 {
        spec_compile_get(args)
    } else if number == 3 {
        spec_compile_set(args)
    } else if number == 4 {
        spec_compile_info(args)
    } else if number == 5 {
        spec_compile_replconf(args)
    } else if number == 6 {
        spec_compile_psync(args)
    } else if number == 7 {
        spec_compile_wait(args)
    } else {
        Err(ParseError::Invalid)
    }
}

/// Compiling goes by the command that the first item spells.
proof fn lemma_compile_goes_by_name(items: Seq<Frame>, name: Seq<u8>)
    requires
        items.len() >= 1,
        items[0] == Frame::BulkString(name),
    ensures
        spec_compile(items) == compiled_as(spelled_command(name), items.skip(1)),
{
    reveal(spelled_command);
    reveal(compiled_as);
}

/// The number of a command, in the order in which the names are tried.
spec fn number_of_command(command: CommandModel) -> int {
    match command {
        CommandModel::Ping => 0,
        CommandModel::Echo(_) => 1,
        CommandModel::Get(_) => 2,
        CommandModel::SetValue { .. } => 3,
        CommandModel::Info(_) => 4,
        CommandModel::ReplConf(_) => 5,
        CommandModel::Psync => 6,
        CommandModel::Wait { .. } => 7,
    }
}

/// The first item of the frame that spells a command spells its name.
proof fn lemma_name_is_spelled(command: CommandModel)
    ensures
        spec_command_items(command).len() >= 1,
        spec_command_items(command)[0] is BulkString,
        spelled_command(spec_command_items(command)[0]->BulkString_0) == number_of_command(
            command,
        ),
{
    let items = spec_command_items(command);
    lemma_sent_names_spell_their_commands();
    match command {
        CommandModel::Ping => {
            assert(items[0] == text_frame("PING"));
        },
        CommandModel::Echo(_) => {
            assert(items[0] == text_frame("ECHO"));
        },
        CommandModel::Get(_) => {
            assert(items[0] == text_frame("GET"));
        },
        CommandModel::SetValue { key, value, expiry } => {
            assert(items[0] == text_frame("SET"));
        },
        CommandModel::Info(_) => {
            assert(items[0] == text_frame("INFO"));
        },
        CommandModel::ReplConf(replconf) => {
            assert(items[0] == text_frame("REPLCONF"));
        },
        CommandModel::Psync => {
            assert(items[0] == text_frame("PSYNC"));
        },
        CommandModel::Wait { .. } => {
            assert(items[0] == text_frame("WAIT"));
        },
    }
}

/// The arguments of a command with one argument that is kept as it is, or with
/// none, compile to it.
proof fn lemma_plain_arguments_compile(command: CommandModel)
    requires
        command is Ping || command is Echo || command is Get || command is Info,
    ensures
        compiled_as(number_of_command(command), spec_command_items(command).skip(1)) == Ok::<
            CommandModel,
            ParseError,
        >(command),
{
    let args = spec_command_items(command).skip(1);
    reveal(compiled_as);
    match command {
        CommandModel::Ping => {
            assert(args.len() == 0);
        },
        CommandModel::Echo(data) => {
            assert(args[0] == Frame::BulkString(data));
        },
        CommandModel::Get(key) => {
            assert(args[0] == Frame::BulkString(key));
        },
        CommandModel::Info(section) => {
            assert(args[0] == Frame::BulkString(section));
        },
        _ => {},
    }
}

/// The arguments of `PSYNC` and of `WAIT` compile to the command.
proof fn lemma_replication_arguments_compile(command: CommandModel)
    requires
        command is Psync || command is Wait,
    ensures
        compiled_as(number_of_command(command), spec_command_items(command).skip(1)) == Ok::<
            CommandModel,
            ParseError,
        >(command),
{
    let args = spec_command_items(command).skip(1);
    reveal(compiled_as);
    match command {
        CommandModel::Psync => {
            assert(args[0] == text_frame("?"));
            assert(args[1] == text_frame("-1"));
        },
        CommandModel::Wait { replica_count, timeout_ms } => {
            lemma_number_frame(replica_count as nat, u64::MAX as nat);
            lemma_number_frame(timeout_ms as nat, u64::MAX as nat);
            assert(args[0] == number_frame(replica_count as nat));
            assert(args[1] == number_frame(timeout_ms as nat));
        },
        _ => {},
    }
}

/// The arguments of `SET` and of `REPLCONF` compile to the command.
proof fn lemma_written_arguments_compile(command: CommandModel)
    requires
        command is SetValue || command is ReplConf,
        is_canonical(command),
    ensures
        compiled_as(number_of_command(command), spec_command_items(command).skip(1)) == Ok::<
            CommandModel,
            ParseError,
        >(command),
{
    reveal(compiled_as);
    match command {
        CommandModel::SetValue { key, value, expiry } => {
            lemma_compile_spelled_set(key, value, expiry);
        },
        CommandModel::ReplConf(replconf) => {
            lemma_compile_spelled_replconf(replconf);
        },
        _ => {},
    }
}

/// The frame that spells a command compiles to that command.
pub proof fn theorem_compile_spelled(command: CommandModel)
    requires
        is_canonical(command),
    ensures
        spec_compile_frame(spec_command_frame(command)) == Ok::<CommandModel, ParseError>(command),
{
    let items = spec_command_items(command);
    lemma_name_is_spelled(command);
    lemma_compile_goes_by_name(items, items[0]->BulkString_0);
    if command is SetValue || command is ReplConf {
        lemma_written_arguments_compile(command);
    } else if command is Psync || command is Wait {
        lemma_replication_arguments_compile(command);
    } else {
        lemma_plain_arguments_compile(command);
    }
}

/// Whether the payloads of `command` are short enough for their lengths to be
/// written on the wire: 64 bits each.
pub open spec fn fits_the_wire(command: CommandModel) -> bool {
    match command {
        CommandModel::Echo(data) => data.len() <= u64::MAX,
        CommandModel::Get(key) => key.len() <= u64::MAX,
        CommandModel::SetValue { key, value, .. } => key.len() <= u64::MAX && value.len()
            <= u64::MAX,
        CommandModel::Info(section) => section.len() <= u64::MAX,
        CommandModel::ReplConf(ReplConfModel::GetAck(argument)) => argument.len() <= u64::MAX,
        CommandModel::ReplConf(ReplConfModel::Capa(capability)) => encode_utf8(capability).len()
            <= u64::MAX,
        CommandModel::ReplConf(ReplConfModel::Other(name)) => encode_utf8(name).len() <= u64::MAX,
        _ => true,
    }
}

/// A bulk string that holds the text of a number of 64 bits is well formed.
proof fn lemma_number_frame_is_well_formed(n: u64)
    ensures
        well_formed(number_frame(n as nat)),
{
    lemma_decimal_digits_len(n as nat);
}

/// A bulk string that holds a text of ASCII characters is well formed.
proof fn lemma_text_frame_is_well_formed(text: &str, len: nat)
    requires
        text@.len() == len,
        len <= 14,
        forall|i: int| 0 <= i < len ==> '\0' <= (#[trigger] text@[i]) <= '\u{7f}',
    ensures
        well_formed(text_frame(text)),
{
    assert(vstd::utf8::is_ascii_chars(text@));
    is_ascii_chars_encode_utf8(text@);
}

/// The bulk strings that hold the names that are sent are well formed.
proof fn lemma_name_frames_are_well_formed()
    ensures
        well_formed(text_frame("PING")),
        well_formed(text_frame("ECHO")),
        well_formed(text_frame("GET")),
        well_formed(text_frame("SET")),
        well_formed(text_frame("PX")),
        well_formed(text_frame("INFO")),
        well_formed(text_frame("REPLCONF")),
        well_formed(text_frame("ACK")),
        well_formed(text_frame("GETACK")),
        well_formed(text_frame("listening-port")),
        well_formed(text_frame("capa")),
        well_formed(text_frame("PSYNC")),
        well_formed(text_frame("?")),
        well_formed(text_frame("-1")),
        well_formed(text_frame("WAIT")),
{
    reveal_strlit("PING");
    lemma_text_frame_is_well_formed("PING", 4);
    reveal_strlit("ECHO");
    lemma_text_frame_is_well_formed("ECHO", 4);
    reveal_strlit("GET");
    lemma_text_frame_is_well_formed("GET", 3);
    reveal_strlit("SET");
    lemma_text_frame_is_well_formed("SET", 3);
    reveal_strlit("PX");
    lemma_text_frame_is_well_formed("PX", 2);
    reveal_strlit("INFO");
    lemma_text_frame_is_well_formed("INFO", 4);
    reveal_strlit("REPLCONF");
    lemma_text_frame_is_well_formed("REPLCONF", 8);
    reveal_strlit("ACK");
    lemma_text_frame_is_well_formed("ACK", 3);
    reveal_strlit("GETACK");
    lemma_text_frame_is_well_formed("GETACK", 6);
    reveal_strlit("listening-port");
    lemma_text_frame_is_well_formed("listening-port", 14);
    reveal_strlit("capa");
    lemma_text_frame_is_well_formed("capa", 4);
    reveal_strlit("PSYNC");
    lemma_text_frame_is_well_formed("PSYNC", 5);
    reveal_strlit("?");
    lemma_text_frame_is_well_formed("?", 1);
    reveal_strlit("-1");
    lemma_text_frame_is_well_formed("-1", 2);
    reveal_strlit("WAIT");
    lemma_text_frame_is_well_formed("WAIT", 4);
}

/// An array of up to three well-formed frames is well formed.
proof fn lemma_short_array_is_well_formed(items: Seq<Frame>)
    requires
        1 <= items.len() <= 3,
        well_formed(items[0]),
        items.len() >= 2 ==> well_formed(items[1]),
        items.len() >= 3 ==> well_formed(items[2]),
    ensures
        well_formed(Frame::Array(items)),
{
    assert forall|i: int| 0 <= i < items.len() implies well_formed(#[trigger] items[i]) by {
        if i == 0 {
        } else if i == 1 {
        } else {
        }
    }
}

/// An array of five well-formed frames is well formed.
proof fn lemma_array_of_five_is_well_formed(items: Seq<Frame>)
    requires
        items.len() == 5,
        well_formed(items[0]),
        well_formed(items[1]),
        well_formed(items[2]),
        well_formed(items[3]),
        well_formed(items[4]),
    ensures
        well_formed(Frame::Array(items)),
{
    assert forall|i: int| 0 <= i < items.len() implies well_formed(#[trigger] items[i]) by {
        if i == 0 {
        } else if i == 1 {
        } else if i == 2 {
        } else if i == 3 {
        } else {
        }
    }
}

/// The frame that spells a command with bytes for arguments, or with none, is well
/// formed, if the bytes fit the wire.
proof fn lemma_spelled_plain_is_well_formed(command: CommandModel)
    requires
        fits_the_wire(command),
        command is Ping || command is Echo || command is Get || command is Info
            || command is Psync,
    ensures
        well_formed(spec_command_frame(command)),
{
    lemma_name_frames_are_well_formed();
    lemma_short_array_is_well_formed(spec_command_items(command));
}

/// The frame that spells a `SET` or a `WAIT` is well formed, if what is set fits
/// the wire.
proof fn lemma_spelled_numbered_is_well_formed(command: CommandModel)
    requires
        fits_the_wire(command),
        command is SetValue || command is Wait,
    ensures
        well_formed(spec_command_frame(command)),
{
    lemma_name_frames_are_well_formed();
    let items = spec_command_items(command);
    match command {
        CommandModel::SetValue { expiry, .. } => {
            if expiry is Some {
                lemma_number_frame_is_well_formed(expiry.unwrap());
                lemma_array_of_five_is_well_formed(items);
            } else {
                lemma_short_array_is_well_formed(items);
            }
        },
        CommandModel::Wait { replica_count, timeout_ms } => {
            lemma_number_frame_is_well_formed(replica_count);
            lemma_number_frame_is_well_formed(timeout_ms);
            lemma_short_array_is_well_formed(items);
        },
        _ => {},
    }
}

/// The frame that spells a `REPLCONF` is well formed, if its value fits the wire.
proof fn lemma_spelled_replconf_is_well_formed(replconf: ReplConfModel)
    requires
        fits_the_wire(CommandModel::ReplConf(replconf)),
    ensures
        well_formed(spec_command_frame(CommandModel::ReplConf(replconf))),
{
    lemma_name_frames_are_well_formed();
    let items = spec_command_items(CommandModel::ReplConf(replconf));
    match replconf {
        ReplConfModel::Ack(offset) => {
            lemma_number_frame_is_well_formed(offset);
        },
        ReplConfModel::ListeningPort(port) => {
            lemma_number_frame_is_well_formed(port as u64);
        },
        _ => {},
    }
    lemma_short_array_is_well_formed(items);
}

/// The frame that spells a command is well formed, if its payloads fit the wire.
pub proof fn lemma_spelled_is_well_formed(command: CommandModel)
    requires
        fits_the_wire(command),
    ensures
        well_formed(spec_command_frame(command)),
{
    match command {
        CommandModel::ReplConf(replconf) => {
            lemma_spelled_replconf_is_well_formed(replconf);
        },
        CommandModel::SetValue { .. } => {
            lemma_spelled_numbered_is_well_formed(command);
        },
        CommandModel::Wait { .. } => {
            lemma_spelled_numbered_is_well_formed(command);
        },
        _ => {
            lemma_spelled_plain_is_well_formed(command);
        },
    }
}

/// The bytes that spell a command, whatever follows them, parse to that command
/// and take exactly its bytes: what one server sends, another reads as it was meant.
pub proof fn theorem_parse_spelled(command: CommandModel, tail: Seq<u8>)
    requires
        is_canonical(command),
        fits_the_wire(command),
    ensures
        spec_parse_command(spec_serialize(spec_command_frame(command)) + tail) == Ok::<
            (CommandModel, nat),
            ParseError,
        >((command, spec_serialize(spec_command_frame(command)).len())),
{
    lemma_spelled_is_well_formed(command);
    lemma_parse_serialized(spec_command_frame(command), tail);
    theorem_compile_spelled(command);
}

} // verus!
