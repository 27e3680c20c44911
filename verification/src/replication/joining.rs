//! A replica joins its master: the handshake of the one against the handler of
//! the other, request by request, up to the snapshot.

use vstd::prelude::*;
use vstd::utf8::{
    decode_utf8, decode_utf8_encode_utf8, encode_utf8, encode_utf8_valid_utf8,
    is_ascii_chars_encode_utf8, partial_valid_utf8_extend_ascii_block, valid_utf8,
    valid_utf8_concat,
};
use crate::parser::command::{spec_command_frame, spec_parse_command, CommandModel};
use crate::parser::number::{all_digits, decimal_digits, is_digit, lemma_decimal_digits};
use crate::parser::rdb::lemma_parse_serialized_rdb;
use crate::parser::resp::{
    crlf, crlf_at, spec_parse, spec_serialize, Frame, ParseError, CR,
    SIMPLE_STRING_TAG,
};
use crate::parser::roundtrip::{lemma_line_first_crlf, lemma_parse_serialized, well_formed};
use crate::parser::spelling::{fits_the_wire, theorem_parse_spelled};
use crate::replication::handshake::{
    begins_with, spec_advance, spec_receive_rdb, spec_request, spec_validate, Config, Expected,
    HandshakeStage, HandshakeStepModel,
};
use crate::replication::rdb::spec_serialize_rdb;
use crate::replication::replica_manager::PeerAddr;
use crate::server::data::{RoleModel, ServerModel};
use crate::server::handler::{
    simple_reply, spec_fullresync, spec_read_step, ActionModel, CommandHandler, ReadOutcome,
    ReadStepModel,
};
use crate::text::ascii_lower;

verus! {

/// Whether `text` holds no carriage return, so that it can stand in a line.
pub open spec fn fits_a_line(text: Seq<char>) -> bool {
    forall|i: int| 0 <= i < encode_utf8(text).len() ==> encode_utf8(text)[i] != CR
}

/// The bytes of the answers of a master, as they are sent and compared.
proof fn lemma_answer_names()
    ensures
        encode_utf8("PONG"@) == seq![80u8, 79, 78, 71],
        encode_utf8("pong"@) == seq![112u8, 111, 110, 103],
        encode_utf8("OK"@) == seq![79u8, 75],
        encode_utf8("ok"@) == seq![111u8, 107],
{
    reveal_strlit("PONG");
    reveal_strlit("pong");
    reveal_strlit("OK");
    reveal_strlit("ok");
    assert(vstd::utf8::is_ascii_chars("PONG"@));
    assert(vstd::utf8::is_ascii_chars("pong"@));
    assert(vstd::utf8::is_ascii_chars("OK"@));
    assert(vstd::utf8::is_ascii_chars("ok"@));
    is_ascii_chars_encode_utf8("PONG"@);
    is_ascii_chars_encode_utf8("pong"@);
    is_ascii_chars_encode_utf8("OK"@);
    is_ascii_chars_encode_utf8("ok"@);
    assert(encode_utf8("PONG"@) =~= seq![80u8, 79, 78, 71]);
    assert(encode_utf8("pong"@) =~= seq![112u8, 111, 110, 103]);
    assert(encode_utf8("OK"@) =~= seq![79u8, 75]);
    assert(encode_utf8("ok"@) =~= seq![111u8, 107]);
}

/// `PONG` and `OK` are well-formed simple strings, and they are what is expected
/// in answer to `PING` and to `REPLCONF`.
proof fn lemma_answers_are_expected()
    ensures
        well_formed(Frame::SimpleString("PONG"@)),
        well_formed(Frame::SimpleString("OK"@)),
        Expected::Pong.met_by("PONG"@),
        Expected::Okay.met_by("OK"@),
{
    lemma_answer_names();
    assert(ascii_lower(seq![80u8, 79, 78, 71]) =~= seq![112u8, 111, 110, 103]);
    assert(ascii_lower(seq![79u8, 75]) =~= seq![111u8, 107]);
}

/// A simple string that is expected, read at a stage before `PSYNC` is sent, leads
/// to the next request and leaves nothing of itself unread.
proof fn lemma_expected_answer_leads_on(config: Config, stage: HandshakeStage, text: Seq<char>)
    requires
        stage == HandshakeStage::AwaitingPong || stage == HandshakeStage::AwaitingPortAck || stage
            == HandshakeStage::AwaitingCapaAck,
        well_formed(Frame::SimpleString(text)),
        (if stage == HandshakeStage::AwaitingPong {
            Expected::Pong
        } else {
            Expected::Okay
        }).met_by(text),
    ensures
        spec_advance(config, stage, spec_serialize(Frame::SimpleString(text))) == (
            HandshakeStepModel::Send {
                message: spec_serialize(spec_command_frame(spec_request(config, Some(stage)))),
                next: crate::replication::handshake::spec_next_stage(stage),
            },
            Seq::<u8>::empty(),
        ),
{
    let frame = Frame::SimpleString(text);
    let answer = spec_serialize(frame);
    lemma_parse_serialized(frame, Seq::empty());
    assert(answer + Seq::<u8>::empty() =~= answer);
    assert(answer.skip(answer.len() as int) =~= Seq::<u8>::empty());
}

/// A string of digits is well-formed UTF-8.
proof fn lemma_digits_are_text(digits: Seq<u8>)
    requires
        all_digits(digits),
    ensures
        valid_utf8(digits),
{
    assert(digits.subrange(0, 0) =~= Seq::<u8>::empty());
    assert(valid_utf8(digits.subrange(0, 0)));
    assert forall|i: int| 0 <= i < digits.len() implies #[trigger] vstd::utf8::is_leading_byte_width_1(
        digits[i],
    ) by {
        assert(is_digit(digits[i]));
    }
    partial_valid_utf8_extend_ascii_block(digits, 0, digits.len() as int);
    assert(digits.subrange(0, digits.len() as int) =~= digits);
}

/// The bytes of the words of the line that announces a snapshot.
proof fn lemma_fullresync_words()
    ensures
        encode_utf8("FULLRESYNC "@) == seq![70u8, 85, 76, 76, 82, 69, 83, 89, 78, 67, 32],
        encode_utf8("+FULLRESYNC "@) == seq![43u8, 70, 85, 76, 76, 82, 69, 83, 89, 78, 67, 32],
        encode_utf8(" "@) == seq![32u8],
{
    reveal_strlit("FULLRESYNC ");
    reveal_strlit("+FULLRESYNC ");
    reveal_strlit(" ");
    assert(vstd::utf8::is_ascii_chars("FULLRESYNC "@));
    assert(vstd::utf8::is_ascii_chars("+FULLRESYNC "@));
    assert(vstd::utf8::is_ascii_chars(" "@));
    is_ascii_chars_encode_utf8("FULLRESYNC "@);
    is_ascii_chars_encode_utf8("+FULLRESYNC "@);
    is_ascii_chars_encode_utf8(" "@);
    assert(encode_utf8("FULLRESYNC "@) =~= seq![70u8, 85, 76, 76, 82, 69, 83, 89, 78, 67, 32]);
    assert(encode_utf8("+FULLRESYNC "@) =~= seq![
        43u8,
        70,
        85,
        76,
        76,
        82,
        69,
        83,
        89,
        78,
        67,
        32,
    ]);
    assert(encode_utf8(" "@) =~= seq![32u8]);
}

/// What stands in the line that announces a snapshot, between the tag and the
/// line terminator.
spec fn fullresync_text(replication_id: Seq<char>, offset: u64) -> Seq<u8> {
    encode_utf8("FULLRESYNC "@) + encode_utf8(replication_id) + encode_utf8(" "@) + decimal_digits(
        offset as nat,
    )
}

/// The line that announces a snapshot is a simple string: a tag, a text that is
/// well-formed UTF-8 without a line terminator in it, and a line terminator.
proof fn lemma_fullresync_is_a_line(replication_id: Seq<char>, offset: u64)
    requires
        fits_a_line(replication_id),
    ensures
        spec_fullresync(replication_id, offset) == seq![SIMPLE_STRING_TAG] + fullresync_text(
            replication_id,
            offset,
        ) + crlf(),
        valid_utf8(fullresync_text(replication_id, offset)),
        forall|i: int| !crlf_at(fullresync_text(replication_id, offset), i),
        begins_with(fullresync_text(replication_id, offset), encode_utf8("FULLRESYNC "@)),
{
    let word = encode_utf8("FULLRESYNC "@);
    let id = encode_utf8(replication_id);
    let space = encode_utf8(" "@);
    let digits = decimal_digits(offset as nat);
    let text = fullresync_text(replication_id, offset);
    lemma_fullresync_words();
    lemma_decimal_digits(offset as nat);
    assert(spec_fullresync(replication_id, offset) =~= seq![SIMPLE_STRING_TAG] + text + crlf());
    encode_utf8_valid_utf8("FULLRESYNC "@);
    encode_utf8_valid_utf8(replication_id);
    encode_utf8_valid_utf8(" "@);
    lemma_digits_are_text(digits);
    valid_utf8_concat(word, id);
    valid_utf8_concat(word + id, space);
    valid_utf8_concat(word + id + space, digits);
    assert forall|i: int| 0 <= i < text.len() implies #[trigger] text[i] != CR by {
        if i < word.len() {
            assert(text[i] == word[i]);
        } else if i < word.len() + id.len() {
            assert(text[i] == id[i - word.len()]);
        } else if i < word.len() + id.len() + 1 {
            assert(text[i] == space[0]);
        } else {
            assert(text[i] == digits[i - word.len() - id.len() - 1]);
            assert(is_digit(digits[i - word.len() - id.len() - 1]));
        }
    }
    assert(text.take(word.len() as int) =~= word);
}

/// The line that announces a snapshot parses, whatever follows it, to a simple
/// string that is what is expected in answer to `PSYNC`.
proof fn lemma_fullresync_is_expected(replication_id: Seq<char>, offset: u64, rest: Seq<u8>)
    requires
        fits_a_line(replication_id),
    ensures
        ({
            let line = spec_fullresync(replication_id, offset);
            let frame = Frame::SimpleString(decode_utf8(fullresync_text(replication_id, offset)));
            &&& spec_parse(line + rest) == Ok::<(Frame, nat), ParseError>((frame, line.len()))
            &&& spec_validate(seq![frame], Expected::FullResync) == Ok::<
                (),
                crate::replication::handshake::HandshakeErrorModel,
            >(())
            &&& (line + rest).skip(line.len() as int) == rest
        }),
{
    let text = fullresync_text(replication_id, offset);
    let line = spec_fullresync(replication_id, offset);
    let frame = Frame::SimpleString(decode_utf8(text));
    lemma_fullresync_is_a_line(replication_id, offset);
    lemma_line_first_crlf(SIMPLE_STRING_TAG, text, rest);
    assert(line + rest =~= seq![SIMPLE_STRING_TAG] + text + crlf() + rest);
    decode_utf8_encode_utf8(text);
    assert((line + rest).skip(line.len() as int) =~= rest);
}

/// The line that announces a snapshot and the framed snapshot, read after `PSYNC`
/// is sent, end the handshake with the snapshot; what follows stays unread.
proof fn lemma_fullresync_ends_the_handshake(
    config: Config,
    replication_id: Seq<char>,
    offset: u64,
    rdb: Seq<u8>,
    tail: Seq<u8>,
)
    requires
        fits_a_line(replication_id),
        rdb.len() <= u64::MAX,
    ensures
        spec_advance(
            config,
            HandshakeStage::AwaitingFullResync,
            spec_fullresync(replication_id, offset) + spec_serialize_rdb(rdb) + tail,
        ) == (HandshakeStepModel::Finished(rdb), tail),
{
    let line = spec_fullresync(replication_id, offset);
    let rest = spec_serialize_rdb(rdb) + tail;
    lemma_fullresync_is_expected(replication_id, offset, rest);
    assert(line + spec_serialize_rdb(rdb) + tail =~= line + rest);
    lemma_snapshot_is_received(rdb, tail);
}

/// A framed snapshot is taken from what is unread, and what follows it stays.
proof fn lemma_snapshot_is_received(rdb: Seq<u8>, tail: Seq<u8>)
    requires
        rdb.len() <= u64::MAX,
    ensures
        spec_receive_rdb(spec_serialize_rdb(rdb) + tail) == (HandshakeStepModel::Finished(rdb), tail),
{
    lemma_parse_serialized_rdb(rdb, tail);
    assert((spec_serialize_rdb(rdb) + tail).skip(spec_serialize_rdb(rdb).len() as int) =~= tail);
}

/// The requests of a handshake are commands that a master takes, and they are read
/// as they were meant.
proof fn lemma_request_is_read(config: Config, stage: Option<HandshakeStage>)
    requires
        stage is None || stage == Some(HandshakeStage::AwaitingPong) || stage == Some(
            HandshakeStage::AwaitingPortAck,
        ) || stage == Some(HandshakeStage::AwaitingCapaAck),
    ensures
        ({
            let command = spec_request(config, stage);
            let request = spec_serialize(spec_command_frame(command));
            spec_parse_command(request) == Ok::<(CommandModel, nat), ParseError>(
                (command, request.len()),
            )
        }),
{
    let command = spec_request(config, stage);
    let request = spec_serialize(spec_command_frame(command));
    assert(fits_the_wire(command)) by {
        reveal_strlit("psync2");
        assert(vstd::utf8::is_ascii_chars("psync2"@));
        is_ascii_chars_encode_utf8("psync2"@);
    }
    theorem_parse_spelled(command, Seq::empty());
    assert(request + Seq::<u8>::empty() =~= request);
}

/// What a master makes of the request of the handshake that follows `stage`, come
/// in from `peer` on a connection of its own.
pub open spec fn master_reads(
    config: Config,
    stage: Option<HandshakeStage>,
    master: ServerModel,
    peer: PeerAddr,
    now: u64,
    snapshot: Seq<u8>,
) -> ReadOutcome {
    spec_read_step(
        CommandHandler { peer, from_master: false },
        spec_serialize(spec_command_frame(spec_request(config, stage))),
        master,
        now,
        Some(snapshot),
    )
}

/// A master answers `PONG` to the first request of a handshake and `OK` to the two
/// that follow, and stays as it is.
proof fn lemma_master_answers_the_settings(
    config: Config,
    stage: Option<HandshakeStage>,
    master: ServerModel,
    peer: PeerAddr,
    now: u64,
    snapshot: Seq<u8>,
)
    requires
        master.is_master(),
        stage is None || stage == Some(HandshakeStage::AwaitingPong) || stage == Some(
            HandshakeStage::AwaitingPortAck,
        ),
    ensures
        master_reads(config, stage, master, peer, now, snapshot) == (ReadOutcome {
            step: ReadStepModel::Handled(
                seq![
                    ActionModel::Reply(
                        if stage is None {
                            simple_reply("PONG")
                        } else {
                            simple_reply("OK")
                        },
                    ),
                ],
            ),
            buffer: Seq::<u8>::empty(),
            server: master,
        }),
{
    let request = spec_serialize(spec_command_frame(spec_request(config, stage)));
    lemma_request_is_read(config, stage);
    assert(request.skip(request.len() as int) =~= Seq::<u8>::empty());
}

/// A master answers `PSYNC` with the line that announces a snapshot and with the
/// framed snapshot, and registers the peer as a replica that has acknowledged nothing.
proof fn lemma_master_answers_psync(
    config: Config,
    master: ServerModel,
    peer: PeerAddr,
    now: u64,
    snapshot: Seq<u8>,
)
    requires
        master.is_master(),
    ensures
        master.role matches RoleModel::Master { replication_id, replication_offset, replicas }
            && master_reads(
            config,
            Some(HandshakeStage::AwaitingCapaAck),
            master,
            peer,
            now,
            snapshot,
        ) == (ReadOutcome {
            step: ReadStepModel::Handled(
                seq![
                    ActionModel::Reply(spec_fullresync(replication_id, replication_offset)),
                    ActionModel::Reply(spec_serialize_rdb(snapshot)),
                ],
            ),
            buffer: Seq::<u8>::empty(),
            server: master.with_replicas(replicas.insert(peer, 0)),
        }),
{
    let stage = Some(HandshakeStage::AwaitingCapaAck);
    let request = spec_serialize(spec_command_frame(spec_request(config, stage)));
    lemma_request_is_read(config, stage);
    assert(request.skip(request.len() as int) =~= Seq::<u8>::empty());
}

/// A replica joins its master. The replica sends `PING`, its listening port, its
/// capabilities and `PSYNC`, each after the answer to the one before; the master
/// answers `PONG`, `OK`, `OK`, and then the line that announces a snapshot with the
/// framed snapshot behind it; the handshake ends with that snapshot, and the master
/// has the replica in its registry with nothing acknowledged. Neither side leaves
/// a byte of the exchange unread.
pub proof fn theorem_replica_joins(
    config: Config,
    master: ServerModel,
    peer: PeerAddr,
    now: u64,
    snapshot: Seq<u8>,
)
    requires
        master.role matches RoleModel::Master { replication_id, .. } && fits_a_line(
            replication_id,
        ),
        snapshot.len() <= u64::MAX,
    ensures
        ({
            let pong = ActionModel::Reply(simple_reply("PONG"));
            let okay = ActionModel::Reply(simple_reply("OK"));
            let line = spec_fullresync(master.role->Master_replication_id, master.offset());
            let payload = spec_serialize_rdb(snapshot);
            let none = Seq::<u8>::empty();
            let request = |stage: Option<HandshakeStage>|
                spec_serialize(spec_command_frame(spec_request(config, stage)));
            &&& master_reads(config, None, master, peer, now, snapshot) == (ReadOutcome {
                step: ReadStepModel::Handled(seq![pong]),
                buffer: none,
                server: master,
            })
            &&& spec_advance(config, HandshakeStage::AwaitingPong, simple_reply("PONG")) == (
                HandshakeStepModel::Send {
                    message: request(Some(HandshakeStage::AwaitingPong)),
                    next: HandshakeStage::AwaitingPortAck,
                },
                none,
            )
            &&& master_reads(
                config,
                Some(HandshakeStage::AwaitingPong),
                master,
                peer,
                now,
                snapshot,
            ) == (ReadOutcome {
                step: ReadStepModel::Handled(seq![okay]),
                buffer: none,
                server: master,
            })
            &&& spec_advance(config, HandshakeStage::AwaitingPortAck, simple_reply("OK")) == (
                HandshakeStepModel::Send {
                    message: request(Some(HandshakeStage::AwaitingPortAck)),
                    next: HandshakeStage::AwaitingCapaAck,
                },
                none,
            )
            &&& master_reads(
                config,
                Some(HandshakeStage::AwaitingPortAck),
                master,
                peer,
                now,
                snapshot,
            ) == (ReadOutcome {
                step: ReadStepModel::Handled(seq![okay]),
                buffer: none,
                server: master,
            })
            &&& spec_advance(config, HandshakeStage::AwaitingCapaAck, simple_reply("OK")) == (
                HandshakeStepModel::Send {
                    message: request(Some(HandshakeStage::AwaitingCapaAck)),
                    next: HandshakeStage::AwaitingFullResync,
                },
                none,
            )
            &&& master_reads(
                config,
                Some(HandshakeStage::AwaitingCapaAck),
                master,
                peer,
                now,
                snapshot,
            ) == (ReadOutcome {
                step: ReadStepModel::Handled(
                    seq![ActionModel::Reply(line), ActionModel::Reply(payload)],
                ),
                buffer: none,
                server: master.with_replicas(master.replicas().insert(peer, 0)),
            })
            &&& spec_advance(config, HandshakeStage::AwaitingFullResync, line + payload) == (
                HandshakeStepModel::Finished(snapshot),
                none,
            )
        }),
{
    let none = Seq::<u8>::empty();
    let line = spec_fullresync(master.role->Master_replication_id, master.offset());
    let payload = spec_serialize_rdb(snapshot);
    lemma_answers_are_expected();
    lemma_master_answers_the_settings(config, None, master, peer, now, snapshot);
    lemma_expected_answer_leads_on(config, HandshakeStage::AwaitingPong, "PONG"@);
    lemma_master_answers_the_settings(
        config,
        Some(HandshakeStage::AwaitingPong),
        master,
        peer,
        now,
        snapshot,
    );
    lemma_expected_answer_leads_on(config, HandshakeStage::AwaitingPortAck, "OK"@);
    lemma_master_answers_the_settings(
        config,
        Some(HandshakeStage::AwaitingPortAck),
        master,
        peer,
        now,
        snapshot,
    );
    lemma_expected_answer_leads_on(config, HandshakeStage::AwaitingCapaAck, "OK"@);
    lemma_master_answers_psync(config, master, peer, now, snapshot);
    lemma_fullresync_ends_the_handshake(
        config,
        master.role->Master_replication_id,
        master.offset(),
        snapshot,
        none,
    );
    assert(line + payload + none =~= line + payload);
}

} // verus!
