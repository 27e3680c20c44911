//! The command handler: what one command, come in on one connection, does to the
//! server, and what is to be written to whom in answer.
//!
//! The handler decides and changes the state of the server. It writes nothing:
//! it hands back the actions to take, in order, and the caller takes them.

use vstd::prelude::*;
use vstd::utf8::encode_utf8;
use crate::network::connection::Connection;
use crate::parser::command::{
    parse_command, spec_command_frame, spec_parse_command, Command, CommandModel, ReplConfCommand,
    ReplConfModel,
};
use crate::parser::number::{decimal_digits, push_unsigned};
use crate::parser::spelling::theorem_parse_spelled;
use crate::parser::resp::{
    append_bytes, append_crlf, copy_bytes, crlf, spec_serialize, Frame, ParseError, Token,
};
use crate::replication::rdb::{get_empty_rdb, serialize_rdb, spec_empty_rdb, spec_serialize_rdb};
use crate::replication::replica_manager::{spec_up_to_date, spec_update_offset, PeerAddr};
use crate::server::data::{spec_advance, RoleModel, Server, ServerModel};
use crate::server::metadata::ReplicaInfo;
use crate::state::{spec_after_get, spec_get, spec_set};
use crate::text::same_bytes;

verus! {

/// One thing that the caller is to do for the handler.
#[derive(Debug, PartialEq, Eq)]
pub enum Action {
    /// Write these bytes to the peer that sent the command.
    Reply(Vec<u8>),
    /// Write these bytes to each of these replicas. A write that fails is passed
    /// over: the replica stays registered until its connection is found closed.
    Broadcast { message: Vec<u8>, targets: Vec<PeerAddr> },
    /// Wait until `replica_count` replicas have acknowledged `target_offset`,
    /// `timeout_ms` milliseconds at most, and then answer with their number.
    AwaitAcks { target_offset: u64, replica_count: u64, timeout_ms: u64 },
}

/// The mathematical model of an action.
pub enum ActionModel {
    Reply(Seq<u8>),
    Broadcast { message: Seq<u8>, targets: Set<PeerAddr> },
    AwaitAcks { target_offset: u64, replica_count: u64, timeout_ms: u64 },
}

impl View for Action {
    type V = ActionModel;

    open spec fn view(&self) -> ActionModel {
        match self {
            Action::Reply(bytes) => ActionModel::Reply(bytes@),
            Action::Broadcast { message, targets } => ActionModel::Broadcast {
                message: message@,
                targets: targets@.to_set(),
            },
            Action::AwaitAcks { target_offset, replica_count, timeout_ms } => ActionModel::AwaitAcks {
                target_offset: *target_offset,
                replica_count: *replica_count,
                timeout_ms: *timeout_ms,
            },
        }
    }
}

/// The models of a sequence of actions.
pub open spec fn actions_of(actions: Seq<Action>) -> Seq<ActionModel> {
    Seq::new(actions.len(), |i: int| actions[i]@)
}

/// Whether every broadcast among `actions` names each of its targets once.
pub open spec fn targets_are_distinct(actions: Seq<Action>) -> bool {
    forall|i: int|
        0 <= i < actions.len() ==> ((#[trigger] actions[i]) matches Action::Broadcast {
            targets,
            ..
        } ==> targets@.no_duplicates())
}

/// Why the handler could not do what a command asks.
#[derive(Debug, PartialEq, Eq, Clone, Copy, Structural)]
pub enum HandlerError {
    /// The snapshot for a replica that joins could not be made.
    SnapshotUnavailable,
    /// The offset would pass the largest that 64 bits can count.
    OffsetOverflow,
}

/// The state of the server after a command, and the actions to take for it.
pub struct Handled {
    pub server: ServerModel,
    pub actions: Seq<ActionModel>,
}

/// The wire form of the simple string `text`.
pub open spec fn simple_reply(text: &str) -> Seq<u8> {
    spec_serialize(Frame::SimpleString(text@))
}

/// The wire form of what a read of the store gave: the value, or the null bulk string.
pub open spec fn value_reply(value: Option<Seq<u8>>) -> Seq<u8> {
    match value {
        Some(bytes) => spec_serialize(Frame::BulkString(bytes)),
        None => spec_serialize(Frame::NullBulkString),
    }
}

/// The answer to `INFO replication` of a server in the role `role`.
pub open spec fn spec_info_text(role: RoleModel) -> Seq<u8> {
    match role {
        RoleModel::Master { replication_id, replication_offset, .. } => encode_utf8(
            "role:master\r\nmaster_replid:"@,
        ) + encode_utf8(replication_id) + encode_utf8("\r\nmaster_repl_offset:"@) + decimal_digits(
            replication_offset as nat,
        ),
        RoleModel::Replica { .. } => encode_utf8("role:slave"@),
    }
}

/// The line by which a master tells a replica that a full snapshot follows.
pub open spec fn spec_fullresync(replication_id: Seq<char>, offset: u64) -> Seq<u8> {
    encode_utf8("+FULLRESYNC "@) + encode_utf8(replication_id) + encode_utf8(" "@) + decimal_digits(
        offset as nat,
    ) + crlf()
}

/// The number of replicas as it goes into an integer reply.
pub open spec fn spec_count_reply(count: nat) -> i64 {
    if count <= i64::MAX {
        count as i64
    } else {
        i64::MAX
    }
}

/// The answer to `WAIT`: the number of replicas that have acknowledged `target`.
pub open spec fn spec_wait_reply(server: ServerModel, target: u64) -> Seq<u8> {
    spec_serialize(
        Frame::Integer(spec_count_reply(spec_up_to_date(server.replicas(), target).len())),
    )
}

/// Whether `replica_count` replicas or more have acknowledged `target`.
pub open spec fn spec_wait_is_over(server: ServerModel, target: u64, replica_count: u64) -> bool {
    spec_up_to_date(server.replicas(), target).len() >= replica_count
}

/// The command by which a master asks its replicas to acknowledge.
pub open spec fn spec_getack() -> CommandModel {
    CommandModel::ReplConf(ReplConfModel::GetAck(encode_utf8("*"@)))
}

/// Whether a server in the state `server` can do what `command` asks: every one
/// can answer `PING`, `ECHO`, `GET`, `SET` and `INFO replication`; only a master
/// takes `PSYNC` and `WAIT`, and of `REPLCONF` a master takes an acknowledgement, a
/// listening port and a capability.
pub open spec fn spec_accepts(server: ServerModel, command: CommandModel) -> bool {
    match command {
        CommandModel::Info(section) => section == encode_utf8("replication"@),
        CommandModel::ReplConf(replconf) => server.is_master() ==> (replconf is Ack
            || replconf is ListeningPort || replconf is Capa),
        CommandModel::Psync => server.is_master(),
        CommandModel::Wait { .. } => server.is_master(),
        _ => true,
    }
}

/// `PING`: a master answers `PONG`; a replica notes that its master is there and
/// answers nothing.
pub open spec fn spec_handle_ping(server: ServerModel, now: u64) -> Handled {
    if server.is_master() {
        Handled { server, actions: seq![ActionModel::Reply(simple_reply("PONG"))] }
    } else {
        Handled { server: server.heard_master(now), actions: Seq::empty() }
    }
}

/// `ECHO`: the bytes go back as a bulk string.
pub open spec fn spec_handle_echo(server: ServerModel, data: Seq<u8>) -> Handled {
    Handled { server, actions: seq![ActionModel::Reply(spec_serialize(Frame::BulkString(data)))] }
}

/// `GET`: the value goes back as a bulk string, or the null bulk string where the
/// key is absent or expired; an entry that is found expired is removed.
pub open spec fn spec_handle_get(server: ServerModel, key: Seq<u8>, now: u64) -> Handled {
    Handled {
        server: server.with_store(spec_after_get(server.store, key, now)),
        actions: seq![ActionModel::Reply(value_reply(spec_get(server.store, key, now)))],
    }
}

/// `SET`: the value is stored. A master then sends the command on to its replicas,
/// moves its offset on by the bytes sent, and answers `OK`; a replica answers
/// nothing. A master whose offset cannot move on by so many bytes does none of it.
pub open spec fn spec_handle_set(
    server: ServerModel,
    key: Seq<u8>,
    value: Seq<u8>,
    expiry: Option<u64>,
    now: u64,
) -> Result<Handled, HandlerError> {
    let stored = server.with_store(spec_set(server.store, key, value, expiry, now));
    if server.is_master() {
        let message = spec_serialize(
            spec_command_frame(CommandModel::SetValue { key, value, expiry }),
        );
        if server.can_advance(message.len()) {
            Ok(
                Handled {
                    server: stored.advanced(message.len()),
                    actions: seq![
                        ActionModel::Broadcast { message, targets: server.replicas().dom() },
                        ActionModel::Reply(simple_reply("OK")),
                    ],
                },
            )
        } else {
            Err(HandlerError::OffsetOverflow)
        }
    } else {
        Ok(Handled { server: stored, actions: Seq::empty() })
    }
}

/// `INFO replication`: the role goes back as a bulk string, with the replication id
/// and the offset on a master.
pub open spec fn spec_handle_info(server: ServerModel) -> Handled {
    Handled {
        server,
        actions: seq![
            ActionModel::Reply(spec_serialize(Frame::BulkString(spec_info_text(server.role)))),
        ],
    }
}

/// `REPLCONF`: a master records an acknowledgement from `peer` and says nothing,
/// and answers `OK` to a listening port or a capability; a replica answers with
/// the offset that it has applied.
pub open spec fn spec_handle_replconf(server: ServerModel, peer: PeerAddr, replconf: ReplConfModel)
    -> Handled {
    if server.is_master() {
        match replconf {
            ReplConfModel::Ack(offset) => Handled {
                server: server.with_replicas(spec_update_offset(server.replicas(), peer, offset)),
                actions: Seq::empty(),
            },
            _ => Handled { server, actions: seq![ActionModel::Reply(simple_reply("OK"))] },
        }
    } else {
        Handled {
            server,
            actions: seq![
                ActionModel::Reply(
                    spec_serialize(
                        spec_command_frame(
                            CommandModel::ReplConf(ReplConfModel::Ack(server.offset())),
                        ),
                    ),
                ),
            ],
        }
    }
}

/// `PSYNC` on a master: the line that announces a full snapshot and the framed
/// snapshot go back, and `peer` is registered as a replica that has acknowledged
/// nothing.
pub open spec fn spec_handle_psync(server: ServerModel, peer: PeerAddr, snapshot: Seq<u8>)
    -> Handled {
    match server.role {
        RoleModel::Master { replication_id, replication_offset, replicas } => Handled {
            server: server.with_replicas(replicas.insert(peer, 0)),
            actions: seq![
                ActionModel::Reply(spec_fullresync(replication_id, replication_offset)),
                ActionModel::Reply(spec_serialize_rdb(snapshot)),
            ],
        },
        RoleModel::Replica { .. } => Handled { server, actions: Seq::empty() },
    }
}

/// `WAIT` on a master: for no replica at all the answer is `0` at once; else the
/// replicas are asked to acknowledge, and the answer waits for them to reach the
/// offset that the master has sent out so far.
pub open spec fn spec_handle_wait(server: ServerModel, replica_count: u64, timeout_ms: u64)
    -> Handled {
    if replica_count == 0 {
        Handled {
            server,
            actions: seq![ActionModel::Reply(spec_serialize(Frame::Integer(0)))],
        }
    } else {
        Handled {
            server,
            actions: seq![
                ActionModel::Broadcast {
                    message: spec_serialize(spec_command_frame(spec_getack())),
                    targets: server.replicas().dom(),
                },
                ActionModel::AwaitAcks {
                    target_offset: server.offset(),
                    replica_count,
                    timeout_ms,
                },
            ],
        }
    }
}

/// What `command`, come in from `peer` at the instant `now`, does to `server`, and
/// the actions to take for it. `snapshot` is what a replica that joins is sent.
pub open spec fn spec_handle(
    server: ServerModel,
    peer: PeerAddr,
    command: CommandModel,
    now: u64,
    snapshot: Option<Seq<u8>>,
) -> Result<Handled, HandlerError> {
    match command {
        CommandModel::Ping => Ok(spec_handle_ping(server, now)),
        CommandModel::Echo(data) => Ok(spec_handle_echo(server, data)),
        CommandModel::Get(key) => Ok(spec_handle_get(server, key, now)),
        CommandModel::SetValue { key, value, expiry } => spec_handle_set(
            server,
            key,
            value,
            expiry,
            now,
        ),
        CommandModel::Info(_) => Ok(spec_handle_info(server)),
        CommandModel::ReplConf(replconf) => Ok(spec_handle_replconf(server, peer, replconf)),
        CommandModel::Psync => match snapshot {
            Some(rdb) => Ok(spec_handle_psync(server, peer, rdb)),
            None => Err(HandlerError::SnapshotUnavailable),
        },
        CommandModel::Wait { replica_count, timeout_ms } => Ok(
            spec_handle_wait(server, replica_count, timeout_ms),
        ),
    }
}

/// The offset of a server never goes back, whatever command it handles.
pub proof fn lemma_offset_never_goes_back(
    server: ServerModel,
    peer: PeerAddr,
    command: CommandModel,
    now: u64,
    snapshot: Option<Seq<u8>>,
)
    ensures
        spec_handle(server, peer, command, now, snapshot) matches Ok(handled)
            ==> handled.server.offset() >= server.offset(),
{
}

/// The offset of a master counts the bytes of the writes that it has sent to its
/// replicas, and nothing else: a `SET` moves it on by the length of the very
/// message that is broadcast, and no other command moves it.
pub proof fn lemma_master_offset_counts_broadcast_writes(
    server: ServerModel,
    peer: PeerAddr,
    command: CommandModel,
    now: u64,
    snapshot: Option<Seq<u8>>,
)
    requires
        server.is_master(),
    ensures
        spec_handle(server, peer, command, now, snapshot) matches Ok(handled) ==> (match command {
            CommandModel::SetValue { key, value, expiry } => {
                &&& handled.actions.len() == 2
                &&& handled.actions[0] matches ActionModel::Broadcast { message, targets }
                &&& message == spec_serialize(spec_command_frame(command))
                &&& targets == server.replicas().dom()
                &&& handled.server.offset() == server.offset() + message.len()
            },
            _ => handled.server.offset() == server.offset(),
        }),
        command is SetValue ==> (spec_handle(server, peer, command, now, snapshot) is Ok
            <==> server.can_advance(spec_serialize(spec_command_frame(command)).len())),
{
}

/// The offset of a replica counts the bytes of the commands that it has taken from
/// its master, each one before it is handled; what comes in from anyone else does
/// not move it.
pub proof fn lemma_replica_offset_counts_commands_from_master(
    handler: CommandHandler,
    buffer: Seq<u8>,
    server: ServerModel,
    now: u64,
    snapshot: Option<Seq<u8>>,
)
    requires
        !server.is_master(),
    ensures
        ({
            let outcome = spec_read_step(handler, buffer, server, now, snapshot);
            match outcome.step {
                ReadStepModel::Handled(_) => spec_parse_command(buffer) matches Ok((_, used))
                    && outcome.buffer == buffer.skip(used as int) && outcome.server.offset() == (
                if handler.from_master {
                    server.offset() + used
                } else {
                    server.offset() as int
                }),
                _ => outcome.server == server && outcome.buffer == buffer,
            }
        }),
{
}

/// A replica is registered by `PSYNC` and by nothing else, what it has acknowledged
/// is changed by `REPLCONF ACK` and by nothing else, and no command takes a
/// replica out of the registry.
pub proof fn lemma_registry_follows_psync_and_ack(
    server: ServerModel,
    peer: PeerAddr,
    command: CommandModel,
    now: u64,
    snapshot: Option<Seq<u8>>,
)
    ensures
        spec_handle(server, peer, command, now, snapshot) matches Ok(handled) ==> (match command {
            CommandModel::Psync => handled.server.replicas() == (if server.is_master() {
                server.replicas().insert(peer, 0)
            } else {
                server.replicas()
            }),
            CommandModel::ReplConf(ReplConfModel::Ack(offset)) => handled.server.replicas()
                == spec_update_offset(server.replicas(), peer, offset),
            _ => handled.server.replicas() == server.replicas(),
        }),
        spec_handle(server, peer, command, now, snapshot) matches Ok(handled)
            ==> server.replicas().dom().subset_of(handled.server.replicas().dom()),
{
    if !server.is_master() {
        assert(spec_update_offset(server.replicas(), peer, 0) == server.replicas());
    }
}

/// A server stays in its role, on its port and under its replication id, whatever
/// command it handles.
pub proof fn lemma_role_is_kept(
    server: ServerModel,
    peer: PeerAddr,
    command: CommandModel,
    now: u64,
    snapshot: Option<Seq<u8>>,
)
    ensures
        spec_handle(server, peer, command, now, snapshot) matches Ok(handled) ==> {
            &&& handled.server.listening_port == server.listening_port
            &&& handled.server.is_master() == server.is_master()
            &&& (server.role matches RoleModel::Master { replication_id, .. }
                ==> handled.server.role matches RoleModel::Master { replication_id: kept, .. }
                && kept == replication_id)
        },
{
}

/// Only `SET` writes to the store: `GET` may remove the one key that it reads, if
/// that is expired, and no other command touches the store at all.
pub proof fn lemma_store_follows_set_and_get(
    server: ServerModel,
    peer: PeerAddr,
    command: CommandModel,
    now: u64,
    snapshot: Option<Seq<u8>>,
)
    ensures
        spec_handle(server, peer, command, now, snapshot) matches Ok(handled) ==> (match command {
            CommandModel::SetValue { key, value, expiry } => handled.server.store == spec_set(
                server.store,
                key,
                value,
                expiry,
                now,
            ),
            CommandModel::Get(key) => handled.server.store == spec_after_get(
                server.store,
                key,
                now,
            ),
            _ => handled.server.store == server.store,
        }),
{
}

/// What a master sends on for a `SET` parses to that `SET` and takes all of its bytes.
proof fn lemma_sent_write_is_read(key: Seq<u8>, value: Seq<u8>, expiry: Option<u64>)
    requires
        key.len() <= u64::MAX,
        value.len() <= u64::MAX,
    ensures
        ({
            let command = CommandModel::SetValue { key, value, expiry };
            let message = spec_serialize(spec_command_frame(command));
            &&& spec_parse_command(message) == Ok::<(CommandModel, nat), ParseError>(
                (command, message.len()),
            )
            &&& message.skip(message.len() as int) == Seq::<u8>::empty()
        }),
{
    let command = CommandModel::SetValue { key, value, expiry };
    let message = spec_serialize(spec_command_frame(command));
    theorem_parse_spelled(command, Seq::empty());
    assert(message + Seq::<u8>::empty() =~= message);
    assert(message.skip(message.len() as int) =~= Seq::<u8>::empty());
}

/// A write reaches the replicas as it was made: what a master sends on for a `SET`
/// is read by a replica, on the connection to its master, as the same `SET`. The
/// replica stores the value, answers nothing, and counts the very bytes that the
/// master has counted. Either side does so unless its offset would pass what 64
/// bits can count: then it fails, and nothing is done on that side.
pub proof fn theorem_write_reaches_replica(
    master: ServerModel,
    replica: ServerModel,
    link: CommandHandler,
    key: Seq<u8>,
    value: Seq<u8>,
    expiry: Option<u64>,
    sent_at: u64,
    read_at: u64,
    snapshot: Option<Seq<u8>>,
)
    requires
        master.is_master(),
        !replica.is_master(),
        link.from_master,
        key.len() <= u64::MAX,
        value.len() <= u64::MAX,
    ensures
        ({
            let written = spec_handle_set(master, key, value, expiry, sent_at);
            let message = spec_serialize(
                spec_command_frame(CommandModel::SetValue { key, value, expiry }),
            );
            let outcome = spec_read_step(link, message, replica, read_at, snapshot);
            &&& written is Ok <==> master.can_advance(message.len())
            &&& written matches Ok(sent) ==> {
                &&& sent.actions[0] == (ActionModel::Broadcast {
                    message,
                    targets: master.replicas().dom(),
                })
                &&& sent.server.offset() == master.offset() + message.len()
            }
            &&& replica.can_advance(message.len()) ==> {
                &&& outcome.step == ReadStepModel::Handled(Seq::empty())
                &&& outcome.buffer == Seq::<u8>::empty()
                &&& outcome.server.store == spec_set(replica.store, key, value, expiry, read_at)
                &&& outcome.server.offset() == replica.offset() + message.len()
            }
            &&& !replica.can_advance(message.len()) ==> outcome == (ReadOutcome {
                step: ReadStepModel::Failed(HandlerError::OffsetOverflow),
                buffer: message,
                server: replica,
            })
        }),
{
    lemma_sent_write_is_read(key, value, expiry);
}

/// The request for an acknowledgement parses to itself and takes all of its bytes.
proof fn lemma_getack_is_read()
    ensures
        spec_parse_command(spec_serialize(spec_command_frame(spec_getack()))) == Ok::<
            (CommandModel, nat),
            ParseError,
        >((spec_getack(), spec_serialize(spec_command_frame(spec_getack())).len())),
{
    let request = spec_serialize(spec_command_frame(spec_getack()));
    assert(encode_utf8("*"@).len() == 1) by {
        reveal_strlit("*");
        assert(vstd::utf8::is_ascii_chars("*"@));
        vstd::utf8::is_ascii_chars_encode_utf8("*"@);
    }
    theorem_parse_spelled(spec_getack(), Seq::empty());
    assert(request + Seq::<u8>::empty() =~= request);
}

/// An acknowledgement covers the request for it: the offset that a replica reports
/// in answer to `REPLCONF GETACK` from its master counts the bytes of that request.
pub proof fn theorem_acknowledgement_covers_its_request(
    replica: ServerModel,
    link: CommandHandler,
    now: u64,
    snapshot: Option<Seq<u8>>,
)
    requires
        !replica.is_master(),
        link.from_master,
    ensures
        ({
            let request = spec_serialize(spec_command_frame(spec_getack()));
            let outcome = spec_read_step(link, request, replica, now, snapshot);
            match spec_advance(replica.offset(), request.len()) {
                Some(counted) => {
                    &&& counted == replica.offset() + request.len()
                    &&& outcome.server.offset() == counted
                    &&& outcome.buffer == Seq::<u8>::empty()
                    &&& outcome.step == ReadStepModel::Handled(
                        seq![
                            ActionModel::Reply(
                                spec_serialize(
                                    spec_command_frame(
                                        CommandModel::ReplConf(ReplConfModel::Ack(counted)),
                                    ),
                                ),
                            ),
                        ],
                    )
                },
                None => outcome == (ReadOutcome {
                    step: ReadStepModel::Failed(HandlerError::OffsetOverflow),
                    buffer: request,
                    server: replica,
                }),
            }
        }),
{
    lemma_getack_is_read();
}

/// Without replicas nobody can catch up: a wait for one replica or more is never
/// over before its time, and its answer is `0`.
pub proof fn lemma_wait_without_replicas(server: ServerModel, target: u64, replica_count: u64)
    requires
        server.replicas() == Map::<PeerAddr, u64>::empty(),
        replica_count > 0,
    ensures
        !spec_wait_is_over(server, target, replica_count),
        spec_wait_reply(server, target) == spec_serialize(Frame::Integer(0)),
{
    assert(spec_up_to_date(server.replicas(), target) =~= Set::<PeerAddr>::empty());
}

/// Once every replica has acknowledged the target, a wait for no more replicas
/// than there are is over, and its answer is their number.
pub proof fn lemma_wait_with_all_caught_up(server: ServerModel, target: u64, replica_count: u64)
    requires
        server.replicas().dom().finite(),
        forall|addr: PeerAddr| #[trigger]
            server.replicas().contains_key(addr) ==> server.replicas()[addr] >= target,
        replica_count <= server.replicas().len(),
    ensures
        spec_wait_is_over(server, target, replica_count),
        spec_wait_reply(server, target) == spec_serialize(
            Frame::Integer(spec_count_reply(server.replicas().len())),
        ),
{
    assert(spec_up_to_date(server.replicas(), target) =~= server.replicas().dom());
}

/// Whether `actions` and the state of `server` are what `handled` asks for.
pub open spec fn handled_as(actions: Vec<Action>, server: Server, handled: Handled) -> bool {
    &&& server@ == handled.server
    &&& actions_of(actions@) == handled.actions
    &&& targets_are_distinct(actions@)
}

/// The wire form of the simple string `text`.
fn simple_string_reply(text: &str) -> (r: Vec<u8>)
    ensures
        r@ == simple_reply(text),
{
    Token::SimpleString(text.to_owned()).serialize()
}

/// No action at all.
fn no_action() -> (r: Vec<Action>)
    ensures
        actions_of(r@) == Seq::<ActionModel>::empty(),
        targets_are_distinct(r@),
{
    let actions: Vec<Action> = Vec::new();
    assert(actions_of(actions@) =~= Seq::<ActionModel>::empty());
    actions
}

/// One reply and nothing else.
fn reply_only(bytes: Vec<u8>) -> (r: Vec<Action>)
    ensures
        actions_of(r@) == seq![ActionModel::Reply(bytes@)],
        targets_are_distinct(r@),
{
    let mut actions: Vec<Action> = Vec::new();
    actions.push(Action::Reply(bytes));
    assert(actions_of(actions@) =~= seq![ActionModel::Reply(bytes@)]);
    actions
}

/// Two actions, one after the other.
fn two_actions(first: Action, second: Action) -> (r: Vec<Action>)
    requires
        first matches Action::Broadcast { targets, .. } ==> targets@.no_duplicates(),
        second matches Action::Broadcast { targets, .. } ==> targets@.no_duplicates(),
    ensures
        actions_of(r@) == seq![first@, second@],
        targets_are_distinct(r@),
{
    let mut actions: Vec<Action> = Vec::new();
    actions.push(first);
    actions.push(second);
    assert(actions_of(actions@) =~= seq![first@, second@]);
    actions
}

/// The handler of the commands that come in on one connection.
#[derive(Debug, Clone, Copy)]
pub struct CommandHandler {
    /// The address of the far end of the connection.
    pub peer: PeerAddr,
    /// Whether the connection is the one on which a replica follows its master.
    pub from_master: bool,
}

/// What became of one attempt to take a command from a connection.
#[derive(Debug, PartialEq, Eq)]
pub enum ReadStep {
    /// A command was taken and handled: these actions are to be taken, in order.
    Handled(Vec<Action>),
    /// The buffer ends before the command does: more is to be read.
    NeedMore,
    /// What came in is no command: the connection is to be closed.
    Close,
    /// The command is none that a server in this role takes. Nothing was done.
    Unsupported,
    /// The handler could not do what the command asks. Nothing was done.
    Failed(HandlerError),
}

/// The mathematical model of what became of one attempt to take a command.
pub enum ReadStepModel {
    Handled(Seq<ActionModel>),
    NeedMore,
    Close,
    Unsupported,
    Failed(HandlerError),
}

/// A connection, a server and what became of one attempt to take a command.
pub struct ReadOutcome {
    pub step: ReadStepModel,
    pub buffer: Seq<u8>,
    pub server: ServerModel,
}

/// Whether the bytes of a command that comes in on `handler` are counted: a
/// replica counts what it takes from its master, and nothing else.
pub open spec fn spec_counts(handler: CommandHandler, server: ServerModel) -> bool {
    handler.from_master && !server.is_master()
}

/// The server as the command that takes `used` bytes finds it: a replica has
/// counted the bytes of a command from its master before it does what it asks, so
/// that an acknowledgement covers the very command that asks for it.
pub open spec fn spec_counted(handler: CommandHandler, server: ServerModel, used: nat)
    -> ServerModel {
    if spec_counts(handler, server) {
        server.advanced(used)
    } else {
        server
    }
}

/// What one attempt to take a command from `buffer` comes to, at the instant `now`.
/// A command is taken from the buffer only where it is handled; one whose bytes a
/// replica can no longer count fails, and nothing is done.
pub open spec fn spec_read_step(
    handler: CommandHandler,
    buffer: Seq<u8>,
    server: ServerModel,
    now: u64,
    snapshot: Option<Seq<u8>>,
) -> ReadOutcome {
    match spec_parse_command(buffer) {
        Err(ParseError::Incomplete) => ReadOutcome { step: ReadStepModel::NeedMore, buffer, server },
        Err(ParseError::Invalid) => ReadOutcome { step: ReadStepModel::Close, buffer, server },
        Ok((command, used)) => if !spec_accepts(server, command) {
            ReadOutcome { step: ReadStepModel::Unsupported, buffer, server }
        } else if spec_counts(handler, server) && !server.can_advance(used) {
            ReadOutcome {
                step: ReadStepModel::Failed(HandlerError::OffsetOverflow),
                buffer,
                server,
            }
        } else {
            match spec_handle(
                spec_counted(handler, server, used),
                handler.peer,
                command,
                now,
                snapshot,
            ) {
                Ok(handled) => ReadOutcome {
                    step: ReadStepModel::Handled(handled.actions),
                    buffer: buffer.skip(used as int),
                    server: handled.server,
                },
                Err(e) => ReadOutcome { step: ReadStepModel::Failed(e), buffer, server },
            }
        },
    }
}

/// Whether `step` is what `model` asks for.
pub open spec fn step_agrees(step: ReadStep, model: ReadStepModel) -> bool {
    match model {
        ReadStepModel::Handled(actions) => step matches ReadStep::Handled(taken) && actions_of(
            taken@,
        ) == actions && targets_are_distinct(taken@),
        ReadStepModel::NeedMore => step is NeedMore,
        ReadStepModel::Close => step is Close,
        ReadStepModel::Unsupported => step is Unsupported,
        ReadStepModel::Failed(e) => step matches ReadStep::Failed(f) && f == e,
    }
}

impl CommandHandler {
    /// The handler for the connection of a client at `peer`.
    pub fn new(peer: PeerAddr) -> (r: CommandHandler)
        ensures
            r == (CommandHandler { peer, from_master: false }),
    {
        CommandHandler { peer, from_master: false }
    }

    /// The handler for the connection on which a replica follows its master at `peer`.
    pub fn for_master_link(peer: PeerAddr) -> (r: CommandHandler)
        ensures
            r == (CommandHandler { peer, from_master: true }),
    {
        CommandHandler { peer, from_master: true }
    }

    /// Whether `server` can do what `command` asks.
    pub fn accepts(&self, server: &Server, command: &Command) -> (r: bool)
        ensures
            r == spec_accepts(server@, command@),
    {
        match command {
            Command::Info(section) => same_bytes(section.as_slice(), "replication".as_bytes()),
            Command::ReplConf(replconf) => {
                if server.is_master() {
                    match replconf {
                        ReplConfCommand::Ack(_) => true,
                        ReplConfCommand::ListeningPort(_) => true,
                        ReplConfCommand::Capa(_) => true,
                        _ => false,
                    }
                } else {
                    true
                }
            },
            Command::Psync => server.is_master(),
            Command::Wait { .. } => server.is_master(),
            _ => true,
        }
    }

    /// Does what `command` asks, at the instant `now`, and hands back the actions
    /// to take for it.
    pub fn handle_command(&self, server: &mut Server, command: &Command, now: u64) -> (r: Result<
        Vec<Action>,
        HandlerError,
    >)
        requires
            spec_accepts(old(server)@, command@),
        ensures
            final(server).spec_metadata() == old(server).spec_metadata(),
            match spec_handle(old(server)@, self.peer, command@, now, spec_empty_rdb()) {
                Ok(handled) => r matches Ok(actions) && handled_as(actions, *final(server), handled),
                Err(e) => r matches Err(f) && f == e && final(server)@ == old(server)@,
            },
    {
        match command {
            Command::Ping => Ok(self.handle_ping(server, now)),
            Command::Echo(data) => Ok(self.handle_echo(server, data.as_slice())),
            Command::Get(key) => Ok(self.handle_get(server, key.as_slice(), now)),
            Command::SetValue { key, value, expiry } => self.handle_set(
                server,
                key.as_slice(),
                value.as_slice(),
                *expiry,
                now,
            ),
            Command::Info(section) => Ok(self.handle_info(server, section)),
            Command::ReplConf(replconf) => Ok(self.handle_replconf(server, replconf)),
            Command::Psync => match get_empty_rdb() {
                Some(snapshot) => Ok(self.handle_psync(server, snapshot.as_slice())),
                None => Err(HandlerError::SnapshotUnavailable),
            },
            Command::Wait { replica_count, timeout_ms } => Ok(
                self.handle_wait(server, *replica_count, *timeout_ms),
            ),
        }
    }

    /// Takes the command that starts what `conn` holds unread, if a whole one is
    /// there, and does what it asks at the instant `now`.
    pub fn handle_read_step(&self, conn: &mut Connection, server: &mut Server, now: u64) -> (r:
        ReadStep)
        ensures
            final(server).spec_metadata() == old(server).spec_metadata(),
            ({
                let outcome = spec_read_step(*self, old(conn)@, old(server)@, now, spec_empty_rdb());
                &&& step_agrees(r, outcome.step)
                &&& final(conn)@ == outcome.buffer
                &&& final(server)@ == outcome.server
            }),
    {
        let result = match parse_command(conn.get_buffer()) {
            Ok(result) => result,
            Err(e) => {
                return match e {
                    ParseError::Incomplete => ReadStep::NeedMore,
                    ParseError::Invalid => ReadStep::Close,
                };
            },
        };
        if !self.accepts(server, &result.command) {
            return ReadStep::Unsupported;
        }
        if self.from_master && !server.is_master() {
            let counted = server.advance_offset(result.len);
            if !counted {
                return ReadStep::Failed(HandlerError::OffsetOverflow);
            }
        }
        match self.handle_command(server, &result.command, now) {
            Ok(actions) => {
                conn.consume(result.len);
                ReadStep::Handled(actions)
            },
            Err(e) => ReadStep::Failed(e),
        }
    }

    /// Answers `PING`.
    pub fn handle_ping(&self, server: &mut Server, now: u64) -> (r: Vec<Action>)
        ensures
            final(server).spec_metadata() == old(server).spec_metadata(),
            handled_as(r, *final(server), spec_handle_ping(old(server)@, now)),
    {
        if server.is_master() {
            reply_only(simple_string_reply("PONG"))
        } else {
            server.record_heartbeat(now);
            no_action()
        }
    }

    /// Answers `ECHO`.
    pub fn handle_echo(&self, server: &mut Server, data: &[u8]) -> (r: Vec<Action>)
        ensures
            final(server).spec_metadata() == old(server).spec_metadata(),
            handled_as(r, *final(server), spec_handle_echo(old(server)@, data@)),
    {
        reply_only(Token::BulkString(copy_bytes(data)).serialize())
    }

    /// Answers `GET`.
    pub fn handle_get(&self, server: &mut Server, key: &[u8], now: u64) -> (r: Vec<Action>)
        ensures
            final(server).spec_metadata() == old(server).spec_metadata(),
            handled_as(r, *final(server), spec_handle_get(old(server)@, key@, now)),
    {
        let reply = match server.get(key, now) {
            Some(value) => Token::BulkString(value).serialize(),
            None => Token::NullBulkString.serialize(),
        };
        reply_only(reply)
    }

    /// Does `SET`.
    pub fn handle_set(
        &self,
        server: &mut Server,
        key: &[u8],
        value: &[u8],
        expiry: Option<u64>,
        now: u64,
    ) -> (r: Result<Vec<Action>, HandlerError>)
        ensures
            final(server).spec_metadata() == old(server).spec_metadata(),
            match spec_handle_set(old(server)@, key@, value@, expiry, now) {
                Ok(handled) => r matches Ok(actions) && handled_as(actions, *final(server), handled),
                Err(e) => r matches Err(f) && f == e && final(server)@ == old(server)@,
            },
    {
        if server.is_master() {
            let command = Command::SetValue {
                key: copy_bytes(key),
                value: copy_bytes(value),
                expiry,
            };
            let message = command.to_resp_token().serialize();
            let targets = server.propagate_message();
            let counted = server.advance_offset(message.len());
            if !counted {
                return Err(HandlerError::OffsetOverflow);
            }
            server.set(key, value, expiry, now);
            Ok(
                two_actions(
                    Action::Broadcast { message, targets },
                    Action::Reply(simple_string_reply("OK")),
                ),
            )
        } else {
            server.set(key, value, expiry, now);
            Ok(no_action())
        }
    }

    /// The answer to `INFO replication` of `server`.
    pub fn replica_info(server: &Server) -> (r: Vec<u8>)
        ensures
            r@ == spec_info_text(server@.role),
    {
        server.metadata().get_replica_info(server.get_offset())
    }

    /// Answers `INFO`.
    pub fn handle_info(&self, server: &mut Server, section: &Vec<u8>) -> (r: Vec<Action>)
        requires
            section@ == encode_utf8("replication"@),
        ensures
            final(server).spec_metadata() == old(server).spec_metadata(),
            handled_as(r, *final(server), spec_handle_info(old(server)@)),
    {
        reply_only(Token::BulkString(Self::replica_info(server)).serialize())
    }

    /// Does `REPLCONF`.
    pub fn handle_replconf(&self, server: &mut Server, replconf: &ReplConfCommand) -> (r: Vec<
        Action,
    >)
        requires
            spec_accepts(old(server)@, CommandModel::ReplConf(replconf@)),
        ensures
            final(server).spec_metadata() == old(server).spec_metadata(),
            handled_as(
                r,
                *final(server),
                spec_handle_replconf(old(server)@, self.peer, replconf@),
            ),
    {
        if server.is_master() {
            match replconf {
                ReplConfCommand::Ack(offset) => {
                    server.update_replica_offset(self.peer, *offset);
                    no_action()
                },
                _ => reply_only(simple_string_reply("OK")),
            }
        } else {
            let ack = ReplConfCommand::Ack(server.get_offset());
            reply_only(ack.to_resp_token().serialize())
        }
    }

    /// The line by which a master with the id `replication_id`, at `offset`, tells
    /// a replica that a full snapshot follows.
    pub fn fullresync_reply(replication_id: &str, offset: u64) -> (r: Vec<u8>)
        ensures
            r@ == spec_fullresync(replication_id@, offset),
    {
        let mut out = copy_bytes("+FULLRESYNC ".as_bytes());
        append_bytes(&mut out, replication_id.as_bytes());
        append_bytes(&mut out, " ".as_bytes());
        push_unsigned(&mut out, offset);
        append_crlf(&mut out);
        out
    }

    /// Does `PSYNC` on a master, with `snapshot` as what the replica is sent.
    pub fn handle_psync(&self, server: &mut Server, snapshot: &[u8]) -> (r: Vec<Action>)
        requires
            old(server)@.is_master(),
        ensures
            final(server).spec_metadata() == old(server).spec_metadata(),
            handled_as(r, *final(server), spec_handle_psync(old(server)@, self.peer, snapshot@)),
    {
        let line = match &server.metadata().replica_info {
            ReplicaInfo::Master(master) => Self::fullresync_reply(
                master.replication_id.as_str(),
                server.get_offset(),
            ),
            ReplicaInfo::Slave(_) => {
                return no_action();
            },
        };
        let payload = serialize_rdb(snapshot);
        server.add_replica(self.peer);
        two_actions(Action::Reply(line), Action::Reply(payload))
    }

    /// Starts `WAIT` on a master.
    pub fn handle_wait(&self, server: &mut Server, replica_count: u64, timeout_ms: u64) -> (r: Vec<
        Action,
    >)
        requires
            old(server)@.is_master(),
        ensures
            final(server).spec_metadata() == old(server).spec_metadata(),
            handled_as(r, *final(server), spec_handle_wait(old(server)@, replica_count, timeout_ms)),
    {
        if replica_count == 0 {
            return reply_only(Token::Integer(0).serialize());
        }
        let target_offset = server.get_offset();
        let getack = ReplConfCommand::GetAck(copy_bytes("*".as_bytes()));
        let message = getack.to_resp_token().serialize();
        let targets = server.propagate_message();
        two_actions(
            Action::Broadcast { message, targets },
            Action::AwaitAcks { target_offset, replica_count, timeout_ms },
        )
    }

    /// The answer to `WAIT` as things stand: the number of replicas that have
    /// acknowledged `target_offset`.
    pub fn wait_reply(server: &Server, target_offset: u64) -> (r: Vec<u8>)
        ensures
            r@ == spec_wait_reply(server@, target_offset),
    {
        let count: usize = server.get_up_to_date_replicas_count(target_offset);
        let number: i64 = if count as u64 > 0x7fff_ffff_ffff_ffff {
            i64::MAX
        } else {
            count as i64
        };
        Token::Integer(number).serialize()
    }

    /// The answer to `WAIT`, if `replica_count` replicas have acknowledged
    /// `target_offset` by now; `None` while the wait goes on.
    pub fn poll_wait(server: &Server, target_offset: u64, replica_count: u64) -> (r: Option<
        Vec<u8>,
    >)
        ensures
            match r {
                Some(reply) => spec_wait_is_over(server@, target_offset, replica_count) && reply@
                    == spec_wait_reply(server@, target_offset),
                None => !spec_wait_is_over(server@, target_offset, replica_count),
            },
    {
        let count: usize = server.get_up_to_date_replicas_count(target_offset);
        if count as u64 >= replica_count {
            Some(Self::wait_reply(server, target_offset))
        } else {
            None
        }
    }
}

} // verus!
