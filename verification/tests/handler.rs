use codecrafters_redis::client::Client;
use codecrafters_redis::network::connection::Connection;
use codecrafters_redis::parser::command::{parse_command, Command, ReplConfCommand};
use codecrafters_redis::replication::handshake::{
    Config as HandshakeConfig, HandshakeStep, Handshaker,
};
use codecrafters_redis::replication::rdb::{get_empty_rdb, serialize_rdb};
use codecrafters_redis::replication::replica_manager::PeerAddr;
use codecrafters_redis::server::config::Config;
use codecrafters_redis::server::data::Server;
use codecrafters_redis::server::handler::{
    Action, CommandHandler, HandlerError, ReadStep,
};
use codecrafters_redis::server::metadata::ServerMetadata;

const REPLICATION_ID: &str = "8371b4fb1155b71f4a04d3e1bc3e18c4a990aeeb";
const SET_FOO_BAR: &[u8] = b"*3\r\n$3\r\nSET\r\n$3\r\nfoo\r\n$3\r\nbar\r\n";
const GETACK: &[u8] = b"*3\r\n$8\r\nREPLCONF\r\n$6\r\nGETACK\r\n$1\r\n*\r\n";

fn addr(port: u16) -> PeerAddr {
    PeerAddr { ip: 1, port }
}

fn master() -> Server {
    Server::new(ServerMetadata::generate(&Config::default()))
}

fn replica() -> Server {
    Server::new(ServerMetadata::generate(&Config::new(
        6380,
        Some("localhost 6379".to_string()),
        None,
        None,
    )))
}

/// Feeds `input` to the handler, one command after the other, and gathers what
/// is written back to the peer.
fn converse(handler: &CommandHandler, server: &mut Server, input: &[u8], now: u64) -> Vec<u8> {
    let mut conn = Connection::from_existing(input);
    let mut output = Vec::new();
    loop {
        match handler.handle_read_step(&mut conn, server, now) {
            ReadStep::Handled(actions) => {
                for action in actions {
                    if let Action::Reply(bytes) = action {
                        output.extend_from_slice(&bytes);
                    }
                }
            }
            ReadStep::NeedMore => break,
            other => panic!("the conversation broke off: {:?}", other),
        }
    }
    assert_eq!(conn.get_buffer(), b"");
    output
}

fn sorted(mut targets: Vec<PeerAddr>) -> Vec<PeerAddr> {
    targets.sort_by_key(|target| target.port);
    targets
}

#[test]
fn a_master_answers_ping_with_pong() {
    let mut server = master();
    let handler = CommandHandler::new(addr(1));
    assert_eq!(
        converse(&handler, &mut server, b"*1\r\n$4\r\nPING\r\n", 0),
        b"+PONG\r\n".to_vec()
    );
    assert_eq!(
        handler.handle_command(&mut server, &Command::Ping, 0),
        Ok(vec![Action::Reply(b"+PONG\r\n".to_vec())])
    );
    assert_eq!(server.get_heartbeat(), None);
}

#[test]
fn a_replica_answers_ping_with_nothing_and_notes_the_time() {
    let mut server = replica();
    let handler = CommandHandler::for_master_link(addr(1));
    assert_eq!(
        converse(&handler, &mut server, b"*1\r\n$4\r\nPING\r\n", 42),
        Vec::<u8>::new()
    );
    assert_eq!(server.get_heartbeat(), Some(42));
    assert_eq!(
        handler.handle_command(&mut server, &Command::Ping, 43),
        Ok(Vec::new())
    );
    assert_eq!(server.get_heartbeat(), Some(43));
}

#[test]
fn echo_sends_the_bytes_back() {
    for mut server in [master(), replica()] {
        let handler = CommandHandler::new(addr(1));
        assert_eq!(
            converse(&handler, &mut server, b"*2\r\n$4\r\nECHO\r\n$3\r\nhey\r\n", 0),
            b"$3\r\nhey\r\n".to_vec()
        );
        assert_eq!(
            handler.handle_echo(&mut server, b""),
            vec![Action::Reply(b"$0\r\n\r\n".to_vec())]
        );
    }
}

#[test]
fn set_followed_by_get_on_a_master() {
    let mut server = master();
    let handler = CommandHandler::new(addr(1));
    let mut input = SET_FOO_BAR.to_vec();
    input.extend_from_slice(b"*2\r\n$3\r\nGET\r\n$3\r\nfoo\r\n");
    assert_eq!(
        converse(&handler, &mut server, &input, 0),
        b"+OK\r\n$3\r\nbar\r\n".to_vec()
    );
}

#[test]
fn get_of_an_absent_key_gives_the_null_bulk_string() {
    let mut server = master();
    let handler = CommandHandler::new(addr(1));
    assert_eq!(
        converse(&handler, &mut server, b"*2\r\n$3\r\nGET\r\n$3\r\nfoo\r\n", 0),
        b"$-1\r\n".to_vec()
    );
}

#[test]
fn a_value_set_with_px_is_gone_after_its_time() {
    let mut server = master();
    let handler = CommandHandler::new(addr(1));
    let set = b"*5\r\n$3\r\nSET\r\n$3\r\nfoo\r\n$3\r\nbar\r\n$2\r\nPX\r\n$3\r\n100\r\n";
    let get = b"*2\r\n$3\r\nGET\r\n$3\r\nfoo\r\n";
    assert_eq!(converse(&handler, &mut server, set, 1000), b"+OK\r\n".to_vec());
    assert_eq!(
        converse(&handler, &mut server, get, 1050),
        b"$3\r\nbar\r\n".to_vec()
    );
    assert_eq!(converse(&handler, &mut server, get, 1200), b"$-1\r\n".to_vec());
    assert_eq!(converse(&handler, &mut server, get, 1050), b"$-1\r\n".to_vec());
}

#[test]
fn info_replication_on_a_master_without_replicas() {
    let mut server = master();
    let handler = CommandHandler::new(addr(1));
    let reply = converse(
        &handler,
        &mut server,
        b"*2\r\n$4\r\nINFO\r\n$11\r\nreplication\r\n",
        0,
    );
    let body = format!(
        "role:master\r\nmaster_replid:{}\r\nmaster_repl_offset:0",
        REPLICATION_ID
    );
    assert!(body.starts_with("role:master\r\nmaster_replid:"));
    assert!(body.ends_with("\r\nmaster_repl_offset:0"));
    assert_eq!(
        reply,
        format!("${}\r\n{}\r\n", body.len(), body).into_bytes()
    );
}

#[test]
fn info_replication_tells_the_offset_and_the_role() {
    let mut server = master();
    let handler = CommandHandler::new(addr(1));
    converse(&handler, &mut server, SET_FOO_BAR, 0);
    let body = format!(
        "role:master\r\nmaster_replid:{}\r\nmaster_repl_offset:31",
        REPLICATION_ID
    );
    assert_eq!(CommandHandler::replica_info(&server), body.into_bytes());
    let mut server = replica();
    assert_eq!(
        converse(
            &handler,
            &mut server,
            b"*2\r\n$4\r\ninfo\r\n$11\r\nreplication\r\n",
            0
        ),
        b"$10\r\nrole:slave\r\n".to_vec()
    );
}

#[test]
fn a_master_sends_a_write_on_and_counts_its_bytes() {
    let mut server = master();
    server.add_replica(addr(10));
    server.add_replica(addr(11));
    let handler = CommandHandler::new(addr(1));
    let command = Command::SetValue {
        key: b"foo".to_vec(),
        value: b"bar".to_vec(),
        expiry: None,
    };
    let actions = handler.handle_command(&mut server, &command, 0).unwrap();
    assert_eq!(actions.len(), 2);
    match &actions[0] {
        Action::Broadcast { message, targets } => {
            assert_eq!(message, &SET_FOO_BAR.to_vec());
            assert_eq!(sorted(targets.clone()), vec![addr(10), addr(11)]);
        }
        other => panic!("the write should go to the replicas first: {:?}", other),
    }
    assert_eq!(actions[1], Action::Reply(b"+OK\r\n".to_vec()));
    assert_eq!(server.get_offset(), SET_FOO_BAR.len() as u64);
    assert_eq!(server.get_offset(), 31);

    let command = Command::SetValue {
        key: b"k".to_vec(),
        value: b"v".to_vec(),
        expiry: Some(100),
    };
    let actions = handler.handle_command(&mut server, &command, 0).unwrap();
    let sent = match &actions[0] {
        Action::Broadcast { message, .. } => message.clone(),
        other => panic!("the write should go to the replicas first: {:?}", other),
    };
    assert_eq!(
        sent,
        b"*5\r\n$3\r\nSET\r\n$1\r\nk\r\n$1\r\nv\r\n$2\r\nPX\r\n$3\r\n100\r\n".to_vec()
    );
    assert_eq!(server.get_offset(), 31 + sent.len() as u64);
}

#[test]
fn reads_do_not_move_the_offset_of_a_master() {
    let mut server = master();
    let handler = CommandHandler::new(addr(1));
    let mut input = b"*1\r\n$4\r\nPING\r\n".to_vec();
    input.extend_from_slice(b"*2\r\n$3\r\nGET\r\n$3\r\nfoo\r\n");
    input.extend_from_slice(b"*2\r\n$4\r\nECHO\r\n$3\r\nhey\r\n");
    input.extend_from_slice(b"*3\r\n$4\r\nWAIT\r\n$1\r\n0\r\n$1\r\n0\r\n");
    converse(&handler, &mut server, &input, 0);
    assert_eq!(server.get_offset(), 0);
}

#[test]
fn a_replica_applies_a_write_from_its_master_in_silence() {
    let mut master = master();
    let mut replica = replica();
    master.add_replica(addr(10));
    let client = CommandHandler::new(addr(1));
    let link = CommandHandler::for_master_link(addr(2));

    let mut conn = Connection::from_existing(b"*3\r\n$3\r\nSET\r\n$1\r\nk\r\n$1\r\nv\r\n");
    let actions = match client.handle_read_step(&mut conn, &mut master, 0) {
        ReadStep::Handled(actions) => actions,
        other => panic!("the master should take the write: {:?}", other),
    };
    assert_eq!(actions[1], Action::Reply(b"+OK\r\n".to_vec()));
    let sent = match &actions[0] {
        Action::Broadcast { message, targets } => {
            assert_eq!(targets, &vec![addr(10)]);
            message.clone()
        }
        other => panic!("the write should go to the replicas first: {:?}", other),
    };

    assert_eq!(converse(&link, &mut replica, &sent, 0), Vec::<u8>::new());
    assert_eq!(replica.get_offset(), master.get_offset());
    assert_eq!(
        converse(
            &CommandHandler::new(addr(3)),
            &mut replica,
            b"*2\r\n$3\r\nGET\r\n$1\r\nk\r\n",
            0
        ),
        b"$1\r\nv\r\n".to_vec()
    );
    assert_eq!(replica.get_offset(), master.get_offset());
}

#[test]
fn offsets_count_the_bytes_of_one_set() {
    let mut master = master();
    let mut replica = replica();
    let client = CommandHandler::new(addr(1));
    let link = CommandHandler::for_master_link(addr(2));
    converse(&client, &mut master, b"*3\r\n$3\r\nset\r\n$3\r\nfoo\r\n$3\r\nbar\r\n", 0);
    assert_eq!(master.get_offset(), SET_FOO_BAR.len() as u64);
    assert_eq!(replica.get_offset(), 0);
    converse(&link, &mut replica, SET_FOO_BAR, 0);
    assert_eq!(replica.get_offset(), SET_FOO_BAR.len() as u64);
}

#[test]
fn a_replica_acknowledges_what_it_has_applied() {
    let mut server = replica();
    let link = CommandHandler::for_master_link(addr(2));
    assert_eq!(
        converse(&link, &mut server, GETACK, 0),
        b"*3\r\n$8\r\nREPLCONF\r\n$3\r\nACK\r\n$2\r\n37\r\n".to_vec()
    );
    converse(&link, &mut server, SET_FOO_BAR, 0);
    converse(&link, &mut server, b"*1\r\n$4\r\nPING\r\n", 0);
    assert_eq!(server.get_offset(), 37 + 31 + 14);
    assert_eq!(
        converse(&link, &mut server, GETACK, 0),
        b"*3\r\n$8\r\nREPLCONF\r\n$3\r\nACK\r\n$3\r\n119\r\n".to_vec()
    );
    assert_eq!(server.get_offset(), 119);
}

#[test]
fn a_master_answers_ok_to_the_settings_of_a_replica() {
    let mut server = master();
    let handler = CommandHandler::new(addr(1));
    let mut input =
        b"*3\r\n$8\r\nREPLCONF\r\n$14\r\nlistening-port\r\n$4\r\n6380\r\n".to_vec();
    input.extend_from_slice(b"*3\r\n$8\r\nREPLCONF\r\n$4\r\ncapa\r\n$6\r\npsync2\r\n");
    assert_eq!(
        converse(&handler, &mut server, &input, 0),
        b"+OK\r\n+OK\r\n".to_vec()
    );
    assert_eq!(server.get_replica_count(), 0);
}

#[test]
fn a_master_records_an_acknowledgement_and_says_nothing() {
    let mut server = master();
    server.add_replica(addr(10));
    server.add_replica(addr(11));
    let handler = CommandHandler::new(addr(10));
    let ack = Command::ReplConf(ReplConfCommand::Ack(31));
    assert_eq!(handler.handle_command(&mut server, &ack, 0), Ok(Vec::new()));
    assert_eq!(server.get_up_to_date_replicas_count(31), 1);
    let stranger = CommandHandler::new(addr(99));
    assert_eq!(stranger.handle_command(&mut server, &ack, 0), Ok(Vec::new()));
    assert_eq!(server.get_up_to_date_replicas_count(31), 1);
    assert_eq!(server.get_replica_count(), 2);
}

#[test]
fn psync_sends_the_snapshot_and_registers_the_replica() {
    let mut server = master();
    let handler = CommandHandler::new(addr(10));
    converse(&CommandHandler::new(addr(1)), &mut server, SET_FOO_BAR, 0);
    let actions = handler
        .handle_command(&mut server, &Command::Psync, 0)
        .unwrap();
    let rdb = get_empty_rdb().unwrap();
    assert_eq!(
        actions,
        vec![
            Action::Reply(format!("+FULLRESYNC {} 31\r\n", REPLICATION_ID).into_bytes()),
            Action::Reply(serialize_rdb(&rdb)),
        ]
    );
    assert_eq!(server.get_replica_count(), 1);
    assert_eq!(server.propagate_message(), vec![addr(10)]);
    assert_eq!(server.get_up_to_date_replicas_count(1), 0);

    let actions = handler.handle_psync(&mut server, b"abc");
    assert_eq!(actions[1], Action::Reply(b"$3\r\nabc".to_vec()));
    assert_eq!(server.get_replica_count(), 1);
    assert_eq!(
        CommandHandler::fullresync_reply("id", 7),
        b"+FULLRESYNC id 7\r\n".to_vec()
    );
}

#[test]
fn the_handshake_of_a_replica_with_its_master() {
    let mut master = master();
    let peer = addr(10);
    let handler = CommandHandler::new(peer);
    let handshaker = Handshaker::new(HandshakeConfig {
        master_host: "localhost".to_string(),
        master_port: 6379,
        replica_port: 6380,
    });
    let mut client = Client::new(Connection::new());
    let mut to_master = Connection::new();
    let mut sent = Vec::new();
    let mut received = Vec::new();

    let (mut stage, first) = handshaker.begin();
    let mut outgoing = Some(first);
    let payload = loop {
        if let Some(message) = outgoing.take() {
            sent.push(message.clone());
            to_master.read_message(&message).unwrap();
            let actions = match handler.handle_read_step(&mut to_master, &mut master, 0) {
                ReadStep::Handled(actions) => actions,
                other => panic!("the master should take the request: {:?}", other),
            };
            for action in actions {
                match action {
                    Action::Reply(bytes) => {
                        client.get_connection().read_message(&bytes).unwrap();
                        received.push(bytes);
                    }
                    other => panic!("a handshake only has replies: {:?}", other),
                }
            }
        }
        match handshaker.advance(stage, &mut client) {
            HandshakeStep::Send { message, next } => {
                outgoing = Some(message);
                stage = next;
            }
            HandshakeStep::Finished(payload) => break payload,
            other => panic!("the handshake should go on: {:?}", other),
        }
    };

    assert_eq!(
        sent,
        vec![
            b"*1\r\n$4\r\nPING\r\n".to_vec(),
            b"*3\r\n$8\r\nREPLCONF\r\n$14\r\nlistening-port\r\n$4\r\n6380\r\n".to_vec(),
            b"*3\r\n$8\r\nREPLCONF\r\n$4\r\ncapa\r\n$6\r\npsync2\r\n".to_vec(),
            b"*3\r\n$5\r\nPSYNC\r\n$1\r\n?\r\n$2\r\n-1\r\n".to_vec(),
        ]
    );
    let rdb = get_empty_rdb().unwrap();
    assert_eq!(
        received,
        vec![
            b"+PONG\r\n".to_vec(),
            b"+OK\r\n".to_vec(),
            b"+OK\r\n".to_vec(),
            format!("+FULLRESYNC {} 0\r\n", REPLICATION_ID).into_bytes(),
            serialize_rdb(&rdb),
        ]
    );
    assert_eq!(payload.rdb, rdb);
    assert_eq!(client.get_buffer(), b"");
    assert_eq!(master.propagate_message(), vec![peer]);
}

#[test]
fn wait_for_no_replica_is_answered_at_once() {
    let mut server = master();
    let handler = CommandHandler::new(addr(1));
    assert_eq!(
        converse(
            &handler,
            &mut server,
            b"*3\r\n$4\r\nWAIT\r\n$1\r\n0\r\n$3\r\n500\r\n",
            0
        ),
        b":0\r\n".to_vec()
    );
}

#[test]
fn wait_is_over_once_enough_replicas_have_caught_up() {
    let mut server = master();
    let client = CommandHandler::new(addr(1));
    server.add_replica(addr(10));
    server.add_replica(addr(11));
    converse(&client, &mut server, SET_FOO_BAR, 0);
    let target = server.get_offset();
    server.update_replica_offset(addr(10), target);
    server.update_replica_offset(addr(11), target);

    let wait = parse_command(b"*3\r\n$4\r\nWAIT\r\n$1\r\n2\r\n$3\r\n500\r\n")
        .unwrap()
        .command;
    let actions = client.handle_command(&mut server, &wait, 0).unwrap();
    assert_eq!(actions.len(), 2);
    match &actions[0] {
        Action::Broadcast { message, targets } => {
            assert_eq!(message, &GETACK.to_vec());
            assert_eq!(sorted(targets.clone()), vec![addr(10), addr(11)]);
        }
        other => panic!("the replicas should be asked first: {:?}", other),
    }
    assert_eq!(
        actions[1],
        Action::AwaitAcks {
            target_offset: 31,
            replica_count: 2,
            timeout_ms: 500
        }
    );
    assert_eq!(server.get_offset(), 31);
    assert_eq!(
        CommandHandler::poll_wait(&server, 31, 2),
        Some(b":2\r\n".to_vec())
    );
}

#[test]
fn wait_goes_on_until_the_acknowledgements_come() {
    let mut server = master();
    let client = CommandHandler::new(addr(1));
    server.add_replica(addr(10));
    server.add_replica(addr(11));
    converse(&client, &mut server, SET_FOO_BAR, 0);
    assert_eq!(CommandHandler::poll_wait(&server, 31, 1), None);
    assert_eq!(CommandHandler::wait_reply(&server, 31), b":0\r\n".to_vec());
    let ack = Command::ReplConf(ReplConfCommand::Ack(31));
    CommandHandler::new(addr(10))
        .handle_command(&mut server, &ack, 0)
        .unwrap();
    assert_eq!(
        CommandHandler::poll_wait(&server, 31, 1),
        Some(b":1\r\n".to_vec())
    );
    assert_eq!(CommandHandler::poll_wait(&server, 31, 2), None);
    assert_eq!(CommandHandler::wait_reply(&server, 31), b":1\r\n".to_vec());
    assert_eq!(
        CommandHandler::poll_wait(&server, 0, 2),
        Some(b":2\r\n".to_vec())
    );
}

#[test]
fn wait_without_replicas_times_out_with_zero() {
    let mut server = master();
    let client = CommandHandler::new(addr(1));
    let wait = Command::Wait {
        replica_count: 3,
        timeout_ms: 100,
    };
    let actions = client.handle_command(&mut server, &wait, 0).unwrap();
    assert_eq!(
        actions,
        vec![
            Action::Broadcast {
                message: GETACK.to_vec(),
                targets: Vec::new()
            },
            Action::AwaitAcks {
                target_offset: 0,
                replica_count: 3,
                timeout_ms: 100
            },
        ]
    );
    assert_eq!(CommandHandler::poll_wait(&server, 0, 3), None);
    assert_eq!(CommandHandler::wait_reply(&server, 0), b":0\r\n".to_vec());
}

#[test]
fn a_server_takes_only_the_commands_of_its_role() {
    let master = master();
    let replica = replica();
    let handler = CommandHandler::new(addr(1));
    let wait = Command::Wait {
        replica_count: 1,
        timeout_ms: 1,
    };
    let getack = Command::ReplConf(ReplConfCommand::GetAck(b"*".to_vec()));
    let other = Command::ReplConf(ReplConfCommand::Other("version".to_string()));
    let ack = Command::ReplConf(ReplConfCommand::Ack(1));
    let capa = Command::ReplConf(ReplConfCommand::Capa("psync2".to_string()));
    let port = Command::ReplConf(ReplConfCommand::ListeningPort(1));
    let info = Command::Info(b"replication".to_vec());
    let keys = Command::Info(b"keys".to_vec());
    let shouted = Command::Info(b"REPLICATION".to_vec());
    for command in [&Command::Ping, &info, &ack, &capa, &port, &Command::Psync, &wait] {
        assert!(handler.accepts(&master, command), "{:?}", command);
    }
    for command in [&keys, &shouted, &getack, &other] {
        assert!(!handler.accepts(&master, command), "{:?}", command);
    }
    for command in [&Command::Ping, &info, &ack, &capa, &port, &getack, &other] {
        assert!(handler.accepts(&replica, command), "{:?}", command);
    }
    for command in [&keys, &Command::Psync, &wait] {
        assert!(!handler.accepts(&replica, command), "{:?}", command);
    }
}

#[test]
fn a_command_that_is_not_taken_changes_nothing() {
    let mut server = replica();
    let link = CommandHandler::for_master_link(addr(2));
    let input = b"*3\r\n$4\r\nWAIT\r\n$1\r\n1\r\n$1\r\n1\r\n";
    let mut conn = Connection::from_existing(input);
    assert_eq!(
        link.handle_read_step(&mut conn, &mut server, 0),
        ReadStep::Unsupported
    );
    assert_eq!(conn.get_buffer(), input);
    assert_eq!(server.get_offset(), 0);
}

#[test]
fn a_read_step_waits_for_a_whole_command_and_closes_on_a_bad_one() {
    let mut server = master();
    let handler = CommandHandler::new(addr(1));
    let mut conn = Connection::from_existing(b"*1\r\n$4\r\nPI");
    assert_eq!(
        handler.handle_read_step(&mut conn, &mut server, 0),
        ReadStep::NeedMore
    );
    assert_eq!(conn.get_buffer(), b"*1\r\n$4\r\nPI");
    conn.read_message(b"NG\r\n*1\r\n$3\r\nfoo\r\n").unwrap();
    assert_eq!(
        handler.handle_read_step(&mut conn, &mut server, 0),
        ReadStep::Handled(vec![Action::Reply(b"+PONG\r\n".to_vec())])
    );
    assert_eq!(conn.get_buffer(), b"*1\r\n$3\r\nfoo\r\n");
    assert_eq!(
        handler.handle_read_step(&mut conn, &mut server, 0),
        ReadStep::Close
    );
    assert_eq!(conn.get_buffer(), b"*1\r\n$3\r\nfoo\r\n");
    let mut conn = Connection::from_existing(b"PING\r\n");
    assert_eq!(
        handler.handle_read_step(&mut conn, &mut server, 0),
        ReadStep::Close
    );
}

#[test]
fn only_the_link_to_the_master_moves_the_offset_of_a_replica() {
    let mut server = replica();
    let client = CommandHandler::new(addr(5));
    converse(&client, &mut server, SET_FOO_BAR, 0);
    converse(&client, &mut server, b"*1\r\n$4\r\nPING\r\n", 0);
    assert_eq!(server.get_offset(), 0);
    assert_eq!(
        converse(&client, &mut server, b"*2\r\n$3\r\nGET\r\n$3\r\nfoo\r\n", 0),
        b"$3\r\nbar\r\n".to_vec()
    );
    let link = CommandHandler::for_master_link(addr(2));
    converse(&link, &mut server, b"*1\r\n$4\r\nPING\r\n", 0);
    assert_eq!(server.get_offset(), 14);
}

#[test]
fn the_handler_errors_are_told_apart() {
    assert_eq!(
        ReadStep::Failed(HandlerError::SnapshotUnavailable),
        ReadStep::Failed(HandlerError::SnapshotUnavailable)
    );
    assert_ne!(
        ReadStep::Failed(HandlerError::SnapshotUnavailable),
        ReadStep::Failed(HandlerError::OffsetOverflow)
    );
    assert_ne!(ReadStep::Failed(HandlerError::SnapshotUnavailable), ReadStep::Close);
}

/// A server whose offset is the largest that can be counted, where the machine
/// counts lengths in 64 bits; `None` where it does not.
fn at_the_end(mut server: Server) -> Option<Server> {
    assert!(server.advance_offset(usize::MAX));
    if server.get_offset() == u64::MAX {
        Some(server)
    } else {
        None
    }
}

#[test]
fn a_master_whose_offset_cannot_move_on_does_not_write() {
    let mut server = match at_the_end(master()) {
        Some(server) => server,
        None => return,
    };
    server.add_replica(addr(10));
    let handler = CommandHandler::new(addr(1));
    let command = Command::SetValue {
        key: b"foo".to_vec(),
        value: b"bar".to_vec(),
        expiry: None,
    };
    assert_eq!(
        handler.handle_command(&mut server, &command, 0),
        Err(HandlerError::OffsetOverflow)
    );
    assert_eq!(
        handler.handle_set(&mut server, b"foo", b"bar", None, 0),
        Err(HandlerError::OffsetOverflow)
    );
    assert_eq!(server.get_offset(), u64::MAX);
    assert_eq!(server.get(b"foo", 0), None);
    let mut conn = Connection::from_existing(SET_FOO_BAR);
    assert_eq!(
        handler.handle_read_step(&mut conn, &mut server, 0),
        ReadStep::Failed(HandlerError::OffsetOverflow)
    );
    assert_eq!(conn.get_buffer(), SET_FOO_BAR);
    assert_eq!(
        converse(&handler, &mut server, b"*1\r\n$4\r\nPING\r\n", 0),
        b"+PONG\r\n".to_vec()
    );
}

#[test]
fn a_replica_whose_offset_cannot_move_on_takes_nothing_from_its_master() {
    let mut server = match at_the_end(replica()) {
        Some(server) => server,
        None => return,
    };
    let link = CommandHandler::for_master_link(addr(2));
    let mut conn = Connection::from_existing(SET_FOO_BAR);
    assert_eq!(
        link.handle_read_step(&mut conn, &mut server, 0),
        ReadStep::Failed(HandlerError::OffsetOverflow)
    );
    assert_eq!(conn.get_buffer(), SET_FOO_BAR);
    assert_eq!(server.get_offset(), u64::MAX);
    assert_eq!(server.get(b"foo", 0), None);
    let client = CommandHandler::new(addr(3));
    assert_eq!(converse(&client, &mut server, SET_FOO_BAR, 0), Vec::<u8>::new());
    assert_eq!(server.get(b"foo", 0), Some(b"bar".to_vec()));
}

#[test]
fn a_write_moves_the_offset_from_wherever_it_stands() {
    let mut server = master();
    assert!(server.advance_offset(1_000_000));
    let handler = CommandHandler::new(addr(1));
    assert_eq!(
        handler.handle_set(&mut server, b"foo", b"bar", None, 0),
        Ok(vec![
            Action::Broadcast {
                message: SET_FOO_BAR.to_vec(),
                targets: Vec::new()
            },
            Action::Reply(b"+OK\r\n".to_vec()),
        ])
    );
    assert_eq!(server.get_offset(), 1_000_031);
    let mut server = replica();
    assert!(server.advance_offset(1_000_000));
    let link = CommandHandler::for_master_link(addr(2));
    let mut input = SET_FOO_BAR.to_vec();
    input.extend_from_slice(b"*1\r\n$4\r\nPI");
    let mut conn = Connection::from_existing(&input);
    assert_eq!(
        link.handle_read_step(&mut conn, &mut server, 0),
        ReadStep::Handled(Vec::new())
    );
    assert_eq!(server.get_offset(), 1_000_031);
    assert_eq!(conn.get_buffer(), b"*1\r\n$4\r\nPI");
    assert_eq!(
        CommandHandler::new(addr(3)).handle_set(&mut server, b"k", b"v", None, 0),
        Ok(Vec::new())
    );
    assert_eq!(server.get_offset(), 1_000_031);
}

#[test]
fn a_disconnect_forgets_the_replica() {
    let mut server = master();
    let handler = CommandHandler::new(addr(10));
    handler
        .handle_command(&mut server, &Command::Psync, 0)
        .unwrap();
    assert_eq!(server.get_replica_count(), 1);
    server.handle_disconnect(addr(11));
    assert_eq!(server.get_replica_count(), 1);
    server.handle_disconnect(addr(10));
    assert_eq!(server.get_replica_count(), 0);
    let actions = CommandHandler::new(addr(1))
        .handle_command(
            &mut server,
            &Command::SetValue {
                key: b"k".to_vec(),
                value: b"v".to_vec(),
                expiry: None,
            },
            0,
        )
        .unwrap();
    assert_eq!(
        actions[0],
        Action::Broadcast {
            message: b"*3\r\n$3\r\nSET\r\n$1\r\nk\r\n$1\r\nv\r\n".to_vec(),
            targets: Vec::new()
        }
    );
}
