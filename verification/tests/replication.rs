use codecrafters_redis::client::Client;
use codecrafters_redis::network::connection::Connection;
use codecrafters_redis::parser::rdb::parse_rdb_payload;
use codecrafters_redis::parser::resp::{ParseError, Token};
use codecrafters_redis::replication::handshake::{
    starts_with, validate, Config, Expected, HandshakeError, HandshakeStage, HandshakeStep,
    Handshaker,
};
use codecrafters_redis::replication::rdb::{
    get_empty_rdb, serialize_rdb, EMPTY_RDB_BASE64_ENCODED,
};
use codecrafters_redis::replication::replica_manager::{PeerAddr, Replica, ReplicaManager};

fn addr(port: u16) -> PeerAddr {
    PeerAddr {
        ip: 0xffff_7f00_0001,
        port,
    }
}

#[test]
fn a_new_replica_has_acknowledged_nothing() {
    let replica = Replica::new(addr(1));
    assert_eq!(replica.addr, addr(1));
    assert_eq!(replica.replica_offset, 0);
}

#[test]
fn the_registry_holds_one_replica_for_each_address() {
    let mut registry = ReplicaManager::new();
    assert_eq!(registry.get_connected_replica_count(), 0);
    assert_eq!(registry.add_replica(Replica::new(addr(1))), None);
    assert_eq!(registry.add_replica(Replica::new(addr(2))), None);
    assert_eq!(registry.get_connected_replica_count(), 2);
    registry.update_replica_offset(addr(1), 40);
    assert_eq!(
        registry.add_replica(Replica::new(addr(1))),
        Some(Replica {
            addr: addr(1),
            replica_offset: 40
        })
    );
    assert_eq!(registry.get_connected_replica_count(), 2);
    assert_eq!(registry.get_up_to_date_replicas_count(1), 0);
    let same_port_other_host = PeerAddr {
        ip: 1,
        port: 1,
    };
    assert_eq!(registry.add_replica(Replica::new(same_port_other_host)), None);
    assert_eq!(registry.get_connected_replica_count(), 3);
}

#[test]
fn removing_a_replica_says_whether_it_was_there() {
    let mut registry = ReplicaManager::default();
    registry.add_replica(Replica::new(addr(1)));
    registry.add_replica(Replica::new(addr(2)));
    registry.add_replica(Replica::new(addr(3)));
    registry.update_replica_offset(addr(3), 9);
    assert_eq!(registry.remove_replica(addr(4)), None);
    assert_eq!(registry.get_connected_replica_count(), 3);
    assert_eq!(
        registry.remove_replica(addr(1)),
        Some(Replica {
            addr: addr(1),
            replica_offset: 0
        })
    );
    assert_eq!(registry.remove_replica(addr(1)), None);
    assert_eq!(registry.get_connected_replica_count(), 2);
    assert_eq!(registry.get_up_to_date_replicas_count(9), 1);
    assert_eq!(
        registry.remove_replica(addr(3)),
        Some(Replica {
            addr: addr(3),
            replica_offset: 9
        })
    );
    assert_eq!(registry.propagate_message_to_replicas(), vec![addr(2)]);
}

#[test]
fn an_acknowledged_offset_never_goes_back() {
    let mut registry = ReplicaManager::new();
    registry.add_replica(Replica::new(addr(1)));
    registry.update_replica_offset(addr(1), 100);
    assert_eq!(registry.get_up_to_date_replicas_count(100), 1);
    registry.update_replica_offset(addr(1), 40);
    assert_eq!(registry.get_up_to_date_replicas_count(100), 1);
    assert_eq!(registry.get_up_to_date_replicas_count(101), 0);
    registry.update_replica_offset(addr(1), 101);
    assert_eq!(registry.get_up_to_date_replicas_count(101), 1);
    registry.update_replica_offset(addr(9), 500);
    assert_eq!(registry.get_connected_replica_count(), 1);
    assert_eq!(registry.get_up_to_date_replicas_count(102), 0);
}

#[test]
fn up_to_date_replicas_are_counted_against_the_target() {
    let mut registry = ReplicaManager::new();
    for port in 1..=5u16 {
        registry.add_replica(Replica::new(addr(port)));
        registry.update_replica_offset(addr(port), 10 * port as u64);
    }
    assert_eq!(registry.get_up_to_date_replicas_count(0), 5);
    assert_eq!(registry.get_up_to_date_replicas_count(10), 5);
    assert_eq!(registry.get_up_to_date_replicas_count(11), 4);
    assert_eq!(registry.get_up_to_date_replicas_count(30), 3);
    assert_eq!(registry.get_up_to_date_replicas_count(50), 1);
    assert_eq!(registry.get_up_to_date_replicas_count(51), 0);
}

#[test]
fn a_message_goes_to_each_replica_once() {
    let mut registry = ReplicaManager::new();
    assert_eq!(registry.propagate_message_to_replicas(), Vec::<PeerAddr>::new());
    for port in [3u16, 1, 2, 3, 1] {
        registry.add_replica(Replica::new(addr(port)));
    }
    let mut targets = registry.propagate_message_to_replicas();
    targets.sort_by_key(|target| target.port);
    assert_eq!(targets, vec![addr(1), addr(2), addr(3)]);
}

#[test]
fn the_empty_snapshot_is_decoded_from_its_base64_text() {
    let rdb = get_empty_rdb().unwrap();
    assert_eq!(rdb.len(), 88);
    assert_eq!(&rdb[..9], b"REDIS0011");
    assert_eq!(rdb[9], 0xfa);
    assert_eq!(&rdb[79..], &[0xff, 0xf0, 0x6e, 0x3b, 0xfe, 0xc0, 0xff, 0x5a, 0xa2]);
    assert_ne!(rdb, EMPTY_RDB_BASE64_ENCODED.as_bytes().to_vec());
    assert_eq!(EMPTY_RDB_BASE64_ENCODED.len(), 120);
}

#[test]
fn a_snapshot_is_framed_by_its_length_without_a_terminator() {
    assert_eq!(serialize_rdb(b"abc"), b"$3\r\nabc".to_vec());
    assert_eq!(serialize_rdb(b""), b"$0\r\n".to_vec());
    let framed = serialize_rdb(&get_empty_rdb().unwrap());
    assert_eq!(&framed[..5], b"$88\r\n");
    assert_eq!(framed.len(), 93);
}

#[test]
fn a_snapshot_payload_is_parsed_by_its_length() {
    let rdb = get_empty_rdb().unwrap();
    let mut wire = serialize_rdb(&rdb);
    for cut in 0..wire.len() {
        assert!(matches!(
            parse_rdb_payload(&wire[..cut]),
            Err(ParseError::Incomplete)
        ));
    }
    let parsed = parse_rdb_payload(&wire).unwrap();
    assert_eq!(parsed.rdb, rdb);
    assert_eq!(parsed.len, wire.len());
    wire.extend_from_slice(b"*1\r\n$4\r\nPING\r\n");
    let parsed = parse_rdb_payload(&wire).unwrap();
    assert_eq!(parsed.rdb, rdb);
    assert_eq!(parsed.len, 93);
    assert_eq!(&wire[parsed.len..], b"*1\r\n$4\r\nPING\r\n");
}

#[test]
fn a_snapshot_payload_with_a_bad_header_is_invalid() {
    assert!(matches!(parse_rdb_payload(b"+3\r\nabc"), Err(ParseError::Invalid)));
    assert!(matches!(parse_rdb_payload(b"\r\n"), Err(ParseError::Invalid)));
    assert!(matches!(parse_rdb_payload(b"$x\r\nabc"), Err(ParseError::Invalid)));
    assert!(matches!(parse_rdb_payload(b"$-1\r\n"), Err(ParseError::Invalid)));
    assert!(matches!(parse_rdb_payload(b"$\r\n"), Err(ParseError::Invalid)));
    assert!(matches!(parse_rdb_payload(b"$3"), Err(ParseError::Incomplete)));
    assert!(matches!(parse_rdb_payload(b""), Err(ParseError::Incomplete)));
    let parsed = parse_rdb_payload(b"$0\r\n").unwrap();
    assert_eq!(parsed.rdb, Vec::<u8>::new());
    assert_eq!(parsed.len, 4);
}

fn handshaker() -> Handshaker {
    Handshaker::new(Config {
        master_host: "localhost".to_string(),
        master_port: 6379,
        replica_port: 6380,
    })
}

fn message_of(error: HandshakeError) -> String {
    match error {
        HandshakeError::ParseError(Some(text)) => text,
        other => panic!("not a parse error with a text: {:?}", other),
    }
}

#[test]
fn the_handshaker_keeps_its_settings() {
    let handshaker = handshaker();
    assert_eq!(handshaker.config().master_host, "localhost");
    assert_eq!(handshaker.config().master_port, 6379);
    assert_eq!(handshaker.config().replica_port, 6380);
}

#[test]
fn pong_is_accepted_in_any_case() {
    let handshaker = handshaker();
    for text in ["PONG", "pong", "Pong", "pOnG"] {
        assert!(handshaker
            .validate_ping(vec![Token::SimpleString(text.to_string())])
            .is_ok());
    }
    assert_eq!(
        message_of(
            handshaker
                .validate_ping(vec![Token::SimpleString("PONGO".to_string())])
                .unwrap_err()
        ),
        "Unexpected PING response: PONGO"
    );
    assert_eq!(
        message_of(
            handshaker
                .validate_ping(vec![Token::BulkString(b"PONG".to_vec())])
                .unwrap_err()
        ),
        "Expected SimpleString in PING response"
    );
    assert_eq!(
        message_of(handshaker.validate_ping(Vec::new()).unwrap_err()),
        "Invalid PING response length"
    );
    assert_eq!(
        message_of(
            handshaker
                .validate_ping(vec![
                    Token::SimpleString("PONG".to_string()),
                    Token::SimpleString("PONG".to_string())
                ])
                .unwrap_err()
        ),
        "Invalid PING response length"
    );
}

#[test]
fn ok_is_accepted_in_any_case() {
    let handshaker = handshaker();
    for text in ["OK", "ok", "Ok"] {
        assert!(handshaker
            .validate_replconf(vec![Token::SimpleString(text.to_string())])
            .is_ok());
    }
    assert_eq!(
        message_of(
            handshaker
                .validate_replconf(vec![Token::SimpleString("NO".to_string())])
                .unwrap_err()
        ),
        "Unexpected REPLCONF response: NO"
    );
    assert_eq!(
        message_of(
            handshaker
                .validate_replconf(vec![Token::Integer(1)])
                .unwrap_err()
        ),
        "Expected SimpleString in REPLCONF response"
    );
    assert_eq!(
        message_of(handshaker.validate_replconf(Vec::new()).unwrap_err()),
        "Invalid REPLCONF response length"
    );
}

#[test]
fn fullresync_must_begin_the_answer_to_psync() {
    let handshaker = handshaker();
    assert!(handshaker
        .validate_psync(vec![Token::SimpleString(
            "FULLRESYNC 8371b4fb1155b71f4a04d3e1bc3e18c4a990aeeb 0".to_string()
        )])
        .is_ok());
    assert!(handshaker
        .validate_psync(vec![Token::SimpleString("FULLRESYNC ".to_string())])
        .is_ok());
    assert_eq!(
        message_of(
            handshaker
                .validate_psync(vec![Token::SimpleString("FULLRESYNC".to_string())])
                .unwrap_err()
        ),
        "Unexpected PSYNC response: FULLRESYNC"
    );
    assert_eq!(
        message_of(
            handshaker
                .validate_psync(vec![Token::SimpleString("fullresync x 0".to_string())])
                .unwrap_err()
        ),
        "Unexpected PSYNC response: fullresync x 0"
    );
    assert_eq!(
        message_of(handshaker.validate_psync(Vec::new()).unwrap_err()),
        "Invalid PSYNC response length"
    );
    assert!(validate(&vec![Token::SimpleString("ok".to_string())], Expected::Okay).is_ok());
}

#[test]
fn starts_with_compares_the_first_bytes() {
    assert!(starts_with(b"FULLRESYNC abc", b"FULLRESYNC "));
    assert!(starts_with(b"abc", b""));
    assert!(starts_with(b"", b""));
    assert!(starts_with(b"abc", b"abc"));
    assert!(!starts_with(b"ab", b"abc"));
    assert!(!starts_with(b"abd", b"abc"));
    assert!(!starts_with(b"", b"a"));
}

fn expect_send(step: HandshakeStep) -> (Vec<u8>, HandshakeStage) {
    match step {
        HandshakeStep::Send { message, next } => (message, next),
        other => panic!("not a message to send: {:?}", other),
    }
}

#[test]
fn the_handshake_sends_its_four_requests_in_order() {
    let handshaker = handshaker();
    let mut client = Client::new(Connection::new());

    let (stage, message) = handshaker.begin();
    assert_eq!(stage, HandshakeStage::AwaitingPong);
    assert_eq!(message, b"*1\r\n$4\r\nPING\r\n".to_vec());

    assert!(matches!(
        handshaker.advance(stage, &mut client),
        HandshakeStep::NeedMore(HandshakeStage::AwaitingPong)
    ));
    client.get_connection().read_message(b"+PO").unwrap();
    assert!(matches!(
        handshaker.advance(stage, &mut client),
        HandshakeStep::NeedMore(HandshakeStage::AwaitingPong)
    ));
    client.get_connection().read_message(b"NG\r\n").unwrap();
    let (message, stage) = expect_send(handshaker.advance(stage, &mut client));
    assert_eq!(stage, HandshakeStage::AwaitingPortAck);
    assert_eq!(
        message,
        b"*3\r\n$8\r\nREPLCONF\r\n$14\r\nlistening-port\r\n$4\r\n6380\r\n".to_vec()
    );
    assert_eq!(client.get_buffer(), b"");

    client.get_connection().read_message(b"+OK\r\n").unwrap();
    let (message, stage) = expect_send(handshaker.advance(stage, &mut client));
    assert_eq!(stage, HandshakeStage::AwaitingCapaAck);
    assert_eq!(
        message,
        b"*3\r\n$8\r\nREPLCONF\r\n$4\r\ncapa\r\n$6\r\npsync2\r\n".to_vec()
    );

    client.get_connection().read_message(b"+OK\r\n").unwrap();
    let (message, stage) = expect_send(handshaker.advance(stage, &mut client));
    assert_eq!(stage, HandshakeStage::AwaitingFullResync);
    assert_eq!(message, b"*3\r\n$5\r\nPSYNC\r\n$1\r\n?\r\n$2\r\n-1\r\n".to_vec());

    client
        .get_connection()
        .read_message(b"+FULLRESYNC 8371b4fb1155b71f4a04d3e1bc3e18c4a990aeeb 0\r\n$5\r\nab")
        .unwrap();
    let stage = match handshaker.advance(stage, &mut client) {
        HandshakeStep::NeedMore(stage) => stage,
        other => panic!("the snapshot is not whole yet: {:?}", other),
    };
    assert_eq!(stage, HandshakeStage::AwaitingSnapshot);
    assert_eq!(client.get_buffer(), b"$5\r\nab");

    client
        .get_connection()
        .read_message(b"cde*1\r\n$4\r\nPING\r\n")
        .unwrap();
    match handshaker.advance(stage, &mut client) {
        HandshakeStep::Finished(payload) => assert_eq!(payload.rdb, b"abcde".to_vec()),
        other => panic!("the handshake should be over: {:?}", other),
    }
    assert_eq!(client.get_buffer(), b"*1\r\n$4\r\nPING\r\n");
}

#[test]
fn the_snapshot_may_come_with_the_answer_to_psync() {
    let handshaker = handshaker();
    let mut client = Client::new(Connection::from_existing(
        b"+FULLRESYNC id 0\r\n$3\r\nxyz*3\r\n",
    ));
    match handshaker.advance(HandshakeStage::AwaitingFullResync, &mut client) {
        HandshakeStep::Finished(payload) => assert_eq!(payload.rdb, b"xyz".to_vec()),
        other => panic!("the handshake should be over: {:?}", other),
    }
    assert_eq!(client.get_buffer(), b"*3\r\n");
}

#[test]
fn an_unexpected_answer_fails_the_handshake() {
    let handshaker = handshaker();
    let mut client = Client::new(Connection::from_existing(b"+NOPE\r\n"));
    match handshaker.advance(HandshakeStage::AwaitingPong, &mut client) {
        HandshakeStep::Failed(error) => {
            assert_eq!(message_of(error), "Unexpected PING response: NOPE")
        }
        other => panic!("the handshake should have failed: {:?}", other),
    }
    let mut client = Client::new(Connection::from_existing(b"$2\r\nOK\r\n"));
    match handshaker.advance(HandshakeStage::AwaitingCapaAck, &mut client) {
        HandshakeStep::Failed(error) => {
            assert_eq!(message_of(error), "Expected SimpleString in REPLCONF response")
        }
        other => panic!("the handshake should have failed: {:?}", other),
    }
    let mut client = Client::new(Connection::from_existing(b"!what\r\n"));
    match handshaker.advance(HandshakeStage::AwaitingPortAck, &mut client) {
        HandshakeStep::Failed(error) => {
            assert_eq!(message_of(error), "containing RESP message is malformed")
        }
        other => panic!("the handshake should have failed: {:?}", other),
    }
    let mut client = Client::new(Connection::from_existing(b"+OK\r\n"));
    match handshaker.advance(HandshakeStage::AwaitingFullResync, &mut client) {
        HandshakeStep::Failed(error) => {
            assert_eq!(message_of(error), "Unexpected PSYNC response: OK")
        }
        other => panic!("the handshake should have failed: {:?}", other),
    }
    let mut client = Client::new(Connection::from_existing(b"*1\r\n+PONG\r\n"));
    match handshaker.advance(HandshakeStage::AwaitingPong, &mut client) {
        HandshakeStep::Failed(error) => {
            assert_eq!(message_of(error), "Expected SimpleString in PING response")
        }
        other => panic!("the handshake should have failed: {:?}", other),
    }
    let mut client = Client::new(Connection::from_existing(b"#5\r\nabcde"));
    match handshaker.advance(HandshakeStage::AwaitingSnapshot, &mut client) {
        HandshakeStep::Failed(error) => {
            assert_eq!(message_of(error), "containing RESP message is malformed")
        }
        other => panic!("the handshake should have failed: {:?}", other),
    }
}

#[test]
fn a_client_takes_frames_from_its_buffer_one_by_one() {
    let mut client = Client::new(Connection::from_existing(b"+OK\r\n:5\r\n$3\r\nab"));
    let first = client.get_next_message().unwrap().unwrap();
    assert_eq!(first.tokens, vec![Token::SimpleString("OK".to_string())]);
    assert_eq!(first.len, 5);
    let second = client.get_next_message().unwrap().unwrap();
    assert_eq!(second.tokens, vec![Token::Integer(5)]);
    assert!(client.get_next_message().unwrap().is_none());
    assert_eq!(client.get_buffer(), b"$3\r\nab");
    client.get_connection().read_message(b"c\r\n").unwrap();
    let third = client.get_next_message().unwrap().unwrap();
    assert_eq!(third.tokens, vec![Token::BulkString(b"abc".to_vec())]);
    client
        .get_connection()
        .read_message(b"*1\r\n*1\r\n:7\r\n")
        .unwrap();
    let nested = client.get_next_message().unwrap().unwrap();
    assert_eq!(
        nested.tokens,
        vec![Token::Array(vec![Token::Array(vec![Token::Integer(7)])])]
    );
    client.get_connection().read_message(b"?").unwrap();
    assert!(client.get_next_message().is_err());
    assert_eq!(client.get_buffer(), b"?");
    client.consume(1);
    assert_eq!(client.get_buffer(), b"");
}
