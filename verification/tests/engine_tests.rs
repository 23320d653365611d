use p2p_node_handshake::codec::encode;
use p2p_node_handshake::engine::{
    create_version_message, EngineStatus, HandshakeEngine, HandshakeState,
};
use p2p_node_handshake::msg::{HandshakeMessage, NetAddress};
use p2p_node_handshake::orchestrator::{pair_results, PeerResult};
use p2p_node_handshake::{DecodeFault, ErrorKind, P2PError};

fn peer_version() -> HandshakeMessage {
    create_version_message(
        70015,
        0,
        1_700_000_000,
        NetAddress {
            services: 0,
            ip: vec![0u8; 16],
            port: 8333,
        },
        NetAddress::unspecified(),
        42,
        b"/peer:1.0/".to_vec(),
        0,
        false,
    )
}

fn started_engine() -> HandshakeEngine {
    let mut engine = HandshakeEngine::new();
    engine.version_sent();
    engine
}

fn reply_names(replies: &[HandshakeMessage]) -> Vec<&'static str> {
    replies
        .iter()
        .map(|m| match m {
            HandshakeMessage::Version { .. } => "Version",
            HandshakeMessage::Acknowledge => "Acknowledge",
            HandshakeMessage::KeepAlivePing { .. } => "KeepAlivePing",
            HandshakeMessage::KeepAlivePong { .. } => "KeepAlivePong",
            HandshakeMessage::Other { .. } => "Other",
        })
        .collect()
}

#[test]
fn scripted_peer_out_of_order_completes() {
    // The peer probes with a keep-alive before its own version message, then
    // acknowledges: the engine answers the probe with the same nonce, then
    // acknowledges the version, then completes.
    let mut stream = encode(&HandshakeMessage::KeepAlivePing { nonce: 7 });
    stream.extend_from_slice(&encode(&peer_version()));
    stream.extend_from_slice(&encode(&HandshakeMessage::Acknowledge));

    let mut engine = started_engine();
    let (replies, status) = engine.on_bytes(&stream);
    assert_eq!(status, EngineStatus::Completed);
    assert_eq!(engine.state, HandshakeState::Completed);
    assert_eq!(reply_names(&replies), vec!["KeepAlivePong", "Acknowledge"]);
    match &replies[0] {
        HandshakeMessage::KeepAlivePong { nonce } => assert_eq!(*nonce, 7),
        _ => panic!("first reply should echo the probe"),
    }
}

#[test]
fn textbook_order_reaches_the_same_outcome() {
    let mut stream = encode(&peer_version());
    stream.extend_from_slice(&encode(&HandshakeMessage::KeepAlivePing { nonce: 7 }));
    stream.extend_from_slice(&encode(&HandshakeMessage::Acknowledge));

    let mut engine = started_engine();
    let (replies, status) = engine.on_bytes(&stream);
    assert_eq!(status, EngineStatus::Completed);
    assert_eq!(reply_names(&replies), vec!["Acknowledge", "KeepAlivePong"]);
}

#[test]
fn unknown_message_is_ignored_not_fatal() {
    let mut stream = encode(&peer_version());
    stream.extend_from_slice(&encode(&HandshakeMessage::Other {
        command: b"inv\0\0\0\0\0\0\0\0\0".to_vec(),
        payload: vec![9u8, 9, 9],
    }));
    stream.extend_from_slice(&encode(&HandshakeMessage::Acknowledge));

    let mut engine = started_engine();
    let (replies, status) = engine.on_bytes(&stream);
    assert_eq!(status, EngineStatus::Completed);
    assert_eq!(reply_names(&replies), vec!["Acknowledge"]);
}

#[test]
fn keep_alive_pong_earns_no_reply() {
    let mut stream = encode(&HandshakeMessage::KeepAlivePong { nonce: 3 });
    stream.extend_from_slice(&encode(&HandshakeMessage::Acknowledge));

    let mut engine = started_engine();
    let (replies, status) = engine.on_bytes(&stream);
    assert_eq!(status, EngineStatus::Completed);
    assert!(replies.is_empty());
}

#[test]
fn fragmented_stream_completes_on_the_last_byte() {
    let mut stream = encode(&HandshakeMessage::KeepAlivePing { nonce: 5 });
    stream.extend_from_slice(&encode(&HandshakeMessage::Acknowledge));

    let mut engine = started_engine();
    let mut all_replies = Vec::new();
    for (i, byte) in stream.iter().enumerate() {
        let (mut replies, status) = engine.on_bytes(&[*byte]);
        all_replies.append(&mut replies);
        if i + 1 < stream.len() {
            assert!(
                status == EngineStatus::AwaitingBytes,
                "engine concluded early at byte {}",
                i
            );
        } else {
            assert_eq!(status, EngineStatus::Completed);
        }
    }
    assert_eq!(reply_names(&all_replies), vec!["KeepAlivePong"]);
}

#[test]
fn bad_magic_fails_the_handshake() {
    let mut frame = encode(&HandshakeMessage::Acknowledge);
    frame[1] = 0x00;
    let mut engine = started_engine();
    let (replies, status) = engine.on_bytes(&frame);
    assert_eq!(status, EngineStatus::Failed(DecodeFault::MagicMismatch));
    assert_eq!(engine.state, HandshakeState::Failed);
    assert!(replies.is_empty());
}

#[test]
fn corrupted_frame_fails_with_checksum_mismatch() {
    let mut frame = encode(&HandshakeMessage::KeepAlivePing { nonce: 1 });
    let last = frame.len() - 1;
    frame[last] ^= 0xFF;
    let mut engine = started_engine();
    let (_, status) = engine.on_bytes(&frame);
    assert_eq!(status, EngineStatus::Failed(DecodeFault::ChecksumMismatch));
}

#[test]
fn end_of_stream_is_connection_closed() {
    let mut engine = started_engine();
    let error = engine.on_eof();
    assert_eq!(error.kind, ErrorKind::ConnectionClosed);
    assert_eq!(engine.state, HandshakeState::Failed);
}

#[test]
fn results_are_reported_in_input_order() {
    let addresses = vec![
        "10.0.0.1:8333".to_string(),
        "10.0.0.2:8333".to_string(),
        "10.0.0.3:8333".to_string(),
    ];
    let outcomes: Vec<Result<(), P2PError>> = vec![
        Ok(()),
        Err(P2PError::new(ErrorKind::ConnectionClosed)),
        Err(P2PError::new(ErrorKind::TimeoutError)),
    ];
    let records: Vec<PeerResult> = pair_results(addresses, outcomes);
    assert_eq!(records.len(), 3);
    assert_eq!(records[0].address, "10.0.0.1:8333");
    assert_eq!(records[0].outcome, Ok(()));
    assert_eq!(records[1].address, "10.0.0.2:8333");
    assert_eq!(records[1].outcome, Err(P2PError::new(ErrorKind::ConnectionClosed)));
    assert_eq!(records[2].address, "10.0.0.3:8333");
    assert_eq!(records[2].outcome, Err(P2PError::new(ErrorKind::TimeoutError)));
}
