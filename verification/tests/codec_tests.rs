use p2p_node_handshake::codec::{decode_next, encode, message_wf};
use p2p_node_handshake::msg::{HandshakeMessage, NetAddress};
use p2p_node_handshake::DecodeFault;

fn test_address(last_octet: u8, port: u16) -> NetAddress {
    // IPv4-mapped form: ten zero bytes, two 0xFF bytes, then the four octets.
    let mut ip = vec![0u8; 10];
    ip.extend_from_slice(&[0xFF, 0xFF, 127, 0, 0, last_octet]);
    NetAddress {
        services: 1,
        ip,
        port,
    }
}

fn test_version() -> HandshakeMessage {
    HandshakeMessage::Version {
        protocol_version: 70015,
        services: 0,
        timestamp: 1_700_000_000,
        receiver: test_address(1, 8333),
        sender: test_address(2, 0),
        nonce: 0xDEAD_BEEF,
        user_agent: b"/Satoshi:25.0.0/".to_vec(),
        start_height: -1,
        relay: false,
    }
}

fn decode_one(bytes: &[u8]) -> (HandshakeMessage, usize) {
    decode_next(bytes)
        .expect("decode failed")
        .expect("frame should be complete")
}

#[test]
fn round_trip_acknowledge() {
    let frame = encode(&HandshakeMessage::Acknowledge);
    assert_eq!(frame.len(), 24);
    let (message, consumed) = decode_one(&frame);
    assert_eq!(consumed, 24);
    assert!(matches!(message, HandshakeMessage::Acknowledge));
}

#[test]
fn round_trip_keep_alive_ping() {
    let frame = encode(&HandshakeMessage::KeepAlivePing { nonce: 7 });
    assert_eq!(frame.len(), 32);
    let (message, consumed) = decode_one(&frame);
    assert_eq!(consumed, 32);
    match message {
        HandshakeMessage::KeepAlivePing { nonce } => assert_eq!(nonce, 7),
        other => panic!("wrong variant: {:?}", variant_name(&other)),
    }
}

#[test]
fn round_trip_keep_alive_pong() {
    let frame = encode(&HandshakeMessage::KeepAlivePong {
        nonce: u64::MAX,
    });
    let (message, consumed) = decode_one(&frame);
    assert_eq!(consumed, frame.len());
    match message {
        HandshakeMessage::KeepAlivePong { nonce } => assert_eq!(nonce, u64::MAX),
        other => panic!("wrong variant: {:?}", variant_name(&other)),
    }
}

#[test]
fn round_trip_version() {
    let frame = encode(&test_version());
    let (message, consumed) = decode_one(&frame);
    assert_eq!(consumed, frame.len());
    match message {
        HandshakeMessage::Version {
            protocol_version,
            services,
            timestamp,
            receiver,
            sender,
            nonce,
            user_agent,
            start_height,
            relay,
        } => {
            assert_eq!(protocol_version, 70015);
            assert_eq!(services, 0);
            assert_eq!(timestamp, 1_700_000_000);
            assert_eq!(receiver.services, 1);
            assert_eq!(receiver.ip, test_address(1, 8333).ip);
            assert_eq!(receiver.port, 8333);
            assert_eq!(sender.ip, test_address(2, 0).ip);
            assert_eq!(sender.port, 0);
            assert_eq!(nonce, 0xDEAD_BEEF);
            assert_eq!(user_agent, b"/Satoshi:25.0.0/".to_vec());
            assert_eq!(start_height, -1);
            assert!(!relay);
        }
        other => panic!("wrong variant: {:?}", variant_name(&other)),
    }
}

#[test]
fn round_trip_other_is_byte_exact() {
    let command = b"inv\0\0\0\0\0\0\0\0\0".to_vec();
    let payload = vec![1u8, 2, 3, 4, 5];
    let frame = encode(&HandshakeMessage::Other {
        command: command.clone(),
        payload: payload.clone(),
    });
    let (message, consumed) = decode_one(&frame);
    assert_eq!(consumed, frame.len());
    match message {
        HandshakeMessage::Other {
            command: decoded_command,
            payload: decoded_payload,
        } => {
            assert_eq!(decoded_command, command);
            assert_eq!(decoded_payload, payload);
        }
        other => panic!("wrong variant: {:?}", variant_name(&other)),
    }
}

#[test]
fn every_strict_prefix_asks_for_more_bytes() {
    let frame = encode(&test_version());
    for cut in 0..frame.len() {
        match decode_next(&frame[..cut]) {
            Ok(None) => {}
            Ok(Some(_)) => panic!("prefix of {} bytes decoded a message", cut),
            Err(_) => panic!("prefix of {} bytes reported an error", cut),
        }
    }
}

#[test]
fn trailing_bytes_do_not_disturb_the_first_frame() {
    let mut bytes = encode(&HandshakeMessage::KeepAlivePing { nonce: 9 });
    let frame_len = bytes.len();
    bytes.extend_from_slice(&encode(&HandshakeMessage::Acknowledge));
    bytes.extend_from_slice(&[0xAA, 0xBB]);
    let (message, consumed) = decode_one(&bytes);
    assert_eq!(consumed, frame_len);
    assert!(matches!(message, HandshakeMessage::KeepAlivePing { nonce: 9 }));
}

#[test]
fn flipping_any_payload_byte_is_detected() {
    let frame = encode(&test_version());
    for i in 24..frame.len() {
        let mut corrupt = frame.clone();
        corrupt[i] ^= 0x01;
        match decode_next(&corrupt) {
            Err(DecodeFault::ChecksumMismatch) => {}
            other => panic!("byte {} flipped: expected checksum mismatch, got {:?}", i, kind_of(&other)),
        }
    }
}

#[test]
fn magic_mismatch_is_an_error_not_a_wait() {
    let mut frame = encode(&HandshakeMessage::Acknowledge);
    frame[0] = 0x00;
    assert!(matches!(decode_next(&frame), Err(DecodeFault::MagicMismatch)));
}

#[test]
fn short_buffer_with_bad_magic_still_waits() {
    // Truncation wins over magic: under 24 bytes nothing is decided yet.
    let bytes = [0u8; 10];
    assert!(matches!(decode_next(&bytes), Ok(None)));
}

#[test]
fn malformed_ping_payload_is_rejected() {
    // A hand-built frame: correct magic and checksum, command "ping", but a
    // 7-byte payload where the command demands exactly 8.
    let payload = [1u8, 2, 3, 4, 5, 6, 7];
    let frame = raw_frame(*b"ping\0\0\0\0\0\0\0\0", &payload);
    assert!(matches!(
        decode_next(&frame),
        Err(DecodeFault::MalformedPayload)
    ));
}

#[test]
fn nonempty_verack_payload_is_rejected() {
    let frame = raw_frame(*b"verack\0\0\0\0\0\0", &[0u8]);
    assert!(matches!(
        decode_next(&frame),
        Err(DecodeFault::MalformedPayload)
    ));
}

#[test]
fn oversized_declared_length_is_rejected() {
    let mut frame = Vec::new();
    frame.extend_from_slice(&[0xF9, 0xBE, 0xB4, 0xD9]);
    frame.extend_from_slice(b"ping\0\0\0\0\0\0\0\0");
    frame.extend_from_slice(&0x0300_0000u32.to_le_bytes());
    frame.extend_from_slice(&[0u8; 4]);
    assert!(matches!(
        decode_next(&frame),
        Err(DecodeFault::MalformedPayload)
    ));
}

#[test]
fn verack_frame_is_bit_exact() {
    // The canonical acknowledgement frame: magic, "verack", zero length, and
    // the first four bytes of the double-SHA256 digest of an empty payload.
    let frame = encode(&HandshakeMessage::Acknowledge);
    let expected = [
        0xF9, 0xBE, 0xB4, 0xD9, // network magic
        0x76, 0x65, 0x72, 0x61, 0x63, 0x6B, 0x00, 0x00, 0x00, 0x00, 0x00, 0x00, // "verack"
        0x00, 0x00, 0x00, 0x00, // payload length
        0x5D, 0xF6, 0xE0, 0xE2, // checksum of the empty payload
    ];
    assert_eq!(frame, expected.to_vec());
}

#[test]
fn ping_frame_layout_is_little_endian() {
    let frame = encode(&HandshakeMessage::KeepAlivePing {
        nonce: 0x0102_0304_0506_0708,
    });
    assert_eq!(&frame[0..4], &[0xF9, 0xBE, 0xB4, 0xD9]);
    assert_eq!(&frame[4..16], b"ping\0\0\0\0\0\0\0\0");
    assert_eq!(&frame[16..20], &[8, 0, 0, 0]);
    assert_eq!(
        &frame[24..32],
        &[0x08, 0x07, 0x06, 0x05, 0x04, 0x03, 0x02, 0x01]
    );
}

#[test]
fn round_trip_version_with_long_user_agent() {
    // 300 bytes forces the three-byte form of the length prefix.
    let long_agent = vec![b'a'; 300];
    let message = HandshakeMessage::Version {
        protocol_version: 70015,
        services: 5,
        timestamp: -1,
        receiver: test_address(1, 1),
        sender: test_address(2, 2),
        nonce: 0,
        user_agent: long_agent.clone(),
        start_height: 812_383,
        relay: true,
    };
    let frame = encode(&message);
    let (decoded, consumed) = decode_one(&frame);
    assert_eq!(consumed, frame.len());
    match decoded {
        HandshakeMessage::Version {
            timestamp,
            user_agent,
            start_height,
            relay,
            ..
        } => {
            assert_eq!(timestamp, -1);
            assert_eq!(user_agent, long_agent);
            assert_eq!(start_height, 812_383);
            assert!(relay);
        }
        other => panic!("wrong variant: {:?}", variant_name(&other)),
    }
}

#[test]
fn round_trip_version_with_empty_user_agent() {
    let message = HandshakeMessage::Version {
        protocol_version: 0,
        services: 0,
        timestamp: 0,
        receiver: test_address(9, 9),
        sender: test_address(8, 8),
        nonce: 1,
        user_agent: Vec::new(),
        start_height: 0,
        relay: false,
    };
    let frame = encode(&message);
    let (decoded, consumed) = decode_one(&frame);
    assert_eq!(consumed, frame.len());
    match decoded {
        HandshakeMessage::Version { user_agent, .. } => assert!(user_agent.is_empty()),
        other => panic!("wrong variant: {:?}", variant_name(&other)),
    }
}

#[test]
fn wf_rejects_oversized_user_agent() {
    let message = HandshakeMessage::Version {
        protocol_version: 70015,
        services: 0,
        timestamp: 0,
        receiver: test_address(1, 1),
        sender: test_address(2, 2),
        nonce: 0,
        user_agent: vec![b'x'; 0x1_0000],
        start_height: 0,
        relay: false,
    };
    assert!(!message_wf(&message));
}

#[test]
fn wf_rejects_known_command_carried_as_other() {
    let message = HandshakeMessage::Other {
        command: b"ping\0\0\0\0\0\0\0\0".to_vec(),
        payload: Vec::new(),
    };
    assert!(!message_wf(&message));
}

#[test]
fn wf_rejects_short_address() {
    let message = HandshakeMessage::Version {
        protocol_version: 70015,
        services: 0,
        timestamp: 0,
        receiver: NetAddress {
            services: 0,
            ip: vec![127, 0, 0, 1],
            port: 8333,
        },
        sender: test_address(2, 2),
        nonce: 0,
        user_agent: Vec::new(),
        start_height: 0,
        relay: false,
    };
    assert!(!message_wf(&message));
}

fn raw_frame(command: [u8; 12], payload: &[u8]) -> Vec<u8> {
    let digest = <bitcoin::hashes::sha256d::Hash as bitcoin::hashes::Hash>::to_byte_array(
        <bitcoin::hashes::sha256d::Hash as bitcoin::hashes::Hash>::hash(payload),
    );
    let mut frame = Vec::new();
    frame.extend_from_slice(&[0xF9, 0xBE, 0xB4, 0xD9]);
    frame.extend_from_slice(&command);
    frame.extend_from_slice(&(payload.len() as u32).to_le_bytes());
    frame.extend_from_slice(&digest[..4]);
    frame.extend_from_slice(payload);
    frame
}

fn variant_name(m: &HandshakeMessage) -> &'static str {
    match m {
        HandshakeMessage::Version { .. } => "Version",
        HandshakeMessage::Acknowledge => "Acknowledge",
        HandshakeMessage::KeepAlivePing { .. } => "KeepAlivePing",
        HandshakeMessage::KeepAlivePong { .. } => "KeepAlivePong",
        HandshakeMessage::Other { .. } => "Other",
    }
}

fn kind_of(r: &Result<Option<(HandshakeMessage, usize)>, DecodeFault>) -> String {
    match r {
        Ok(None) => "need more".to_string(),
        Ok(Some((m, n))) => format!("decoded {} ({} bytes)", variant_name(m), n),
        Err(f) => format!("{:?}", f),
    }
}
