//! Frame codec: the wire byte layout of a frame — 4 magic bytes, a 12-byte
//! null-padded command, a little-endian payload length, a payload checksum —
//! and the encoder that serializes a `HandshakeMessage` into it.
//!
//! The layout is stated once, as spec functions over byte sequences; the
//! executable encoder and decoder are proved against those functions.

use vstd::prelude::*;
use vstd::bytes::*;
use vstd::slice::{slice_subrange, slice_to_vec};
use crate::msg::{
    AddrV, HandshakeMessage, MsgV, NetAddress, MAX_PAYLOAD_LEN, MAX_USER_AGENT_LEN, cmd_ping,
    cmd_pong, cmd_verack, cmd_version,
};
use crate::DecodeFault;

verus! {

// ---------------------------------------------------------------------------
// Integer layouts

/// Big-endian image of a port number.
pub open spec fn spec_u16_to_be_bytes(x: u16) -> Seq<u8> {
    seq![(x / 256) as u8, (x % 256) as u8]
}

/// Port number read back from its big-endian image.
pub open spec fn spec_u16_from_be_bytes(s: Seq<u8>) -> u16
    recommends
        s.len() == 2,
{
    (s[0] * 256 + s[1]) as u16
}

/// Two's-complement image of a 32-bit signed value, stated arithmetically.
pub open spec fn u32_of_i32(x: i32) -> u32 {
    if x >= 0 {
        x as u32
    } else {
        (x + 0x1_0000_0000) as u32
    }
}

/// Inverse of `u32_of_i32`.
pub open spec fn i32_of_u32(x: u32) -> i32 {
    if x < 0x8000_0000 {
        x as i32
    } else {
        (x - 0x1_0000_0000) as i32
    }
}

/// Two's-complement image of a 64-bit signed value, stated arithmetically.
pub open spec fn u64_of_i64(x: i64) -> u64 {
    if x >= 0 {
        x as u64
    } else {
        (x + 0x1_0000_0000_0000_0000) as u64
    }
}

/// Inverse of `u64_of_i64`.
pub open spec fn i64_of_u64(x: u64) -> i64 {
    if x < 0x8000_0000_0000_0000 {
        x as i64
    } else {
        (x - 0x1_0000_0000_0000_0000) as i64
    }
}

// ---------------------------------------------------------------------------
// Variable-length integer (length prefix of the user-agent string)

/// The wire image of a variable-length integer: one byte below 0xFD, else a
/// marker byte followed by the value in 2, 4 or 8 little-endian bytes.
pub open spec fn varint_bytes(n: u64) -> Seq<u8> {
    if n < 0xFD {
        seq![n as u8]
    } else if n <= 0xFFFF {
        seq![0xFDu8] + spec_u16_to_le_bytes(n as u16)
    } else if n <= 0xFFFF_FFFF {
        seq![0xFEu8] + spec_u32_to_le_bytes(n as u32)
    } else {
        seq![0xFFu8] + spec_u64_to_le_bytes(n)
    }
}

/// Reads a variable-length integer at offset `off` of `s`; yields the value
/// and the number of bytes it occupies, or nothing when `s` ends too soon.
pub open spec fn parse_varint_at(s: Seq<u8>, off: int) -> Option<(u64, int)>
    recommends
        0 <= off <= s.len(),
{
    if off >= s.len() {
        None
    } else if s[off] < 0xFD {
        Some((s[off] as u64, 1))
    } else if s[off] == 0xFD {
        if s.len() < off + 3 {
            None
        } else {
            Some((spec_u16_from_le_bytes(s.subrange(off + 1, off + 3)) as u64, 3))
        }
    } else if s[off] == 0xFE {
        if s.len() < off + 5 {
            None
        } else {
            Some((spec_u32_from_le_bytes(s.subrange(off + 1, off + 5)) as u64, 5))
        }
    } else {
        if s.len() < off + 9 {
            None
        } else {
            Some((spec_u64_from_le_bytes(s.subrange(off + 1, off + 9)), 9))
        }
    }
}

// ---------------------------------------------------------------------------
// Payload layouts

/// The 26-byte image of one endpoint inside a version payload: service bits,
/// 16 IP bytes, big-endian port.
pub open spec fn addr_bytes(a: AddrV) -> Seq<u8> {
    spec_u64_to_le_bytes(a.services) + a.ip + spec_u16_to_be_bytes(a.port)
}

/// Endpoint read back from its 26-byte image.
pub open spec fn parse_addr(s: Seq<u8>) -> AddrV
    recommends
        s.len() == 26,
{
    AddrV {
        services: spec_u64_from_le_bytes(s.subrange(0, 8)),
        ip: s.subrange(8, 24),
        port: spec_u16_from_be_bytes(s.subrange(24, 26)),
    }
}

/// The payload a message carries on the wire, per variant.
pub open spec fn payload_of(m: MsgV) -> Seq<u8> {
    match m {
        MsgV::Version {
            protocol_version,
            services,
            timestamp,
            receiver,
            sender,
            nonce,
            user_agent,
            start_height,
            relay,
        } => spec_u32_to_le_bytes(u32_of_i32(protocol_version)) + spec_u64_to_le_bytes(services)
            + spec_u64_to_le_bytes(u64_of_i64(timestamp)) + addr_bytes(receiver) + addr_bytes(
            sender,
        ) + spec_u64_to_le_bytes(nonce) + varint_bytes(user_agent.len() as u64) + user_agent
            + spec_u32_to_le_bytes(u32_of_i32(start_height)) + seq![
            if relay {
                1u8
            } else {
                0u8
            },
        ],
        MsgV::Acknowledge => Seq::empty(),
        MsgV::KeepAlivePing { nonce } => spec_u64_to_le_bytes(nonce),
        MsgV::KeepAlivePong { nonce } => spec_u64_to_le_bytes(nonce),
        MsgV::Other { payload, .. } => payload,
    }
}

/// The 12-byte command name a message travels under.
pub open spec fn command_of(m: MsgV) -> Seq<u8> {
    match m {
        MsgV::Version { .. } => cmd_version(),
        MsgV::Acknowledge => cmd_verack(),
        MsgV::KeepAlivePing { .. } => cmd_ping(),
        MsgV::KeepAlivePong { .. } => cmd_pong(),
        MsgV::Other { command, .. } => command,
    }
}

/// The network magic constant, as it stands on the wire.
pub open spec fn magic_bytes() -> Seq<u8> {
    seq![0xF9u8, 0xBEu8, 0xB4u8, 0xD9u8]
}

/// The payload checksum the protocol prescribes: the first four bytes of a
/// double-SHA256 digest, read little-endian. The digest itself is an opaque
/// external primitive; only that it is a function of the payload is used.
pub uninterp spec fn checksum_of(payload: Seq<u8>) -> u32;

/// The complete wire image of a message: header then payload.
pub open spec fn frame_bytes(m: MsgV) -> Seq<u8> {
    magic_bytes() + command_of(m) + spec_u32_to_le_bytes(payload_of(m).len() as u32)
        + spec_u32_to_le_bytes(checksum_of(payload_of(m))) + payload_of(m)
}

// ---------------------------------------------------------------------------
// Decoding, as a function on byte sequences

/// Version payload read back: fixed fields, then the var-length user agent,
/// then start height and the relay flag; the length must come out exactly.
pub open spec fn parse_version(p: Seq<u8>) -> Option<MsgV> {
    if p.len() < 80 {
        None
    } else {
        match parse_varint_at(p, 80) {
            None => None,
            Some((ua_len, vn)) => {
                if ua_len > MAX_USER_AGENT_LEN {
                    None
                } else if p.len() != 85 + vn + ua_len {
                    None
                } else {
                    Some(
                        MsgV::Version {
                            protocol_version: i32_of_u32(spec_u32_from_le_bytes(p.subrange(0, 4))),
                            services: spec_u64_from_le_bytes(p.subrange(4, 12)),
                            timestamp: i64_of_u64(spec_u64_from_le_bytes(p.subrange(12, 20))),
                            receiver: parse_addr(p.subrange(20, 46)),
                            sender: parse_addr(p.subrange(46, 72)),
                            nonce: spec_u64_from_le_bytes(p.subrange(72, 80)),
                            user_agent: p.subrange(80 + vn, 80 + vn + ua_len),
                            start_height: i32_of_u32(
                                spec_u32_from_le_bytes(
                                    p.subrange(80 + vn + ua_len, 84 + vn + ua_len),
                                ),
                            ),
                            relay: p[p.len() - 1] != 0,
                        },
                    )
                }
            },
        }
    }
}

/// What a command and payload decode to: a message of the handshake subset
/// when the command names one and the payload has its shape, an opaque
/// `Other` for an unknown command, nothing when the payload is malformed.
pub open spec fn parse_payload(cmd: Seq<u8>, p: Seq<u8>) -> Option<MsgV> {
    if cmd == cmd_version() {
        parse_version(p)
    } else if cmd == cmd_verack() {
        if p.len() == 0 {
            Some(MsgV::Acknowledge)
        } else {
            None
        }
    } else if cmd == cmd_ping() {
        if p.len() == 8 {
            Some(MsgV::KeepAlivePing { nonce: spec_u64_from_le_bytes(p) })
        } else {
            None
        }
    } else if cmd == cmd_pong() {
        if p.len() == 8 {
            Some(MsgV::KeepAlivePong { nonce: spec_u64_from_le_bytes(p) })
        } else {
            None
        }
    } else {
        Some(MsgV::Other { command: cmd, payload: p })
    }
}

/// What inspecting a buffer for one frame at offset 0 yields.
pub enum DecodeV {
    /// Truncation only: more bytes may still complete the frame.
    NeedMore,
    /// The bytes present already rule the frame out.
    Fail(DecodeFault),
    /// One complete frame: the message and the bytes it occupied.
    Got(MsgV, int),
}

/// The payload length the header declares.
pub open spec fn declared_len(s: Seq<u8>) -> int
    recommends
        s.len() >= 24,
{
    spec_u32_from_le_bytes(s.subrange(16, 20)) as int
}

/// The decode relation: what `decode_next` must yield on any buffer. Fewer
/// than 24 bytes, or fewer payload bytes than the header declares, is
/// truncation, never an error; bad magic, an oversized declared length, a
/// checksum mismatch or an ill-shaped payload is a failure.
pub open spec fn decode_spec(s: Seq<u8>) -> DecodeV {
    if s.len() < 24 {
        DecodeV::NeedMore
    } else if s.subrange(0, 4) != magic_bytes() {
        DecodeV::Fail(DecodeFault::MagicMismatch)
    } else if declared_len(s) > MAX_PAYLOAD_LEN {
        DecodeV::Fail(DecodeFault::MalformedPayload)
    } else if s.len() < 24 + declared_len(s) {
        DecodeV::NeedMore
    } else {
        let p = s.subrange(24, 24 + declared_len(s));
        if spec_u32_from_le_bytes(s.subrange(20, 24)) != checksum_of(p) {
            DecodeV::Fail(DecodeFault::ChecksumMismatch)
        } else {
            match parse_payload(s.subrange(4, 16), p) {
                Some(m) => DecodeV::Got(m, 24 + declared_len(s)),
                None => DecodeV::Fail(DecodeFault::MalformedPayload),
            }
        }
    }
}

/// A decoded frame occupies at least its header and at most the buffer.
pub proof fn lemma_decode_consumed(s: Seq<u8>, m: MsgV, n: int)
    requires
        decode_spec(s) == DecodeV::Got(m, n),
    ensures
        24 <= n <= s.len(),
{
}

// ---------------------------------------------------------------------------
// Trusted checksum primitive

/// Relies on `bitcoin::hashes::sha256d::Hash::hash`: the digest depends on
/// the input bytes alone, and the wire checksum is its first four bytes read
/// little-endian.
#[verifier::external_body]
pub(crate) fn compute_checksum(payload: &[u8]) -> (r: u32)
    ensures
        r == checksum_of(payload@),
{
    let digest = <bitcoin::hashes::sha256d::Hash as bitcoin::hashes::Hash>::to_byte_array(
        <bitcoin::hashes::sha256d::Hash as bitcoin::hashes::Hash>::hash(payload),
    );
    u32::from_le_bytes([digest[0], digest[1], digest[2], digest[3]])
}

// ---------------------------------------------------------------------------
// Executable integer conversions

/// Two's-complement reinterpretation of an `i32`, by arithmetic.
pub fn i32_to_u32(x: i32) -> (r: u32)
    ensures
        r == u32_of_i32(x),
{
    if x >= 0 {
        x as u32
    } else {
        let wide: i64 = x as i64 + 0x1_0000_0000i64;
        wide as u32
    }
}

/// Inverse of `i32_to_u32`.
pub fn u32_to_i32(x: u32) -> (r: i32)
    ensures
        r == i32_of_u32(x),
{
    if x < 0x8000_0000 {
        x as i32
    } else {
        let wide: i64 = x as i64 - 0x1_0000_0000i64;
        wide as i32
    }
}

/// Two's-complement reinterpretation of an `i64`, by arithmetic.
pub fn i64_to_u64(x: i64) -> (r: u64)
    ensures
        r == u64_of_i64(x),
{
    if x >= 0 {
        x as u64
    } else {
        let positive: i64 = -(x + 1);
        u64::MAX - (positive as u64)
    }
}

/// Inverse of `i64_to_u64`.
pub fn u64_to_i64(x: u64) -> (r: i64)
    ensures
        r == i64_of_u64(x),
{
    if x < 0x8000_0000_0000_0000 {
        x as i64
    } else {
        let positive: u64 = u64::MAX - x;
        -(positive as i64) - 1
    }
}

// ---------------------------------------------------------------------------
// Executable encoding helpers

/// Big-endian bytes of a port number.
fn u16_be_vec(x: u16) -> (r: Vec<u8>)
    ensures
        r@ == spec_u16_to_be_bytes(x),
{
    let mut out: Vec<u8> = Vec::new();
    out.push((x / 256) as u8);
    out.push((x % 256) as u8);
    proof {
        assert(out@ =~= spec_u16_to_be_bytes(x));
    }
    out
}

/// Wire bytes of a variable-length integer.
fn varint_vec(n: u64) -> (r: Vec<u8>)
    ensures
        r@ == varint_bytes(n),
{
    let mut out: Vec<u8> = Vec::new();
    if n < 0xFD {
        out.push(n as u8);
        proof {
            assert(out@ =~= varint_bytes(n));
        }
    } else if n <= 0xFFFF {
        out.push(0xFD);
        let mut tail = u16_to_le_bytes(n as u16);
        out.append(&mut tail);
        proof {
            assert(out@ =~= varint_bytes(n));
        }
    } else if n <= 0xFFFF_FFFF {
        out.push(0xFE);
        let mut tail = u32_to_le_bytes(n as u32);
        out.append(&mut tail);
        proof {
            assert(out@ =~= varint_bytes(n));
        }
    } else {
        out.push(0xFF);
        let mut tail = u64_to_le_bytes(n);
        out.append(&mut tail);
        proof {
            assert(out@ =~= varint_bytes(n));
        }
    }
    out
}

/// Wire bytes of one endpoint.
fn addr_vec(a: &NetAddress) -> (r: Vec<u8>)
    requires
        a@.wf(),
    ensures
        r@ == addr_bytes(a@),
{
    let mut out = u64_to_le_bytes(a.services);
    let mut ip = slice_to_vec(a.ip.as_slice());
    out.append(&mut ip);
    let mut port = u16_be_vec(a.port);
    out.append(&mut port);
    out
}

/// The command name of a message, as 12 wire bytes.
fn command_vec(msg: &HandshakeMessage) -> (r: Vec<u8>)
    requires
        msg@.wf(),
    ensures
        r@ == command_of(msg@),
        r@.len() == 12,
{
    match msg {
        HandshakeMessage::Version { .. } => {
            let out: Vec<u8> = vec![118u8, 101, 114, 115, 105, 111, 110, 0, 0, 0, 0, 0];
            proof {
                assert(out@ =~= cmd_version());
            }
            out
        },
        HandshakeMessage::Acknowledge => {
            let out: Vec<u8> = vec![118u8, 101, 114, 97, 99, 107, 0, 0, 0, 0, 0, 0];
            proof {
                assert(out@ =~= cmd_verack());
            }
            out
        },
        HandshakeMessage::KeepAlivePing { .. } => {
            let out: Vec<u8> = vec![112u8, 105, 110, 103, 0, 0, 0, 0, 0, 0, 0, 0];
            proof {
                assert(out@ =~= cmd_ping());
            }
            out
        },
        HandshakeMessage::KeepAlivePong { .. } => {
            let out: Vec<u8> = vec![112u8, 111, 110, 103, 0, 0, 0, 0, 0, 0, 0, 0];
            proof {
                assert(out@ =~= cmd_pong());
            }
            out
        },
        HandshakeMessage::Other { command, .. } => slice_to_vec(command.as_slice()),
    }
}

/// The payload bytes of a message.
fn payload_vec(msg: &HandshakeMessage) -> (r: Vec<u8>)
    requires
        msg@.wf(),
    ensures
        r@ == payload_of(msg@),
{
    match msg {
        HandshakeMessage::Version {
            protocol_version,
            services,
            timestamp,
            receiver,
            sender,
            nonce,
            user_agent,
            start_height,
            relay,
        } => {
            let mut out = u32_to_le_bytes(i32_to_u32(*protocol_version));
            let mut part = u64_to_le_bytes(*services);
            out.append(&mut part);
            let mut part = u64_to_le_bytes(i64_to_u64(*timestamp));
            out.append(&mut part);
            let mut part = addr_vec(receiver);
            out.append(&mut part);
            let mut part = addr_vec(sender);
            out.append(&mut part);
            let mut part = u64_to_le_bytes(*nonce);
            out.append(&mut part);
            let mut part = varint_vec(user_agent.len() as u64);
            out.append(&mut part);
            let mut part = slice_to_vec(user_agent.as_slice());
            out.append(&mut part);
            let mut part = u32_to_le_bytes(i32_to_u32(*start_height));
            out.append(&mut part);
            if *relay {
                out.push(1);
            } else {
                out.push(0);
            }
            proof {
                assert(out@ =~= payload_of(msg@));
            }
            out
        },
        HandshakeMessage::Acknowledge => {
            let out: Vec<u8> = Vec::new();
            proof {
                assert(out@ =~= Seq::<u8>::empty());
            }
            out
        },
        HandshakeMessage::KeepAlivePing { nonce } => u64_to_le_bytes(*nonce),
        HandshakeMessage::KeepAlivePong { nonce } => u64_to_le_bytes(*nonce),
        HandshakeMessage::Other { payload, .. } => slice_to_vec(payload.as_slice()),
    }
}

// ---------------------------------------------------------------------------
// Executable decoding helpers

/// Byte-sequence equality, element by element.
fn bytes_eq(a: &[u8], b: &[u8]) -> (r: bool)
    ensures
        r == (a@ == b@),
{
    if a.len() != b.len() {
        return false;
    }
    let mut k: usize = 0;
    while k < a.len()
        invariant
            k <= a@.len(),
            a@.len() == b@.len(),
            forall|i: int| 0 <= i < k ==> a@[i] == b@[i],
        decreases a@.len() - k,
    {
        if a[k] != b[k] {
            return false;
        }
        k = k + 1;
    }
    proof {
        assert(a@ =~= b@);
    }
    true
}

/// Port number read back from two big-endian bytes.
fn u16_from_be(s: &[u8]) -> (r: u16)
    requires
        s@.len() == 2,
    ensures
        r == spec_u16_from_be_bytes(s@),
{
    (s[0] as u16) * 256 + (s[1] as u16)
}

/// Reads a variable-length integer at offset `off`.
fn parse_varint_exec(p: &[u8], off: usize) -> (r: Option<(u64, usize)>)
    requires
        off <= p@.len(),
    ensures
        match r {
            Some((v, n)) => parse_varint_at(p@, off as int) == Some((v, n as int)),
            None => parse_varint_at(p@, off as int) is None,
        },
{
    if off >= p.len() {
        return None;
    }
    let tag = p[off];
    if tag < 0xFD {
        Some((tag as u64, 1))
    } else if tag == 0xFD {
        if p.len() - off < 3 {
            None
        } else {
            let v = u16_from_le_bytes(slice_subrange(p, off + 1, off + 3));
            Some((v as u64, 3))
        }
    } else if tag == 0xFE {
        if p.len() - off < 5 {
            None
        } else {
            let v = u32_from_le_bytes(slice_subrange(p, off + 1, off + 5));
            Some((v as u64, 5))
        }
    } else {
        if p.len() - off < 9 {
            None
        } else {
            let v = u64_from_le_bytes(slice_subrange(p, off + 1, off + 9));
            Some((v, 9))
        }
    }
}

/// Reads one endpoint from its 26-byte image.
fn parse_addr_exec(s: &[u8]) -> (r: NetAddress)
    requires
        s@.len() == 26,
    ensures
        r@ == parse_addr(s@),
        r@.wf(),
{
    let services = u64_from_le_bytes(slice_subrange(s, 0, 8));
    let ip = slice_to_vec(slice_subrange(s, 8, 24));
    let port = u16_from_be(slice_subrange(s, 24, 26));
    NetAddress { services, ip, port }
}

/// Reads a version payload.
fn parse_version_exec(p: &[u8]) -> (r: Option<HandshakeMessage>)
    requires
        p@.len() <= MAX_PAYLOAD_LEN,
    ensures
        match r {
            Some(m) => parse_version(p@) == Some(m@) && m@.wf(),
            None => parse_version(p@) is None,
        },
{
    if p.len() < 80 {
        return None;
    }
    match parse_varint_exec(p, 80) {
        None => None,
        Some((ua_len, vn)) => {
            if ua_len > MAX_USER_AGENT_LEN as u64 {
                return None;
            }
            let ua_len_us = ua_len as usize;
            if p.len() != 85 + vn + ua_len_us {
                return None;
            }
            let protocol_version = u32_to_i32(u32_from_le_bytes(slice_subrange(p, 0, 4)));
            let services = u64_from_le_bytes(slice_subrange(p, 4, 12));
            let timestamp = u64_to_i64(u64_from_le_bytes(slice_subrange(p, 12, 20)));
            let receiver = parse_addr_exec(slice_subrange(p, 20, 46));
            let sender = parse_addr_exec(slice_subrange(p, 46, 72));
            let nonce = u64_from_le_bytes(slice_subrange(p, 72, 80));
            let ua_start = 80 + vn;
            let user_agent = slice_to_vec(slice_subrange(p, ua_start, ua_start + ua_len_us));
            let start_height = u32_to_i32(
                u32_from_le_bytes(
                    slice_subrange(p, ua_start + ua_len_us, ua_start + ua_len_us + 4),
                ),
            );
            let relay = p[p.len() - 1] != 0;
            Some(
                HandshakeMessage::Version {
                    protocol_version,
                    services,
                    timestamp,
                    receiver,
                    sender,
                    nonce,
                    user_agent,
                    start_height,
                    relay,
                },
            )
        },
    }
}

/// Dispatches a complete frame's command and payload to a typed message.
fn parse_payload_exec(command: &[u8], payload: &[u8]) -> (r: Option<HandshakeMessage>)
    requires
        command@.len() == 12,
        payload@.len() <= MAX_PAYLOAD_LEN,
    ensures
        match r {
            Some(m) => parse_payload(command@, payload@) == Some(m@) && m@.wf(),
            None => parse_payload(command@, payload@) is None,
        },
{
    let version_cmd: Vec<u8> = vec![118u8, 101, 114, 115, 105, 111, 110, 0, 0, 0, 0, 0];
    let verack_cmd: Vec<u8> = vec![118u8, 101, 114, 97, 99, 107, 0, 0, 0, 0, 0, 0];
    let ping_cmd: Vec<u8> = vec![112u8, 105, 110, 103, 0, 0, 0, 0, 0, 0, 0, 0];
    let pong_cmd: Vec<u8> = vec![112u8, 111, 110, 103, 0, 0, 0, 0, 0, 0, 0, 0];
    proof {
        assert(version_cmd@ =~= cmd_version());
        assert(verack_cmd@ =~= cmd_verack());
        assert(ping_cmd@ =~= cmd_ping());
        assert(pong_cmd@ =~= cmd_pong());
    }
    if bytes_eq(command, version_cmd.as_slice()) {
        parse_version_exec(payload)
    } else if bytes_eq(command, verack_cmd.as_slice()) {
        if payload.len() == 0 {
            Some(HandshakeMessage::Acknowledge)
        } else {
            None
        }
    } else if bytes_eq(command, ping_cmd.as_slice()) {
        if payload.len() == 8 {
            Some(HandshakeMessage::KeepAlivePing { nonce: u64_from_le_bytes(payload) })
        } else {
            None
        }
    } else if bytes_eq(command, pong_cmd.as_slice()) {
        if payload.len() == 8 {
            Some(HandshakeMessage::KeepAlivePong { nonce: u64_from_le_bytes(payload) })
        } else {
            None
        }
    } else {
        Some(
            HandshakeMessage::Other {
                command: slice_to_vec(command),
                payload: slice_to_vec(payload),
            },
        )
    }
}

/// Decides well-formedness of a message at run time, so unverified callers
/// can test it before handing the message to `encode`.
pub fn message_wf(msg: &HandshakeMessage) -> (b: bool)
    ensures
        b == msg@.wf(),
{
    match msg {
        HandshakeMessage::Version { receiver, sender, user_agent, .. } => {
            receiver.ip.len() == 16 && sender.ip.len() == 16 && user_agent.len()
                <= MAX_USER_AGENT_LEN
        },
        HandshakeMessage::Acknowledge => true,
        HandshakeMessage::KeepAlivePing { .. } => true,
        HandshakeMessage::KeepAlivePong { .. } => true,
        HandshakeMessage::Other { command, payload } => {
            let version_cmd: Vec<u8> = vec![118u8, 101, 114, 115, 105, 111, 110, 0, 0, 0, 0, 0];
            let verack_cmd: Vec<u8> = vec![118u8, 101, 114, 97, 99, 107, 0, 0, 0, 0, 0, 0];
            let ping_cmd: Vec<u8> = vec![112u8, 105, 110, 103, 0, 0, 0, 0, 0, 0, 0, 0];
            let pong_cmd: Vec<u8> = vec![112u8, 111, 110, 103, 0, 0, 0, 0, 0, 0, 0, 0];
            proof {
                assert(version_cmd@ =~= cmd_version());
                assert(verack_cmd@ =~= cmd_verack());
                assert(ping_cmd@ =~= cmd_ping());
                assert(pong_cmd@ =~= cmd_pong());
            }
            command.len() == 12 && !bytes_eq(command.as_slice(), version_cmd.as_slice())
                && !bytes_eq(command.as_slice(), verack_cmd.as_slice()) && !bytes_eq(
                command.as_slice(),
                ping_cmd.as_slice(),
            ) && !bytes_eq(command.as_slice(), pong_cmd.as_slice()) && payload.len()
                <= MAX_PAYLOAD_LEN
        },
    }
}

/// Inspects `buf` for one complete frame starting at offset 0.
///
/// `Ok(None)` signals truncation only — more bytes may complete the frame;
/// an `Err` is definitive. On success the caller learns the message and how
/// many bytes it consumed, and must retain the rest of the buffer.
pub fn decode_next(buf: &[u8]) -> (r: Result<Option<(HandshakeMessage, usize)>, DecodeFault>)
    ensures
        match r {
            Ok(None) => decode_spec(buf@) is NeedMore,
            Ok(Some((m, n))) => decode_spec(buf@) == DecodeV::Got(m@, n as int) && m@.wf(),
            Err(f) => decode_spec(buf@) == DecodeV::Fail(f),
        },
{
    if buf.len() < 24 {
        return Ok(None);
    }
    let magic_ok = buf[0] == 0xF9 && buf[1] == 0xBE && buf[2] == 0xB4 && buf[3] == 0xD9;
    proof {
        if magic_ok {
            assert(buf@.subrange(0, 4) =~= magic_bytes());
        } else {
            assert(buf@.subrange(0, 4) != magic_bytes()) by {
                if buf@.subrange(0, 4) == magic_bytes() {
                    assert(buf@[0] == buf@.subrange(0, 4)[0]);
                    assert(buf@[1] == buf@.subrange(0, 4)[1]);
                    assert(buf@[2] == buf@.subrange(0, 4)[2]);
                    assert(buf@[3] == buf@.subrange(0, 4)[3]);
                }
            }
        }
    }
    if !magic_ok {
        return Err(DecodeFault::MagicMismatch);
    }
    let len32 = u32_from_le_bytes(slice_subrange(buf, 16, 20));
    if len32 as usize > MAX_PAYLOAD_LEN {
        return Err(DecodeFault::MalformedPayload);
    }
    let total = 24 + len32 as usize;
    if buf.len() < total {
        return Ok(None);
    }
    let payload = slice_subrange(buf, 24, total);
    let stored = u32_from_le_bytes(slice_subrange(buf, 20, 24));
    if stored != compute_checksum(payload) {
        return Err(DecodeFault::ChecksumMismatch);
    }
    let command = slice_subrange(buf, 4, 16);
    match parse_payload_exec(command, payload) {
        Some(m) => Ok(Some((m, total))),
        None => Err(DecodeFault::MalformedPayload),
    }
}

/// Every well-formed message's payload stays under the protocol cap, so its
/// length always fits the header's 4-byte length field.
pub proof fn lemma_payload_len(m: MsgV)
    requires
        m.wf(),
    ensures
        payload_of(m).len() <= MAX_PAYLOAD_LEN,
{
    lemma_auto_spec_u16_to_from_le_bytes();
    lemma_auto_spec_u32_to_from_le_bytes();
    lemma_auto_spec_u64_to_from_le_bytes();
    match m {
        MsgV::Version { receiver, sender, user_agent, .. } => {
            assert(addr_bytes(receiver).len() == 26);
            assert(addr_bytes(sender).len() == 26);
            assert(varint_bytes(user_agent.len() as u64).len() <= 9);
            assert(payload_of(m).len() <= 89 + varint_bytes(user_agent.len() as u64).len()
                + user_agent.len());
        },
        _ => {},
    }
}

/// Serializes a message into one complete frame: header (magic, command,
/// payload length, payload checksum) followed by the payload.
pub fn encode(msg: &HandshakeMessage) -> (r: Vec<u8>)
    requires
        msg@.wf(),
    ensures
        r@ == frame_bytes(msg@),
{
    proof {
        lemma_payload_len(msg@);
    }
    let mut payload = payload_vec(msg);
    let checksum = compute_checksum(payload.as_slice());
    let mut out: Vec<u8> = Vec::new();
    out.push(0xF9);
    out.push(0xBE);
    out.push(0xB4);
    out.push(0xD9);
    proof {
        assert(out@ =~= magic_bytes());
    }
    let mut command = command_vec(msg);
    out.append(&mut command);
    let mut length = u32_to_le_bytes(payload.len() as u32);
    out.append(&mut length);
    let mut check = u32_to_le_bytes(checksum);
    out.append(&mut check);
    out.append(&mut payload);
    proof {
        assert(out@ =~= frame_bytes(msg@));
    }
    out
}

// ---------------------------------------------------------------------------
// Round-trip laws

/// Reading back a two's-complement 32-bit image recovers the value.
pub proof fn lemma_i32_roundtrip(x: i32)
    ensures
        i32_of_u32(u32_of_i32(x)) == x,
{
}

/// Reading back a two's-complement 64-bit image recovers the value.
pub proof fn lemma_i64_roundtrip(x: i64)
    ensures
        i64_of_u64(u64_of_i64(x)) == x,
{
}

/// Reading back a big-endian port image recovers the value.
pub proof fn lemma_u16_be_roundtrip(x: u16)
    ensures
        spec_u16_to_be_bytes(x).len() == 2,
        spec_u16_from_be_bytes(spec_u16_to_be_bytes(x)) == x,
{
    vstd::arithmetic::div_mod::lemma_fundamental_div_mod(x as int, 256);
    assert((x as int) / 256 <= 255) by (nonlinear_arith)
        requires
            x <= 0xFFFF,
    ;
}

/// A variable-length integer is read back from anywhere inside a longer
/// sequence: value and width both recover.
pub proof fn lemma_varint_roundtrip(pre: Seq<u8>, n: u64, post: Seq<u8>)
    ensures
        parse_varint_at(pre + varint_bytes(n) + post, pre.len() as int) == Some(
            (n, varint_bytes(n).len() as int),
        ),
{
    lemma_auto_spec_u16_to_from_le_bytes();
    lemma_auto_spec_u32_to_from_le_bytes();
    lemma_auto_spec_u64_to_from_le_bytes();
    let s = pre + varint_bytes(n) + post;
    let off = pre.len() as int;
    let vb = varint_bytes(n);
    assert(forall|i: int| 0 <= i < vb.len() ==> s[off + i] == vb[i]);
    if n < 0xFD {
        assert(s[off] == n as u8);
    } else if n <= 0xFFFF {
        assert(s[off] == 0xFDu8);
        assert(s.subrange(off + 1, off + 3) =~= spec_u16_to_le_bytes(n as u16));
    } else if n <= 0xFFFF_FFFF {
        assert(s[off] == 0xFEu8);
        assert(s.subrange(off + 1, off + 5) =~= spec_u32_to_le_bytes(n as u32));
    } else {
        assert(s[off] == 0xFFu8);
        assert(s.subrange(off + 1, off + 9) =~= spec_u64_to_le_bytes(n));
    }
}

/// Reading back an endpoint's 26-byte image recovers the endpoint.
pub proof fn lemma_addr_roundtrip(a: AddrV)
    requires
        a.wf(),
    ensures
        addr_bytes(a).len() == 26,
        parse_addr(addr_bytes(a)) == a,
{
    lemma_auto_spec_u64_to_from_le_bytes();
    lemma_u16_be_roundtrip(a.port);
    let s = addr_bytes(a);
    assert(s.subrange(0, 8) =~= spec_u64_to_le_bytes(a.services));
    assert(s.subrange(8, 24) =~= a.ip);
    assert(s.subrange(24, 26) =~= spec_u16_to_be_bytes(a.port));
}

/// Reading back a version payload recovers every field.
pub proof fn lemma_version_roundtrip(m: MsgV)
    requires
        m.wf(),
        m is Version,
    ensures
        parse_version(payload_of(m)) == Some(m),
{
    lemma_auto_spec_u16_to_from_le_bytes();
    lemma_auto_spec_u32_to_from_le_bytes();
    lemma_auto_spec_u64_to_from_le_bytes();
    match m {
        MsgV::Version {
            protocol_version,
            services,
            timestamp,
            receiver,
            sender,
            nonce,
            user_agent,
            start_height,
            relay,
        } => {
            let p = payload_of(m);
            let ua_len = user_agent.len() as u64;
            let vb = varint_bytes(ua_len);
            let vn = vb.len() as int;
            let last: Seq<u8> = seq![
                if relay {
                    1u8
                } else {
                    0u8
                },
            ];
            assert(addr_bytes(receiver).len() == 26);
            assert(addr_bytes(sender).len() == 26);
            assert(1 <= vn <= 9);
            assert(p.len() == 85 + vn + ua_len);
            let pre = spec_u32_to_le_bytes(u32_of_i32(protocol_version)) + spec_u64_to_le_bytes(
                services,
            ) + spec_u64_to_le_bytes(u64_of_i64(timestamp)) + addr_bytes(receiver) + addr_bytes(
                sender,
            ) + spec_u64_to_le_bytes(nonce);
            let post = user_agent + spec_u32_to_le_bytes(u32_of_i32(start_height)) + last;
            assert(pre.len() == 80);
            assert(p =~= pre + vb + post);
            lemma_varint_roundtrip(pre, ua_len, post);
            assert(parse_varint_at(p, 80) == Some((ua_len, vn)));
            assert(p.subrange(0, 4) =~= spec_u32_to_le_bytes(u32_of_i32(protocol_version)));
            lemma_i32_roundtrip(protocol_version);
            assert(p.subrange(4, 12) =~= spec_u64_to_le_bytes(services));
            assert(p.subrange(12, 20) =~= spec_u64_to_le_bytes(u64_of_i64(timestamp)));
            lemma_i64_roundtrip(timestamp);
            assert(p.subrange(20, 46) =~= addr_bytes(receiver));
            lemma_addr_roundtrip(receiver);
            assert(p.subrange(46, 72) =~= addr_bytes(sender));
            lemma_addr_roundtrip(sender);
            assert(p.subrange(72, 80) =~= spec_u64_to_le_bytes(nonce));
            assert(p.subrange(80 + vn, 80 + vn + ua_len) =~= user_agent);
            assert(p.subrange(80 + vn + ua_len, 84 + vn + ua_len) =~= spec_u32_to_le_bytes(
                u32_of_i32(start_height),
            ));
            lemma_i32_roundtrip(start_height);
            assert(p[p.len() - 1] == last[0]);
            assert((p[p.len() - 1] != 0) == relay);
        },
        _ => {
            assert(false);
        },
    }
}

/// The four command names of the handshake subset are pairwise distinct.
pub proof fn lemma_commands_distinct()
    ensures
        cmd_version() != cmd_verack(),
        cmd_version() != cmd_ping(),
        cmd_version() != cmd_pong(),
        cmd_verack() != cmd_ping(),
        cmd_verack() != cmd_pong(),
        cmd_ping() != cmd_pong(),
{
    assert(cmd_version()[3] == 115u8 && cmd_verack()[3] == 97u8);
    assert(cmd_version()[0] == 118u8 && cmd_ping()[0] == 112u8 && cmd_pong()[0] == 112u8);
    assert(cmd_verack()[0] == 118u8);
    assert(cmd_ping()[1] == 105u8 && cmd_pong()[1] == 111u8);
}

/// A complete frame's command and payload decode back to the message that
/// produced them.
pub proof fn lemma_payload_roundtrip(m: MsgV)
    requires
        m.wf(),
    ensures
        parse_payload(command_of(m), payload_of(m)) == Some(m),
{
    lemma_auto_spec_u64_to_from_le_bytes();
    lemma_commands_distinct();
    match m {
        MsgV::Version { .. } => {
            lemma_version_roundtrip(m);
        },
        _ => {},
    }
}

/// Decoding a buffer that starts with the full frame of a constructible
/// message yields that message and consumes exactly the frame, whatever
/// follows it.
pub proof fn lemma_frame_decode(m: MsgV, rest: Seq<u8>)
    requires
        m.wf(),
    ensures
        frame_bytes(m).len() == 24 + payload_of(m).len(),
        decode_spec(frame_bytes(m) + rest) == DecodeV::Got(m, frame_bytes(m).len() as int),
{
    lemma_auto_spec_u32_to_from_le_bytes();
    lemma_payload_len(m);
    let pl = payload_of(m);
    let len = pl.len() as int;
    let s = frame_bytes(m) + rest;
    assert(command_of(m).len() == 12);
    assert(frame_bytes(m).len() == 24 + len);
    assert(s.subrange(0, 4) =~= magic_bytes());
    assert(s.subrange(16, 20) =~= spec_u32_to_le_bytes(pl.len() as u32));
    assert(declared_len(s) == len);
    assert(s.subrange(24, 24 + len) =~= pl);
    assert(s.subrange(20, 24) =~= spec_u32_to_le_bytes(checksum_of(pl)));
    assert(s.subrange(4, 16) =~= command_of(m));
    lemma_payload_roundtrip(m);
}

/// Round-trip: decoding the encoding of any constructible message yields
/// that message, consuming exactly its frame.
pub proof fn lemma_round_trip(m: MsgV)
    requires
        m.wf(),
    ensures
        decode_spec(frame_bytes(m)) == DecodeV::Got(m, frame_bytes(m).len() as int),
{
    lemma_frame_decode(m, Seq::empty());
    assert(frame_bytes(m) + Seq::<u8>::empty() =~= frame_bytes(m));
}

/// Fragmentation tolerance: any strict prefix of a frame decodes to "need
/// more bytes" — never an error, never a message. Together with
/// `lemma_frame_decode` this says a frame fed in arbitrary fragments decodes
/// once, exactly when its last byte arrives.
pub proof fn lemma_fragmentation(m: MsgV, cut: int)
    requires
        m.wf(),
        0 <= cut < frame_bytes(m).len(),
    ensures
        decode_spec(frame_bytes(m).take(cut)) is NeedMore,
{
    lemma_auto_spec_u32_to_from_le_bytes();
    lemma_payload_len(m);
    let s = frame_bytes(m);
    let t = s.take(cut);
    let len = payload_of(m).len() as int;
    assert(command_of(m).len() == 12);
    assert(s.len() == 24 + len);
    if cut >= 24 {
        assert(t.subrange(0, 4) =~= magic_bytes());
        assert(t.subrange(16, 20) =~= spec_u32_to_le_bytes(payload_of(m).len() as u32));
        assert(declared_len(t) == len);
        assert(t.len() < 24 + declared_len(t));
    }
}

/// A decided buffer stays decided: once a buffer yields a message or a
/// failure, appending bytes changes nothing — the decoder reads only the
/// frame at the front.
pub proof fn lemma_decode_stable(s: Seq<u8>, b: Seq<u8>)
    requires
        !(decode_spec(s) is NeedMore),
    ensures
        decode_spec(s + b) == decode_spec(s),
{
    let t = s + b;
    assert(s.len() >= 24);
    assert(t.subrange(0, 4) =~= s.subrange(0, 4));
    assert(t.subrange(16, 20) =~= s.subrange(16, 20));
    if s.subrange(0, 4) == magic_bytes() && declared_len(s) <= MAX_PAYLOAD_LEN {
        assert(s.len() >= 24 + declared_len(s));
        assert(t.subrange(20, 24) =~= s.subrange(20, 24));
        assert(t.subrange(4, 16) =~= s.subrange(4, 16));
        assert(t.subrange(24, 24 + declared_len(t)) =~= s.subrange(24, 24 + declared_len(s)));
    }
}

/// Checksum integrity, as far as an opaque checksum allows it to be stated:
/// altering one payload byte of a frame makes decoding fail — unless the
/// altered payload collides with the original under the checksum function.
pub proof fn lemma_corrupt_payload(m: MsgV, i: int, b: u8)
    requires
        m.wf(),
        24 <= i < frame_bytes(m).len(),
        b != frame_bytes(m)[i],
    ensures
        decode_spec(frame_bytes(m).update(i, b)) is Fail || checksum_of(
            frame_bytes(m).update(i, b).subrange(24, 24 + payload_of(m).len() as int),
        ) == checksum_of(payload_of(m)),
{
    lemma_auto_spec_u32_to_from_le_bytes();
    lemma_payload_len(m);
    let pl = payload_of(m);
    let len = pl.len() as int;
    let s0 = frame_bytes(m);
    let s = s0.update(i, b);
    assert(command_of(m).len() == 12);
    assert(s0.len() == 24 + len);
    assert(s.subrange(0, 4) =~= magic_bytes());
    assert(s.subrange(16, 20) =~= spec_u32_to_le_bytes(pl.len() as u32));
    assert(declared_len(s) == len);
    assert(s.subrange(20, 24) =~= spec_u32_to_le_bytes(checksum_of(pl)));
    let p2 = s.subrange(24, 24 + len);
    if checksum_of(p2) != checksum_of(pl) {
        assert(decode_spec(s) == DecodeV::Fail(DecodeFault::ChecksumMismatch));
    }
}

} // verus!
