//! The handshake subset of the wire protocol's messages, modelled as plain
//! data: a closed set of typed variants plus an opaque carrier for every
//! command outside the subset.

use vstd::prelude::*;

verus! {

/// Payloads are capped at 32 MiB, the protocol's maximum message size; a
/// frame declaring more is rejected rather than buffered without bound.
pub const MAX_PAYLOAD_LEN: usize = 0x0200_0000;

/// Longest user-agent string the codec accepts; generous against the
/// protocol's practical limits while keeping every frame well under the
/// payload cap.
pub const MAX_USER_AGENT_LEN: usize = 0xFFFF;

/// One endpoint as a version payload carries it: service bits, a 16-byte IP
/// (IPv4 addresses appear in IPv4-mapped form), and a port.
pub struct NetAddress {
    pub services: u64,
    pub ip: Vec<u8>,
    pub port: u16,
}

/// Mathematical image of a `NetAddress`.
pub struct AddrV {
    pub services: u64,
    pub ip: Seq<u8>,
    pub port: u16,
}

impl View for NetAddress {
    type V = AddrV;

    open spec fn view(&self) -> AddrV {
        AddrV { services: self.services, ip: self.ip@, port: self.port }
    }
}

impl AddrV {
    /// A well-formed address holds exactly the 16 IP bytes the wire expects.
    pub open spec fn wf(self) -> bool {
        self.ip.len() == 16
    }
}

impl NetAddress {
    /// The all-zero placeholder address used for the sender field when no
    /// routable address is advertised.
    pub fn unspecified() -> (r: NetAddress)
        ensures
            r@.wf(),
            r@.services == 0,
            r@.port == 0,
            forall|i: int| 0 <= i < 16 ==> r@.ip[i] == 0,
    {
        let mut ip: Vec<u8> = Vec::new();
        let mut k: usize = 0;
        while k < 16
            invariant
                k <= 16,
                ip@.len() == k,
                forall|i: int| 0 <= i < k ==> ip@[i] == 0,
            decreases 16 - k,
        {
            ip.push(0);
            k = k + 1;
        }
        NetAddress { services: 0, ip, port: 0 }
    }
}

/// A decoded protocol message of the handshake subset, or (`Other`) an
/// unrecognized command carried opaquely.
pub enum HandshakeMessage {
    Version {
        protocol_version: i32,
        services: u64,
        timestamp: i64,
        receiver: NetAddress,
        sender: NetAddress,
        nonce: u64,
        user_agent: Vec<u8>,
        start_height: i32,
        relay: bool,
    },
    Acknowledge,
    KeepAlivePing { nonce: u64 },
    KeepAlivePong { nonce: u64 },
    Other { command: Vec<u8>, payload: Vec<u8> },
}

/// Mathematical image of a `HandshakeMessage`.
pub enum MsgV {
    Version {
        protocol_version: i32,
        services: u64,
        timestamp: i64,
        receiver: AddrV,
        sender: AddrV,
        nonce: u64,
        user_agent: Seq<u8>,
        start_height: i32,
        relay: bool,
    },
    Acknowledge,
    KeepAlivePing { nonce: u64 },
    KeepAlivePong { nonce: u64 },
    Other { command: Seq<u8>, payload: Seq<u8> },
}

impl View for HandshakeMessage {
    type V = MsgV;

    open spec fn view(&self) -> MsgV {
        match self {
            HandshakeMessage::Version {
                protocol_version,
                services,
                timestamp,
                receiver,
                sender,
                nonce,
                user_agent,
                start_height,
                relay,
            } => MsgV::Version {
                protocol_version: *protocol_version,
                services: *services,
                timestamp: *timestamp,
                receiver: receiver@,
                sender: sender@,
                nonce: *nonce,
                user_agent: user_agent@,
                start_height: *start_height,
                relay: *relay,
            },
            HandshakeMessage::Acknowledge => MsgV::Acknowledge,
            HandshakeMessage::KeepAlivePing { nonce } => MsgV::KeepAlivePing { nonce: *nonce },
            HandshakeMessage::KeepAlivePong { nonce } => MsgV::KeepAlivePong { nonce: *nonce },
            HandshakeMessage::Other { command, payload } => MsgV::Other {
                command: command@,
                payload: payload@,
            },
        }
    }
}

/// The 12-byte null-padded command name "version".
pub open spec fn cmd_version() -> Seq<u8> {
    seq![118u8, 101u8, 114u8, 115u8, 105u8, 111u8, 110u8, 0u8, 0u8, 0u8, 0u8, 0u8]
}

/// The 12-byte null-padded command name "verack".
pub open spec fn cmd_verack() -> Seq<u8> {
    seq![118u8, 101u8, 114u8, 97u8, 99u8, 107u8, 0u8, 0u8, 0u8, 0u8, 0u8, 0u8]
}

/// The 12-byte null-padded command name "ping".
pub open spec fn cmd_ping() -> Seq<u8> {
    seq![112u8, 105u8, 110u8, 103u8, 0u8, 0u8, 0u8, 0u8, 0u8, 0u8, 0u8, 0u8]
}

/// The 12-byte null-padded command name "pong".
pub open spec fn cmd_pong() -> Seq<u8> {
    seq![112u8, 111u8, 110u8, 103u8, 0u8, 0u8, 0u8, 0u8, 0u8, 0u8, 0u8, 0u8]
}

/// Whether `c` names a command of the handshake subset.
pub open spec fn is_known_command(c: Seq<u8>) -> bool {
    c == cmd_version() || c == cmd_verack() || c == cmd_ping() || c == cmd_pong()
}

impl MsgV {
    /// A constructible message: addresses carry 16 IP bytes, the user agent
    /// fits its bound, and an opaque message names a command outside the
    /// handshake subset with a payload under the protocol cap.
    pub open spec fn wf(self) -> bool {
        match self {
            MsgV::Version { receiver, sender, user_agent, .. } => {
                &&& receiver.wf()
                &&& sender.wf()
                &&& user_agent.len() <= MAX_USER_AGENT_LEN
            },
            MsgV::Acknowledge => true,
            MsgV::KeepAlivePing { .. } => true,
            MsgV::KeepAlivePong { .. } => true,
            MsgV::Other { command, payload } => {
                &&& command.len() == 12
                &&& !is_known_command(command)
                &&& payload.len() <= MAX_PAYLOAD_LEN
            },
        }
    }
}

} // verus!
