//! Client side of the initial handshake of a peer-to-peer binary wire
//! protocol: a frame codec that turns a possibly fragmented byte stream into
//! typed messages and back, and a reactive state machine that drives one
//! peer's version/acknowledge exchange to a terminal state while answering
//! keep-alive probes.

use vstd::prelude::*;

pub mod codec;
pub mod engine;
pub mod msg;
pub mod orchestrator;

verus! {

/// One peer's handshake failure: a tagged kind callers can branch on, in
/// place of a flattened human-readable string.
#[derive(Clone, Copy, Debug, PartialEq, Eq, Structural)]
pub struct P2PError {
    pub kind: ErrorKind,
}

impl P2PError {
    /// Wraps a kind.
    pub fn new(kind: ErrorKind) -> (r: P2PError)
        ensures
            r.kind == kind,
    {
        P2PError { kind }
    }
}

/// Wire-level error taxonomy: every way one peer's handshake can fail.
#[derive(Clone, Copy, Debug, PartialEq, Eq, Structural)]
pub enum ErrorKind {
    /// The transport could not be established or broke mid-transfer.
    ConnectionError,
    /// The stream ended before a complete frame was observed.
    ConnectionClosed,
    /// The per-peer deadline elapsed before the handshake completed.
    TimeoutError,
    /// A frame was syntactically unacceptable (bad magic, bad checksum,
    /// malformed payload).
    DecodeError(DecodeFault),
    /// A message outside the handshake subset arrived where it is fatal.
    UnexpectedMessage,
}

/// The reason a buffered frame was rejected by the decoder.
#[derive(Clone, Copy, Debug, PartialEq, Eq, Structural)]
pub enum DecodeFault {
    /// The four magic bytes did not match the network constant.
    MagicMismatch,
    /// The checksum field did not match the checksum of the payload.
    ChecksumMismatch,
    /// The payload bytes do not parse as the declared command's shape.
    MalformedPayload,
}

} // verus!
