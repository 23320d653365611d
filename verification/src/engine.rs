//! Handshake engine: a reactive state machine over "whatever arrives next".
//!
//! The engine sends its version message, then answers each incoming message
//! — acknowledging a version, echoing a keep-alive probe, ignoring anything
//! unknown — until the peer's acknowledgement completes the handshake or a
//! decode failure ends it. The whole receive side is modelled as `drain_spec`,
//! a function from the accumulated byte stream to the replies owed and the
//! terminal state reached; the executable engine is proved against it.

use vstd::prelude::*;
use vstd::slice::{slice_subrange, slice_to_vec};
use crate::codec::{
    decode_next, decode_spec, frame_bytes, lemma_decode_consumed, DecodeV,
};
use crate::msg::{HandshakeMessage, MsgV, NetAddress, MAX_USER_AGENT_LEN};
use crate::DecodeFault;

verus! {

/// The engine's state: it starts, sends its version, and then either
/// completes on the peer's acknowledgement or fails.
#[derive(Clone, Copy, Debug, PartialEq, Eq, Structural)]
pub enum HandshakeState {
    Start,
    VersionSent,
    Completed,
    Failed,
}

/// What one call that fed bytes to the engine concluded.
#[derive(Clone, Copy, Debug, PartialEq, Eq, Structural)]
pub enum EngineStatus {
    /// No terminal message yet: send the replies, then read more bytes.
    AwaitingBytes,
    /// The peer's acknowledgement arrived: the handshake succeeded.
    Completed,
    /// A frame was unacceptable: the handshake failed.
    Failed(DecodeFault),
}

/// The reply the engine owes to one incoming message while waiting:
/// acknowledge a version, echo a keep-alive probe's nonce, nothing else.
pub open spec fn reply_for(m: MsgV) -> Option<MsgV> {
    match m {
        MsgV::Version { .. } => Some(MsgV::Acknowledge),
        MsgV::KeepAlivePing { nonce } => Some(MsgV::KeepAlivePong { nonce }),
        _ => None,
    }
}

/// An optional message as a (zero- or one-element) reply sequence.
pub open spec fn opt_seq(m: Option<MsgV>) -> Seq<MsgV> {
    match m {
        Some(x) => seq![x],
        None => Seq::empty(),
    }
}

/// The views of a batch of messages.
pub open spec fn msg_views(ms: Seq<HandshakeMessage>) -> Seq<MsgV> {
    ms.map_values(|m: HandshakeMessage| m@)
}

/// What draining one byte stream yields: the replies owed so far, and
/// either a terminal state or the unconsumed tail awaiting more bytes.
pub enum DrainV {
    Pending { rest: Seq<u8>, replies: Seq<MsgV> },
    Done { replies: Seq<MsgV> },
    Failed { replies: Seq<MsgV>, fault: DecodeFault },
}

/// Prepends replies already owed to a drain outcome.
pub open spec fn push_replies(r: DrainV, pre: Seq<MsgV>) -> DrainV {
    match r {
        DrainV::Pending { rest, replies } => DrainV::Pending { rest, replies: pre + replies },
        DrainV::Done { replies } => DrainV::Done { replies: pre + replies },
        DrainV::Failed { replies, fault } => DrainV::Failed { replies: pre + replies, fault },
    }
}

/// Drains a byte stream frame by frame: each decoded message contributes its
/// owed reply, an acknowledgement ends the handshake successfully, a decode
/// failure ends it unsuccessfully, and truncation leaves the tail pending.
pub open spec fn drain_spec(s: Seq<u8>) -> DrainV
    decreases s.len(),
{
    match decode_spec(s) {
        DecodeV::NeedMore => DrainV::Pending { rest: s, replies: Seq::empty() },
        DecodeV::Fail(f) => DrainV::Failed { replies: Seq::empty(), fault: f },
        DecodeV::Got(m, n) => {
            if m is Acknowledge {
                DrainV::Done { replies: Seq::empty() }
            } else if 0 < n <= s.len() {
                push_replies(drain_spec(s.skip(n)), opt_seq(reply_for(m)))
            } else {
                DrainV::Failed { replies: Seq::empty(), fault: DecodeFault::MalformedPayload }
            }
        },
    }
}

/// Prepending nothing changes nothing.
proof fn lemma_push_replies_empty(r: DrainV)
    ensures
        push_replies(r, Seq::empty()) == r,
{
    match r {
        DrainV::Pending { rest, replies } => {
            assert(Seq::<MsgV>::empty() + replies =~= replies);
        },
        DrainV::Done { replies } => {
            assert(Seq::<MsgV>::empty() + replies =~= replies);
        },
        DrainV::Failed { replies, fault } => {
            assert(Seq::<MsgV>::empty() + replies =~= replies);
        },
    }
}

/// Prepending twice is prepending the concatenation.
proof fn lemma_push_replies_assoc(r: DrainV, a: Seq<MsgV>, b: Seq<MsgV>)
    ensures
        push_replies(push_replies(r, b), a) == push_replies(r, a + b),
{
    match r {
        DrainV::Pending { rest, replies } => {
            assert(a + (b + replies) =~= (a + b) + replies);
        },
        DrainV::Done { replies } => {
            assert(a + (b + replies) =~= (a + b) + replies);
        },
        DrainV::Failed { replies, fault } => {
            assert(a + (b + replies) =~= (a + b) + replies);
        },
    }
}

/// One drain step: consuming a decoded non-terminal frame owes its reply and
/// continues on the tail.
proof fn lemma_drain_step(s: Seq<u8>, m: MsgV, n: int)
    requires
        decode_spec(s) == DecodeV::Got(m, n),
        !(m is Acknowledge),
    ensures
        drain_spec(s) == push_replies(drain_spec(s.skip(n)), opt_seq(reply_for(m))),
{
    lemma_decode_consumed(s, m, n);
}

/// Builds this side's version message from its identity and the two
/// endpoints; the engine sends it to open the handshake.
pub fn create_version_message(
    protocol_version: i32,
    services: u64,
    timestamp: i64,
    receiver: NetAddress,
    sender: NetAddress,
    nonce: u64,
    user_agent: Vec<u8>,
    start_height: i32,
    relay: bool,
) -> (r: HandshakeMessage)
    requires
        receiver@.wf(),
        sender@.wf(),
        user_agent@.len() <= MAX_USER_AGENT_LEN,
    ensures
        r@ == (MsgV::Version {
            protocol_version,
            services,
            timestamp,
            receiver: receiver@,
            sender: sender@,
            nonce,
            user_agent: user_agent@,
            start_height,
            relay,
        }),
        r@.wf(),
{
    HandshakeMessage::Version {
        protocol_version,
        services,
        timestamp,
        receiver,
        sender,
        nonce,
        user_agent,
        start_height,
        relay,
    }
}

/// The reply one incoming message earns during the wait loop, and whether it
/// is the terminal acknowledgement.
pub fn handle_message(msg: &HandshakeMessage) -> (r: (Option<HandshakeMessage>, bool))
    ensures
        match r.0 {
            Some(rm) => reply_for(msg@) == Some(rm@) && rm@.wf(),
            None => reply_for(msg@) is None,
        },
        r.1 == (msg@ is Acknowledge),
{
    match msg {
        HandshakeMessage::Version { .. } => (Some(HandshakeMessage::Acknowledge), false),
        HandshakeMessage::KeepAlivePing { nonce } => (
            Some(HandshakeMessage::KeepAlivePong { nonce: *nonce }),
            false,
        ),
        HandshakeMessage::Acknowledge => (None, true),
        HandshakeMessage::KeepAlivePong { .. } => (None, false),
        HandshakeMessage::Other { .. } => (None, false),
    }
}

/// One peer's handshake engine: the current state and the bytes received but
/// not yet consumed by a complete frame.
pub struct HandshakeEngine {
    pub state: HandshakeState,
    pub buffer: Vec<u8>,
}

impl HandshakeEngine {
    /// While the engine still reads, its buffer never holds a complete
    /// frame: every complete frame is consumed the moment it appears.
    pub open spec fn wf(self) -> bool {
        (self.state is Start || self.state is VersionSent) ==> decode_spec(self.buffer@)
            is NeedMore
    }

    /// A fresh engine, before its version message is sent.
    pub fn new() -> (r: HandshakeEngine)
        ensures
            r.state is Start,
            r.buffer@.len() == 0,
            r.wf(),
    {
        HandshakeEngine { state: HandshakeState::Start, buffer: Vec::new() }
    }

    /// Marks this side's version message as sent: the engine now waits.
    pub fn version_sent(&mut self)
        requires
            old(self).state is Start,
            old(self).wf(),
        ensures
            final(self).state is VersionSent,
            final(self).buffer@ == old(self).buffer@,
            final(self).wf(),
    {
        self.state = HandshakeState::VersionSent;
    }

    /// Feeds freshly received bytes to the waiting engine. It consumes every
    /// complete frame, returns the replies owed in order, and reports whether
    /// the handshake completed, failed, or still awaits bytes — exactly as
    /// `drain_spec` prescribes for the accumulated stream.
    pub fn on_bytes(&mut self, chunk: &[u8]) -> (r: (Vec<HandshakeMessage>, EngineStatus))
        requires
            old(self).state is VersionSent,
            old(self).wf(),
        ensures
            final(self).wf(),
            forall|i: int| 0 <= i < r.0@.len() ==> (#[trigger] r.0@[i])@.wf(),
            ({
                let d = drain_spec(old(self).buffer@ + chunk@);
                match d {
                    DrainV::Pending { rest, replies } => {
                        &&& r.1 is AwaitingBytes
                        &&& final(self).state is VersionSent
                        &&& final(self).buffer@ == rest
                        &&& msg_views(r.0@) == replies
                    },
                    DrainV::Done { replies } => {
                        &&& r.1 is Completed
                        &&& final(self).state is Completed
                        &&& msg_views(r.0@) == replies
                    },
                    DrainV::Failed { replies, fault } => {
                        &&& r.1 == EngineStatus::Failed(fault)
                        &&& final(self).state is Failed
                        &&& msg_views(r.0@) == replies
                    },
                }
            }),
    {
        let ghost stream: Seq<u8> = old(self).buffer@ + chunk@;
        let mut add = slice_to_vec(chunk);
        self.buffer.append(&mut add);
        let mut replies: Vec<HandshakeMessage> = Vec::new();
        proof {
            lemma_push_replies_empty(drain_spec(stream));
            assert(msg_views(replies@) =~= Seq::<MsgV>::empty());
        }
        loop
            invariant
                stream == old(self).buffer@ + chunk@,
                self.state is VersionSent,
                drain_spec(stream) == push_replies(drain_spec(self.buffer@), msg_views(replies@)),
                forall|i: int| 0 <= i < replies@.len() ==> (#[trigger] replies@[i])@.wf(),
            decreases self.buffer@.len(),
        {
            match decode_next(self.buffer.as_slice()) {
                Ok(None) => {
                    proof {
                        assert(msg_views(replies@) + Seq::<MsgV>::empty() =~= msg_views(replies@));
                    }
                    return (replies, EngineStatus::AwaitingBytes);
                },
                Err(f) => {
                    proof {
                        assert(msg_views(replies@) + Seq::<MsgV>::empty() =~= msg_views(replies@));
                    }
                    self.state = HandshakeState::Failed;
                    return (replies, EngineStatus::Failed(f));
                },
                Ok(Some((m, n))) => {
                    proof {
                        lemma_decode_consumed(self.buffer@, m@, n as int);
                    }
                    let rest = slice_to_vec(
                        slice_subrange(self.buffer.as_slice(), n, self.buffer.len()),
                    );
                    let ghost consumed_from: Seq<u8> = self.buffer@;
                    let (reply, done) = handle_message(&m);
                    if done {
                        proof {
                            assert(msg_views(replies@) + Seq::<MsgV>::empty() =~= msg_views(
                                replies@,
                            ));
                        }
                        self.state = HandshakeState::Completed;
                        return (replies, EngineStatus::Completed);
                    }
                    proof {
                        lemma_drain_step(consumed_from, m@, n as int);
                    }
                    self.buffer = rest;
                    match reply {
                        Some(rm) => {
                            let ghost before: Seq<HandshakeMessage> = replies@;
                            replies.push(rm);
                            proof {
                                assert(msg_views(replies@) =~= msg_views(before) + opt_seq(
                                    reply_for(m@),
                                ));
                                lemma_push_replies_assoc(
                                    drain_spec(self.buffer@),
                                    msg_views(before),
                                    opt_seq(reply_for(m@)),
                                );
                            }
                        },
                        None => {
                            proof {
                                assert(msg_views(replies@) + opt_seq(reply_for(m@)) =~= msg_views(
                                    replies@,
                                ));
                                lemma_push_replies_assoc(
                                    drain_spec(self.buffer@),
                                    msg_views(replies@),
                                    opt_seq(reply_for(m@)),
                                );
                            }
                        },
                    }
                },
            }
        }
    }

    /// The stream ended before the handshake did: the engine fails with a
    /// connection-closed error.
    pub fn on_eof(&mut self) -> (e: crate::P2PError)
        requires
            old(self).state is VersionSent,
        ensures
            final(self).state is Failed,
            e.kind is ConnectionClosed,
    {
        self.state = HandshakeState::Failed;
        crate::P2PError { kind: crate::ErrorKind::ConnectionClosed }
    }
}

// ---------------------------------------------------------------------------
// Liveness laws

/// The byte stream a peer produces by sending these messages in order.
pub open spec fn frames_of(ms: Seq<MsgV>) -> Seq<u8>
    decreases ms.len(),
{
    if ms.len() == 0 {
        Seq::empty()
    } else {
        frame_bytes(ms[0]) + frames_of(ms.skip(1))
    }
}

/// The replies the engine owes to these messages, in order.
pub open spec fn replies_of(ms: Seq<MsgV>) -> Seq<MsgV>
    decreases ms.len(),
{
    if ms.len() == 0 {
        Seq::empty()
    } else {
        opt_seq(reply_for(ms[0])) + replies_of(ms.skip(1))
    }
}

/// State-machine liveness: whatever constructible messages a peer interleaves
/// before its acknowledgement — versions, keep-alive probes in either
/// direction, unknown commands — the engine replies to each as owed and
/// reaches its terminal success state the moment the acknowledgement arrives.
/// The order of the preceding messages never changes the terminal outcome.
pub proof fn lemma_liveness(ms: Seq<MsgV>)
    requires
        forall|i: int| 0 <= i < ms.len() ==> (#[trigger] ms[i]).wf() && !(ms[i] is Acknowledge),
    ensures
        drain_spec(frames_of(ms) + frame_bytes(MsgV::Acknowledge)) == (DrainV::Done {
            replies: replies_of(ms),
        }),
    decreases ms.len(),
{
    let ack = MsgV::Acknowledge;
    if ms.len() == 0 {
        assert(frames_of(ms) + frame_bytes(ack) =~= frame_bytes(ack) + Seq::<u8>::empty());
        crate::codec::lemma_frame_decode(ack, Seq::empty());
    } else {
        let m = ms[0];
        assert(m.wf() && !(m is Acknowledge));
        let tail = frames_of(ms.skip(1)) + frame_bytes(ack);
        let s = frames_of(ms) + frame_bytes(ack);
        assert(s =~= frame_bytes(m) + tail);
        crate::codec::lemma_frame_decode(m, tail);
        let flen = frame_bytes(m).len() as int;
        assert(decode_spec(s) == DecodeV::Got(m, flen));
        lemma_drain_step(s, m, flen);
        assert(s.skip(flen) =~= tail);
        assert(forall|i: int|
            0 <= i < ms.skip(1).len() ==> (#[trigger] ms.skip(1)[i]).wf() && !(ms.skip(1)[i]
                is Acknowledge));
        lemma_liveness(ms.skip(1));
        assert(drain_spec(s) == push_replies(
            DrainV::Done { replies: replies_of(ms.skip(1)) },
            opt_seq(reply_for(m)),
        ));
    }
}

/// Fragmentation tolerance, stream level: while a stream is still pending,
/// draining it and then the next fragment yields exactly what draining the
/// concatenation would — so feeding a session to the engine split at any
/// byte boundaries, over any number of reads, ends in the same terminal
/// state with the same replies as feeding it whole.
pub proof fn lemma_drain_append(s: Seq<u8>, b: Seq<u8>)
    requires
        drain_spec(s) is Pending,
    ensures
        drain_spec(s + b) == push_replies(
            drain_spec(drain_spec(s)->Pending_rest + b),
            drain_spec(s)->Pending_replies,
        ),
    decreases s.len(),
{
    match decode_spec(s) {
        DecodeV::NeedMore => {
            assert(drain_spec(s)->Pending_rest == s);
            lemma_push_replies_empty(drain_spec(s + b));
        },
        DecodeV::Fail(f) => {
            assert(false);
        },
        DecodeV::Got(m, n) => {
            lemma_decode_consumed(s, m, n);
            assert(!(m is Acknowledge));
            crate::codec::lemma_decode_stable(s, b);
            lemma_drain_step(s, m, n);
            lemma_drain_step(s + b, m, n);
            assert((s + b).skip(n) =~= s.skip(n) + b);
            let tail = s.skip(n);
            assert(drain_spec(tail) is Pending);
            let rest = drain_spec(tail)->Pending_rest;
            let tail_replies = drain_spec(tail)->Pending_replies;
            lemma_drain_append(tail, b);
            assert(drain_spec(s + b) == push_replies(
                push_replies(drain_spec(rest + b), tail_replies),
                opt_seq(reply_for(m)),
            ));
            lemma_push_replies_assoc(
                drain_spec(rest + b),
                opt_seq(reply_for(m)),
                tail_replies,
            );
            assert(drain_spec(s)->Pending_replies == opt_seq(reply_for(m)) + tail_replies);
            assert(drain_spec(s)->Pending_rest == rest);
        },
    }
}

/// Unknown-message tolerance: a message outside the handshake subset owes no
/// reply and, by `lemma_liveness`, never prevents completion.
pub proof fn lemma_unknown_ignored(m: MsgV)
    requires
        m is Other,
    ensures
        reply_for(m) is None,
{
}

} // verus!
