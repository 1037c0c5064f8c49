//! What the relay decides on a connection, with the socket left to the
//! server: how a hello is answered, what a device is sent on arrival, and
//! what each later message does to the log.

use vstd::prelude::*;

use crate::relay::log::{after, same_frame, same_frames, FamilyLog, Persist, StoredFrame};
use crate::sync::key::FamilyId;
use crate::sync::protocol::{ClientMessage, ServerMessage, PROTOCOL};
use crate::text::{decimal, push_decimal, push_str, string_of};

verus! {

/// How the first message of a connection is answered.
#[derive(Debug, Clone, PartialEq, Eq)]
pub enum Greeting {
    /// A hello in this protocol: which family, and the device's cursor.
    Accept { family: FamilyId, epoch: u64, since: u64 },
    /// Anything else ends the connection, saying why.
    Refuse { reason: String },
}

/// Answers the first message of a connection — `None` for one that did not
/// decode. Only a hello in this very protocol is accepted, so an
/// incompatible device is refused cleanly rather than misparsed.
pub fn greet(first: Option<ClientMessage>) -> (g: Greeting)
    ensures
        match first {
            Some(ClientMessage::Hello { protocol, family, epoch, since }) => if protocol == PROTOCOL {
                g == (Greeting::Accept { family, epoch, since })
            } else {
                g matches Greeting::Refuse { reason } && reason@ == "speak protocol "@ + decimal(
                    PROTOCOL as nat,
                )
            },
            Some(ClientMessage::Push { .. }) => g matches Greeting::Refuse { reason } && reason@
                == "hello first"@,
            None => g matches Greeting::Refuse { reason } && reason@ == "unparsable hello"@,
        },
{
    match first {
        Some(ClientMessage::Hello { protocol, family, epoch, since }) => {
            if protocol != PROTOCOL {
                let mut m: Vec<char> = Vec::new();
                push_str(&mut m, "speak protocol ");
                push_decimal(&mut m, PROTOCOL as u64);
                return Greeting::Refuse { reason: string_of(&m) };
            }
            Greeting::Accept { family, epoch, since }
        },
        Some(ClientMessage::Push { .. }) => Greeting::Refuse { reason: refusal("hello first") },
        None => Greeting::Refuse { reason: refusal("unparsable hello") },
    }
}

fn refusal(text: &str) -> (s: String)
    ensures
        s@ == text@,
{
    let mut m: Vec<char> = Vec::new();
    push_str(&mut m, text);
    proof {
        assert(m@ =~= text@);
    }
    string_of(&m)
}

/// The frame of `f`, as a server message.
pub open spec fn frame_message(m: ServerMessage, f: StoredFrame) -> bool {
    m matches ServerMessage::Frame { seq, kind, payload } && seq == f.seq && kind == f.kind
        && payload@ == f.payload@
}

/// What a device is sent on arrival: the welcome under the log's epoch, the
/// replay from its cursor — from the beginning if its epoch is not the
/// log's, since the sequence numbers it knew belong to a log that no longer
/// exists — and then the word that the replay is over.
pub fn opening(log: &FamilyLog, epoch: u64, since: u64) -> (out: Vec<ServerMessage>)
    ensures
        ({
            let from = if epoch == log.spec_epoch() {
                since
            } else {
                0
            };
            let replay = log.spec_frames().filter(after(from));
            &&& out@.len() == replay.len() + 2
            &&& out@[0] == ServerMessage::Welcome { epoch: log.spec_epoch() }
            &&& forall|i: int| 0 <= i < replay.len() ==> frame_message(#[trigger] out@[i + 1], replay[i])
            &&& out@.last() == ServerMessage::CaughtUp
        }),
{
    let from = if epoch == log.epoch() {
        since
    } else {
        0
    };
    let replay = log.replay(from);
    let mut out: Vec<ServerMessage> = Vec::new();
    out.push(ServerMessage::Welcome { epoch: log.epoch() });
    let mut i: usize = 0;
    while i < replay.len()
        invariant
            i <= replay@.len(),
            out@.len() == i + 1,
            out@[0] == (ServerMessage::Welcome { epoch: log.spec_epoch() }),
            forall|k: int| 0 <= k < i ==> frame_message(#[trigger] out@[k + 1], replay@[k]),
        decreases replay@.len() - i,
    {
        let f = &replay[i];
        out.push(ServerMessage::Frame { seq: f.seq, kind: f.kind, payload: f.payload.clone() });
        i = i + 1;
    }
    out.push(ServerMessage::CaughtUp);
    proof {
        let replay_spec = log.spec_frames().filter(after(from));
        assert forall|k: int| 0 <= k < replay_spec.len() implies frame_message(#[trigger] out@[k + 1], replay_spec[k]) by {
            assert(same_frame(replay@[k], replay_spec[k]));
        }
    }
    out
}

/// What the relay does with one later message of a connection.
#[derive(Debug, Clone, PartialEq, Eq)]
pub enum Step {
    /// A push was appended: make it durable as `persist` says, forward the
    /// frame to the family's other connections, and acknowledge it.
    Appended { frame: StoredFrame, persist: Persist, ack: ServerMessage, forward: ServerMessage },
    /// The connection ends, saying why.
    Refuse { reason: String },
}

/// One later message of a connection — `None` for one that did not decode.
/// A push is appended under the next sequence number; a second hello, or a
/// message that does not decode, ends the connection. A log that has handed
/// out every sequence number refuses further pushes as a storage failure.
pub fn step(log: &mut FamilyLog, incoming: Option<ClientMessage>) -> (s: Step)
    ensures
        match incoming {
            Some(ClientMessage::Push { kind, payload }) => if old(log).spec_next_seq() < u64::MAX {
                &&& s matches Step::Appended { frame, persist, ack, forward }
                &&& frame.seq == old(log).spec_next_seq() && frame.kind == kind && frame.payload@
                    == payload@
                &&& ack == ServerMessage::Ack { seq: frame.seq }
                &&& frame_message(forward, frame)
                &&& final(log).spec_epoch() == old(log).spec_epoch()
                &&& final(log).spec_next_seq() == old(log).spec_next_seq() + 1
                &&& match kind {
                    crate::sync::protocol::FrameKind::Delta => persist == Persist::AppendRecord
                        && same_frames(final(log).spec_frames(), old(log).spec_frames().push(frame)),
                    crate::sync::protocol::FrameKind::Snapshot { covers } => persist
                        == Persist::RewriteLog && same_frames(
                        final(log).spec_frames(),
                        old(log).spec_frames().push(frame).filter(after(covers)),
                    ),
                }
            } else {
                (s matches Step::Refuse { reason } && reason@ == "storage failed"@)
                    && *final(log) == *old(log)
            },
            Some(ClientMessage::Hello { .. }) => (s matches Step::Refuse { reason } && reason@
                == "one hello per connection"@) && *final(log) == *old(log),
            None => (s matches Step::Refuse { reason } && reason@ == "unparsable message"@)
                && *final(log) == *old(log),
        },
{
    match incoming {
        Some(ClientMessage::Push { kind, payload }) => {
            if log.meta().next_seq == u64::MAX {
                return Step::Refuse { reason: refusal("storage failed") };
            }
            let (frame, persist) = log.append(kind, payload);
            let ack = ServerMessage::Ack { seq: frame.seq };
            let forward = ServerMessage::Frame {
                seq: frame.seq,
                kind: frame.kind,
                payload: frame.payload.clone(),
            };
            Step::Appended { frame, persist, ack, forward }
        },
        Some(ClientMessage::Hello { .. }) => Step::Refuse { reason: refusal("one hello per connection") },
        None => Step::Refuse { reason: refusal("unparsable message") },
    }
}

} // verus!
