//! The messages between a device and the relay.
//!
//! The relay cannot read a version vector, so the only ordering is the
//! **sequence number** the relay assigns as it appends. The frame **kind**
//! and what a snapshot **covers** are plaintext metadata, the irreducible
//! minimum the relay needs to truncate its log. `Hello` carries a protocol
//! version byte, so an incompatible future change is a clean
//! [`ServerMessage::Refused`] rather than a misparse.
//!
//! The **epoch** is minted with the relay's log; a mismatch tells both sides
//! to start the replay from the beginning, which idempotent merges make
//! merely verbose, never wrong.

use vstd::prelude::*;

use crate::sync::key::FamilyId;

verus! {

/// Bumped on any incompatible change to the messages below. The relay
/// refuses a `Hello` carrying anything else.
pub const PROTOCOL: u8 = 1;

/// What a frame is to the *relay*: a delta it appends, or a snapshot that
/// lets it drop every frame at or below `covers`. A client merges both
/// identically — the distinction exists so the log can shrink.
#[derive(Debug, Clone, Copy, PartialEq, Eq, Structural)]
pub enum FrameKind {
    Delta,
    Snapshot { covers: u64 },
}

/// Device → relay.
#[derive(Debug, Clone, PartialEq, Eq)]
pub enum ClientMessage {
    /// The opening message of every connection: which family, and where the
    /// replay should start. `epoch` and `since` are the device's persisted
    /// cursor; a device that has never synced sends zero for both.
    Hello { protocol: u8, family: FamilyId, epoch: u64, since: u64 },
    /// A sealed payload to append. The relay assigns the sequence number and
    /// answers with [`ServerMessage::Ack`].
    Push { kind: FrameKind, payload: Vec<u8> },
}

/// Relay → device.
#[derive(Debug, Clone, PartialEq, Eq)]
pub enum ServerMessage {
    /// First reply to `Hello`, before any frame.
    Welcome { epoch: u64 },
    /// One log entry: in sequence order during replay, live afterwards.
    Frame { seq: u64, kind: FrameKind, payload: Vec<u8> },
    /// The replay is exhausted; everything from here on is live.
    CaughtUp,
    /// The push at the head of this connection's pipe is durable under this
    /// sequence number.
    Ack { seq: u64 },
    /// The connection is over and this says why.
    Refused { reason: String },
}

} // verus!
