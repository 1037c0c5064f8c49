//! The client half of a sync connection, with no socket in sight.
//!
//! Sans-IO on purpose: everything the transports would otherwise duplicate
//! — sealing, opening, cursor discipline, the epoch reset — lives here as
//! plain calls on messages. Putting a message on the wire and taking one off
//! it is the transport's business.
//!
//! The caller owns the replica. This type turns server messages into "merge
//! this plaintext" and local deltas into client messages, and tracks the two
//! numbers worth persisting.

use vstd::prelude::*;

use crate::sync::error::SyncError;
use crate::sync::key::FamilyKey;
use crate::sync::protocol::{ClientMessage, FrameKind, ServerMessage, PROTOCOL};
use crate::sync::seal::{
    draw_nonce, open, seal_with_nonce, spec_open, xchacha_sealed, NONCE_LEN, TAG_LEN,
};

verus! {

/// What the caller must do with a server message, once the session has
/// opened, verified and accounted for it.
#[derive(Debug, Clone, PartialEq, Eq)]
pub enum Event {
    /// The relay answered the hello; the connection is on. The cursor may
    /// have been reset if the relay's log is not the one this device knew.
    Connected,
    /// An opened payload — hand it to the replica's merge. The cursor has
    /// already advanced; persist it once the merge lands.
    Merge(Vec<u8>),
    /// The replay is exhausted: the moment to push what was produced
    /// offline.
    CaughtUp,
    /// A push is durable on the relay. The cursor itself moves on frames
    /// alone, because acks and frames travel independently.
    Acked { seq: u64 },
    /// The relay hung up with a reason.
    Refused { reason: String },
    /// A frame arrived that the family key does not open. Dropped, counted,
    /// cursor advanced: refetching it forever would not make it open.
    Dropped { seq: u64 },
}

/// One connection's worth of client state. Create it from the persisted
/// cursor, drive it with server messages, persist [`Session::cursor`] when it
/// moves.
pub struct Session {
    key: FamilyKey,
    epoch: u64,
    since: u64,
    replayed: u64,
    dropped: u64,
    reset: bool,
}

impl Session {
    pub closed spec fn key(self) -> FamilyKey {
        self.key
    }

    pub closed spec fn epoch(self) -> u64 {
        self.epoch
    }

    pub closed spec fn since(self) -> u64 {
        self.since
    }

    pub closed spec fn replay_count(self) -> u64 {
        self.replayed
    }

    pub closed spec fn drop_count(self) -> u64 {
        self.dropped
    }

    pub closed spec fn was_reset(self) -> bool {
        self.reset
    }

    /// `epoch` and `since` are what [`Session::cursor`] returned last time —
    /// zeros on a device that has never synced.
    pub fn new(key: FamilyKey, epoch: u64, since: u64) -> (s: Session)
        ensures
            s.key() == key,
            s.epoch() == epoch,
            s.since() == since,
            s.replay_count() == 0,
            s.drop_count() == 0,
            !s.was_reset(),
    {
        Session { key, epoch, since, replayed: 0, dropped: 0, reset: false }
    }

    /// The opening message: which family, and the persisted cursor.
    pub fn hello(&self) -> (m: ClientMessage)
        ensures
            m matches ClientMessage::Hello { protocol, family, epoch, since } && protocol == PROTOCOL
                && family.0@ == self.key().id_bytes() && epoch == self.epoch() && since
                == self.since(),
    {
        ClientMessage::Hello {
            protocol: PROTOCOL,
            family: self.key.id(),
            epoch: self.epoch,
            since: self.since,
        }
    }

    /// A push of `kind` carrying `plaintext` sealed with `nonce`. It fails
    /// only for a plaintext as long as the cipher's block counter can count.
    pub fn push_with_nonce(&self, kind: FrameKind, nonce: &[u8; 24], plaintext: &[u8]) -> (r:
        Result<ClientMessage, SyncError>)
        ensures
            r is Ok <==> plaintext@.len() / 64 < 0xffff_ffff,
            r matches Ok(m) ==> (m matches ClientMessage::Push { kind: k, payload } && k == kind
                && payload@ == nonce@ + xchacha_sealed(self.key().key_bytes(), nonce@, plaintext@)
                && payload@.len() == NONCE_LEN + plaintext@.len() + TAG_LEN
                && spec_open(self.key().key_bytes(), payload@) == Some(plaintext@)),
            r matches Err(e) ==> e is Seal,
    {
        match seal_with_nonce(&self.key, nonce, plaintext) {
            Ok(payload) => Ok(ClientMessage::Push { kind, payload }),
            Err(e) => Err(e),
        }
    }

    /// The push of a local delta sealed with `nonce`.
    pub fn delta_with_nonce(&self, nonce: &[u8; 24], plaintext: &[u8]) -> (r: Result<
        ClientMessage,
        SyncError,
    >)
        ensures
            r is Ok <==> plaintext@.len() / 64 < 0xffff_ffff,
            r matches Ok(m) ==> (m matches ClientMessage::Push { kind, payload } && kind
                == FrameKind::Delta && payload@ == nonce@ + xchacha_sealed(
                self.key().key_bytes(),
                nonce@,
                plaintext@,
            ) && payload@.len() == NONCE_LEN + plaintext@.len() + TAG_LEN && spec_open(
                self.key().key_bytes(),
                payload@,
            ) == Some(plaintext@)),
            r matches Err(e) ==> e is Seal,
    {
        self.push_with_nonce(FrameKind::Delta, nonce, plaintext)
    }

    /// The push of a full snapshot sealed with `nonce`, covering every frame
    /// this session has applied.
    pub fn snapshot_with_nonce(&self, nonce: &[u8; 24], plaintext: &[u8]) -> (r: Result<
        ClientMessage,
        SyncError,
    >)
        ensures
            r is Ok <==> plaintext@.len() / 64 < 0xffff_ffff,
            r matches Ok(m) ==> (m matches ClientMessage::Push { kind, payload } && kind
                == (FrameKind::Snapshot { covers: self.since() }) && payload@ == nonce@
                + xchacha_sealed(self.key().key_bytes(), nonce@, plaintext@) && payload@.len()
                == NONCE_LEN + plaintext@.len() + TAG_LEN && spec_open(
                self.key().key_bytes(),
                payload@,
            ) == Some(plaintext@)),
            r matches Err(e) ==> e is Seal,
    {
        self.push_with_nonce(FrameKind::Snapshot { covers: self.since }, nonce, plaintext)
    }

    /// Seals a local delta into a push, under a fresh nonce.
    pub fn delta(&self, plaintext: &[u8]) -> (r: Result<ClientMessage, SyncError>)
        ensures
            r matches Ok(m) ==> (m matches ClientMessage::Push { kind, payload } && kind
                == FrameKind::Delta && payload@.len() == NONCE_LEN + plaintext@.len() + TAG_LEN
                && payload@.skip(24) == xchacha_sealed(
                self.key().key_bytes(),
                payload@.take(24),
                plaintext@,
            )),
            r matches Ok(m) ==> (m matches ClientMessage::Push { payload, .. } && spec_open(
                self.key().key_bytes(),
                payload@,
            ) == Some(plaintext@)),
            r matches Err(e) ==> e is Entropy || e is Seal,
            r matches Err(e) ==> (e is Seal ==> plaintext@.len() / 64 >= 0xffff_ffff),
    {
        let nonce = match draw_nonce() {
            Ok(n) => n,
            Err(e) => return Err(e),
        };
        let r = self.delta_with_nonce(&nonce, plaintext);
        proof {
            if let Ok(ClientMessage::Push { payload, .. }) = &r {
                assert(payload@.take(24) =~= nonce@);
                assert(payload@.skip(24) =~= xchacha_sealed(self.key().key_bytes(), nonce@, plaintext@));
            }
        }
        r
    }

    /// Seals a full snapshot into a push that lets the relay drop every
    /// frame this session has applied, under a fresh nonce.
    pub fn snapshot(&self, plaintext: &[u8]) -> (r: Result<ClientMessage, SyncError>)
        ensures
            r matches Ok(m) ==> (m matches ClientMessage::Push { kind, payload } && kind
                == (FrameKind::Snapshot { covers: self.since() }) && payload@.len() == NONCE_LEN
                + plaintext@.len() + TAG_LEN && payload@.skip(24) == xchacha_sealed(
                self.key().key_bytes(),
                payload@.take(24),
                plaintext@,
            )),
            r matches Ok(m) ==> (m matches ClientMessage::Push { payload, .. } && spec_open(
                self.key().key_bytes(),
                payload@,
            ) == Some(plaintext@)),
            r matches Err(e) ==> e is Entropy || e is Seal,
            r matches Err(e) ==> (e is Seal ==> plaintext@.len() / 64 >= 0xffff_ffff),
    {
        let nonce = match draw_nonce() {
            Ok(n) => n,
            Err(e) => return Err(e),
        };
        let r = self.snapshot_with_nonce(&nonce, plaintext);
        proof {
            if let Ok(ClientMessage::Push { payload, .. }) = &r {
                assert(payload@.take(24) =~= nonce@);
                assert(payload@.skip(24) =~= xchacha_sealed(self.key().key_bytes(), nonce@, plaintext@));
            }
        }
        r
    }

    /// One incoming server message → one instruction to the caller.
    ///
    /// A welcome under another epoch resets the cursor: the sequence numbers
    /// it knew belong to a log that no longer exists. A frame always moves
    /// the cursor to its sequence number if that is further, whether or not
    /// it opens.
    pub fn handle(&mut self, message: ServerMessage) -> (r: Result<Event, SyncError>)
        ensures
            final(self).key() == old(self).key(),
            r is Ok,
            match message {
                ServerMessage::Welcome { epoch } => {
                    &&& r == Ok::<Event, SyncError>(Event::Connected)
                    &&& final(self).epoch() == epoch
                    &&& final(self).since() == if epoch == old(self).epoch() {
                        old(self).since()
                    } else {
                        0
                    }
                    &&& final(self).replay_count() == old(self).replay_count()
                    &&& final(self).drop_count() == old(self).drop_count()
                    &&& final(self).was_reset() == (old(self).was_reset() || epoch != old(self).epoch())
                },
                ServerMessage::Frame { seq, kind, payload } => {
                    &&& final(self).epoch() == old(self).epoch()
                    &&& final(self).was_reset() == old(self).was_reset()
                    &&& final(self).since() == if seq > old(self).since() {
                        seq
                    } else {
                        old(self).since()
                    }
                    &&& final(self).replay_count() == saturating_inc(old(self).replay_count())
                    &&& match spec_open(old(self).key().key_bytes(), payload@) {
                        Some(p) => {
                            &&& r matches Ok(Event::Merge(q)) && q@ == p
                            &&& final(self).drop_count() == old(self).drop_count()
                        },
                        None => {
                            &&& r == Ok::<Event, SyncError>(Event::Dropped { seq })
                            &&& final(self).drop_count() == saturating_inc(old(self).drop_count())
                        },
                    }
                },
                ServerMessage::CaughtUp => r == Ok::<Event, SyncError>(Event::CaughtUp) && unchanged(
                    *old(self),
                    *final(self),
                ),
                ServerMessage::Ack { seq } => r == Ok::<Event, SyncError>(Event::Acked { seq })
                    && unchanged(*old(self), *final(self)),
                ServerMessage::Refused { reason } => (r matches Ok(Event::Refused { reason: why })
                    && why@ == reason@) && unchanged(*old(self), *final(self)),
            },
    {
        match message {
            ServerMessage::Welcome { epoch } => {
                if epoch != self.epoch {
                    self.since = 0;
                    self.epoch = epoch;
                    self.reset = true;
                }
                Ok(Event::Connected)
            },
            ServerMessage::Frame { seq, payload, .. } => {
                self.replayed = self.replayed.saturating_add(1);
                if seq > self.since {
                    self.since = seq;
                }
                match open(&self.key, payload.as_slice()) {
                    Ok(plaintext) => Ok(Event::Merge(plaintext)),
                    Err(_) => {
                        self.dropped = self.dropped.saturating_add(1);
                        Ok(Event::Dropped { seq })
                    },
                }
            },
            ServerMessage::CaughtUp => Ok(Event::CaughtUp),
            ServerMessage::Ack { seq } => Ok(Event::Acked { seq }),
            ServerMessage::Refused { reason } => Ok(Event::Refused { reason }),
        }
    }

    /// What to persist, together, whenever it changes: the relay's epoch and
    /// the last sequence applied.
    pub fn cursor(&self) -> (c: (u64, u64))
        ensures
            c == (self.epoch(), self.since()),
    {
        (self.epoch, self.since)
    }

    /// Frames seen on this connection — replay and live alike. A caller
    /// watching this grow past a threshold should answer with
    /// [`Session::snapshot`].
    pub fn replayed(&self) -> (n: u64)
        ensures
            n == self.replay_count(),
    {
        self.replayed
    }

    /// Whether a welcome under another epoch reset the cursor on this
    /// connection: the relay's log is not the one this device knew, so what
    /// the device holds should go back as a whole snapshot rather than a
    /// delta.
    pub fn reset(&self) -> (b: bool)
        ensures
            b == self.was_reset(),
    {
        self.reset
    }

    /// Frames the key refused to open: a nonzero count is either corruption
    /// or company.
    pub fn dropped(&self) -> (n: u64)
        ensures
            n == self.drop_count(),
    {
        self.dropped
    }
}

/// `n + 1`, stopping at the largest count.
pub open spec fn saturating_inc(n: u64) -> u64 {
    if n == u64::MAX {
        n
    } else {
        (n + 1) as u64
    }
}

/// Nothing a message can change changed.
pub open spec fn unchanged(before: Session, after: Session) -> bool {
    &&& after.key() == before.key()
    &&& after.epoch() == before.epoch()
    &&& after.since() == before.since()
    &&& after.replay_count() == before.replay_count()
    &&& after.drop_count() == before.drop_count()
    &&& after.was_reset() == before.was_reset()
}

} // verus!
