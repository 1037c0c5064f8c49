//! The sync connection as the app core holds it: the family's phrase, the
//! persisted cursor, and what the screens are told about the connection.

use vstd::prelude::*;

use crate::client::error::AppError;
use crate::sync::error::SyncError;
use crate::sync::key::{
    bip39_english_valid, bip39_phrase, fill_random, normalized, word_count, FamilyKey, PHRASE_WORDS,
};
use crate::sync::protocol::PROTOCOL;
use crate::text::decimal;
use crate::sync::protocol::ClientMessage;
use crate::sync::session::{Event, Session};
use crate::client::view::StateView;

verus! {

/// What a device persists between connections: the relay's epoch and the
/// last sequence applied.
#[derive(Debug, Clone, Copy, Default, PartialEq, Eq, Structural)]
pub struct SyncCursor {
    pub epoch: u64,
    pub since: u64,
}

/// The connection as the screens see it.
#[derive(Debug, Clone, Copy, PartialEq, Eq, Structural)]
pub struct SyncStatus {
    pub cursor: SyncCursor,
    pub replayed: u64,
    pub dropped: u64,
    pub reset: bool,
}

/// What the host is told about one incoming message, tagged for a frontend
/// that switches on it.
#[derive(Debug, Clone, PartialEq, Eq)]
pub enum SyncEvent {
    /// The relay answered the hello. The cursor may have been reset; read it
    /// back from [`SyncSession::status`] rather than assuming.
    Connected,
    /// A frame opened and was merged: `state` is the whole new screen.
    Merged { state: Box<StateView> },
    /// The replay is exhausted: the moment to push what was produced offline.
    CaughtUp,
    /// A push is durable.
    Acked { seq: u64 },
    /// The relay hung up with a reason.
    Refused { reason: String },
    /// A frame did not open and was stepped over.
    Dropped { seq: u64 },
}

/// The event a host sees for what the session made of a message. Every
/// event but a merge passes through as it is; a merge shows `merged`, the
/// screen the replica reached once it merged the payload, and without that
/// screen there is nothing to show yet.
pub fn sync_event(event: Event, merged: Option<StateView>) -> (r: Option<SyncEvent>)
    ensures
        r == match event {
            Event::Connected => Some(SyncEvent::Connected),
            Event::Merge(_) => match merged {
                Some(state) => Some(SyncEvent::Merged { state: Box::new(state) }),
                None => None,
            },
            Event::CaughtUp => Some(SyncEvent::CaughtUp),
            Event::Acked { seq } => Some(SyncEvent::Acked { seq }),
            Event::Refused { reason } => Some(SyncEvent::Refused { reason }),
            Event::Dropped { seq } => Some(SyncEvent::Dropped { seq }),
        },
{
    match event {
        Event::Connected => Some(SyncEvent::Connected),
        Event::Merge(_) => match merged {
            Some(state) => Some(SyncEvent::Merged { state: Box::new(state) }),
            None => None,
        },
        Event::CaughtUp => Some(SyncEvent::CaughtUp),
        Event::Acked { seq } => Some(SyncEvent::Acked { seq }),
        Event::Refused { reason } => Some(SyncEvent::Refused { reason }),
        Event::Dropped { seq } => Some(SyncEvent::Dropped { seq }),
    }
}

/// One connection's client state, opened from the phrase and the persisted
/// cursor.
pub struct SyncSession {
    inner: Session,
}

impl SyncSession {
    pub closed spec fn session(self) -> Session {
        self.inner
    }

    /// Opens a session for the family the phrase names, from the persisted
    /// cursor.
    pub fn open(phrase: &str, cursor: SyncCursor) -> (r: Result<SyncSession, AppError>)
        ensures
            word_count(normalized(phrase@)) == PHRASE_WORDS ==> (r is Ok <==> bip39_english_valid(
                normalized(phrase@),
            )),
            word_count(normalized(phrase@)) != PHRASE_WORDS ==> r is Err,
            r matches Ok(s) ==> s.session().epoch() == cursor.epoch && s.session().since()
                == cursor.since && s.session().replay_count() == 0 && s.session().drop_count() == 0
                && !s.session().was_reset(),
            r matches Ok(s) ==> s.session().key().derived_from(normalized(phrase@)),
    {
        match FamilyKey::from_phrase(phrase) {
            Ok(key) => Ok(SyncSession { inner: Session::new(key, cursor.epoch, cursor.since) }),
            Err(e) => Err(AppError::Sync(e)),
        }
    }

    /// The opening message of the connection.
    pub fn hello(&self) -> (m: ClientMessage)
        ensures
            m matches ClientMessage::Hello { protocol, family, epoch, since } && protocol == PROTOCOL
                && family.0@ == self.session().key().id_bytes() && epoch == self.session().epoch()
                && since == self.session().since(),
    {
        self.inner.hello()
    }

    /// The cursor to persist, and what the connection has seen.
    pub fn status(&self) -> (s: SyncStatus)
        ensures
            s == (SyncStatus {
                cursor: SyncCursor { epoch: self.session().epoch(), since: self.session().since() },
                replayed: self.session().replay_count(),
                dropped: self.session().drop_count(),
                reset: self.session().was_reset(),
            }),
    {
        let (epoch, since) = self.inner.cursor();
        SyncStatus {
            cursor: SyncCursor { epoch, since },
            replayed: self.inner.replayed(),
            dropped: self.inner.dropped(),
            reset: self.inner.reset(),
        }
    }

    /// The session underneath, for the transport that drives it.
    pub fn session_mut(&mut self) -> (s: &mut Session)
        ensures
            *s == old(self).session(),
            final(self).session() == *final(s),
    {
        &mut self.inner
    }
}

/// The canonical phrase that 128 bits of entropy spell.
pub fn phrase_from_entropy(entropy: &[u8; 16]) -> (p: String)
    ensures
        p@ == bip39_phrase(entropy@),
        bip39_english_valid(p@),
        word_count(p@) == PHRASE_WORDS,
{
    let key = FamilyKey::from_entropy(entropy);
    key.phrase().to_owned()
}

/// A fresh family's phrase, in canonical form: 128 bits drawn from the
/// operating system, spelled out.
pub fn mint_phrase() -> (r: Result<String, AppError>)
    ensures
        r matches Err(e) ==> e matches AppError::Sync(s) && s is Entropy,
        r matches Ok(p) ==> exists|entropy: Seq<u8>|
            entropy.len() == 16 && #[trigger] bip39_phrase(entropy) == p@,
        r matches Ok(p) ==> bip39_english_valid(p@) && word_count(p@) == PHRASE_WORDS,
{
    let mut entropy = [0u8; 16];
    match fill_random(&mut entropy) {
        Ok(()) => {},
        Err(e) => return Err(AppError::Sync(SyncError::Entropy(e))),
    }
    let p = phrase_from_entropy(&entropy);
    proof {
        assert(bip39_phrase(entropy@) == p@);
    }
    Ok(p)
}

/// A phrase as typed, checked and put in canonical form — lowercase, single
/// spaces — or the reason it is not a family's phrase.
pub fn read_phrase(phrase: &str) -> (r: Result<String, AppError>)
    ensures
        word_count(normalized(phrase@)) == PHRASE_WORDS ==> (r is Ok <==> bip39_english_valid(
            normalized(phrase@),
        )),
        word_count(normalized(phrase@)) != PHRASE_WORDS ==> r is Err,
        r matches Err(e) ==> e matches AppError::Sync(s) && s is Phrase,
        r matches Ok(p) ==> p@ == normalized(phrase@),
        word_count(normalized(phrase@)) != PHRASE_WORDS ==> (r matches Err(AppError::Sync(
            SyncError::Phrase(m),
        )) && m@ == "expected 12 words, got "@ + decimal(word_count(normalized(phrase@)))),
{
    match FamilyKey::from_phrase(phrase) {
        Ok(key) => Ok(key.phrase().to_owned()),
        Err(e) => Err(AppError::Sync(e)),
    }
}

} // verus!
