//! One family's sealed log: the state that makes the relay worth having.
//!
//! A pure broadcast relay never reconciles two devices that are never online
//! at the same time, so the relay persists what it forwards. What it
//! persists is exactly what it saw: sealed payloads, each under the sequence
//! number it assigned, plus the one number it minted itself — the
//! **epoch**, which is how a device can tell that the log its cursor points
//! into still exists.
//!
//! On disk a log is a sequence of records, each a four-byte little-endian
//! length and then that many bytes. A record whose length promises more
//! bytes than follow is a torn tail — power loss mid-append — and is cut off
//! on load: the device that pushed it never got its ack, so it will push
//! again.

use vstd::prelude::*;

use crate::sync::key::fill_random;
use crate::sync::protocol::FrameKind;

verus! {

/// A frame as stored and as replayed. The payload is ciphertext end to end;
/// `kind` and the sequence number are the plaintext minimum the log needs
/// to order and truncate.
#[derive(Debug, PartialEq, Eq)]
pub struct StoredFrame {
    pub seq: u64,
    pub kind: FrameKind,
    pub payload: Vec<u8>,
}

impl Clone for StoredFrame {
    fn clone(&self) -> (r: Self)
        ensures
            same_frame(r, *self),
    {
        StoredFrame { seq: self.seq, kind: self.kind, payload: self.payload.clone() }
    }
}

/// Two frames with the same number, kind and bytes.
pub open spec fn same_frame(a: StoredFrame, b: StoredFrame) -> bool {
    a.seq == b.seq && a.kind == b.kind && a.payload@ == b.payload@
}

/// Two sequences of frames that match one for one.
pub open spec fn same_frames(a: Seq<StoredFrame>, b: Seq<StoredFrame>) -> bool {
    a.len() == b.len() && forall|i: int| 0 <= i < a.len() ==> same_frame(#[trigger] a[i], b[i])
}

/// The two numbers a log keeps beside its frames.
#[derive(Debug, Clone, Copy, PartialEq, Eq)]
pub struct Meta {
    pub epoch: u64,
    pub next_seq: u64,
}

/// What a log asks to be written after an append.
#[derive(Debug, Clone, Copy, PartialEq, Eq)]
pub enum Persist {
    /// Append the new frame's record to the log file.
    AppendRecord,
    /// A snapshot truncated the log: rewrite the whole file from the frames.
    RewriteLog,
}

/// One family's log, in memory. The process that owns it mirrors every
/// change to disk as [`FamilyLog::append`] asks.
pub struct FamilyLog {
    epoch: u64,
    next_seq: u64,
    frames: Vec<StoredFrame>,
}

/// Keeps the frames a snapshot covering `covers` does not.
pub open spec fn after(covers: u64) -> spec_fn(StoredFrame) -> bool {
    |f: StoredFrame| f.seq > covers
}

impl FamilyLog {
    pub closed spec fn spec_epoch(self) -> u64 {
        self.epoch
    }

    pub closed spec fn spec_next_seq(self) -> u64 {
        self.next_seq
    }

    pub closed spec fn spec_frames(self) -> Seq<StoredFrame> {
        self.frames@
    }

    /// A log as found on disk: the meta if it survived, a freshly minted
    /// epoch (never zero) for a log whose meta is gone, and the frames read
    /// back. The frames, not the meta, are authoritative for sequence
    /// numbers when the two disagree: handing out a sequence twice is the
    /// one mistake devices cannot recover from, since their cursors would
    /// silently skip the second frame.
    pub fn resume(meta: Option<Meta>, fresh_epoch: u64, frames: Vec<StoredFrame>) -> (log: FamilyLog)
        ensures
            log.spec_epoch() == match meta {
                Some(m) => m.epoch,
                None => fresh_epoch,
            },
            log.spec_frames() == frames@,
            log.spec_next_seq() == {
                let base: int = match meta {
                    Some(m) => m.next_seq as int,
                    None => 1,
                };
                if frames@.len() > 0 && frames@.last().seq as int + 1 > base {
                    if frames@.last().seq == u64::MAX {
                        u64::MAX as int
                    } else {
                        frames@.last().seq + 1
                    }
                } else {
                    base
                }
            },
    {
        let (epoch, mut next_seq) = match meta {
            Some(m) => (m.epoch, m.next_seq),
            None => (fresh_epoch, 1),
        };
        if frames.len() > 0 {
            let last = frames[frames.len() - 1].seq;
            let following = last.saturating_add(1);
            if following > next_seq {
                next_seq = following;
            }
        }
        FamilyLog { epoch, next_seq, frames }
    }

    pub fn epoch(&self) -> (e: u64)
        ensures
            e == self.spec_epoch(),
    {
        self.epoch
    }

    /// The numbers to persist beside the frames.
    pub fn meta(&self) -> (m: Meta)
        ensures
            m == (Meta { epoch: self.spec_epoch(), next_seq: self.spec_next_seq() }),
    {
        Meta { epoch: self.epoch, next_seq: self.next_seq }
    }

    /// The frames held, for rewriting the log file.
    pub fn frames(&self) -> (f: &Vec<StoredFrame>)
        ensures
            f@ == self.spec_frames(),
    {
        &self.frames
    }

    /// Every frame after `since`, in log order — the replay a reconnecting
    /// device asked for.
    pub fn replay(&self, since: u64) -> (r: Vec<StoredFrame>)
        ensures
            same_frames(r@, self.spec_frames().filter(after(since))),
    {
        let mut r: Vec<StoredFrame> = Vec::new();
        let mut i: usize = 0;
        while i < self.frames.len()
            invariant
                i <= self.frames@.len(),
                same_frames(r@, self.frames@.take(i as int).filter(after(since))),
            decreases self.frames@.len() - i,
        {
            proof {
                reveal_with_fuel(Seq::filter, 1);
                assert(self.frames@.take(i + 1).drop_last() =~= self.frames@.take(i as int));
            }
            if self.frames[i].seq > since {
                r.push(self.frames[i].clone());
            }
            i = i + 1;
        }
        proof {
            assert(self.frames@.take(i as int) =~= self.frames@);
        }
        r
    }

    /// Appends a frame under the next sequence number and returns it, with
    /// what must be written to make the change durable.
    ///
    /// A snapshot drops every frame at or below what it declares to cover —
    /// the *device* vouches for that coverage, because only a device can read
    /// what a snapshot contains. The relay checks nothing about the claim and
    /// cannot.
    pub fn append(&mut self, kind: FrameKind, payload: Vec<u8>) -> (r: (StoredFrame, Persist))
        requires
            old(self).spec_next_seq() < u64::MAX,
        ensures
            r.0.seq == old(self).spec_next_seq(),
            r.0.kind == kind,
            r.0.payload@ == payload@,
            final(self).spec_epoch() == old(self).spec_epoch(),
            final(self).spec_next_seq() == old(self).spec_next_seq() + 1,
            match kind {
                FrameKind::Delta => {
                    &&& r.1 == Persist::AppendRecord
                    &&& same_frames(final(self).spec_frames(), old(self).spec_frames().push(r.0))
                },
                FrameKind::Snapshot { covers } => {
                    &&& r.1 == Persist::RewriteLog
                    &&& same_frames(
                        final(self).spec_frames(),
                        old(self).spec_frames().push(r.0).filter(after(covers)),
                    )
                },
            },
    {
        let frame = StoredFrame { seq: self.next_seq, kind, payload };
        self.next_seq = self.next_seq + 1;
        let ghost before = self.frames@;
        self.frames.push(frame.clone());
        proof {
            assert forall|i: int| 0 <= i < self.frames@.len() implies same_frame(
                #[trigger] self.frames@[i],
                before.push(frame)[i],
            ) by {
                if i < before.len() {
                    assert(self.frames@[i] == before[i]);
                }
            }
        }
        match kind {
            FrameKind::Snapshot { covers } => {
                let ghost all = self.frames@;
                let mut kept: Vec<StoredFrame> = Vec::new();
                let mut i: usize = 0;
                while i < self.frames.len()
                    invariant
                        i <= all.len(),
                        self.frames@ == all,
                        same_frames(kept@, all.take(i as int).filter(after(covers))),
                    decreases all.len() - i,
                {
                    proof {
                        reveal_with_fuel(Seq::filter, 1);
                        assert(all.take(i + 1).drop_last() =~= all.take(i as int));
                    }
                    if self.frames[i].seq > covers {
                        kept.push(self.frames[i].clone());
                    }
                    i = i + 1;
                }
                proof {
                    assert(all.take(i as int) =~= all);
                    lemma_same_filter(all, before.push(frame), covers);
                }
                self.frames = kept;
                (frame, Persist::RewriteLog)
            },
            FrameKind::Delta => (frame, Persist::AppendRecord),
        }
    }
}

proof fn lemma_same_filter(a: Seq<StoredFrame>, b: Seq<StoredFrame>, covers: u64)
    requires
        same_frames(a, b),
    ensures
        same_frames(a.filter(after(covers)), b.filter(after(covers))),
    decreases a.len(),
{
    reveal_with_fuel(Seq::filter, 1);
    if a.len() > 0 {
        lemma_same_filter(a.drop_last(), b.drop_last(), covers);
        assert(a.last() == a[a.len() - 1]);
        assert(b.last() == b[b.len() - 1]);
        let fa = a.drop_last().filter(after(covers));
        let fb = b.drop_last().filter(after(covers));
        if a.last().seq > covers {
            assert forall|i: int| 0 <= i < fa.len() + 1 implies same_frame(
                #[trigger] fa.push(a.last())[i],
                fb.push(b.last())[i],
            ) by {
                if i < fa.len() {
                    assert(fa.push(a.last())[i] == fa[i]);
                    assert(fb.push(b.last())[i] == fb[i]);
                }
            }
        }
    }
}

/// The value of four bytes read as a little-endian number.
pub open spec fn le32(b0: u8, b1: u8, b2: u8, b3: u8) -> int {
    b0 + 256 * b1 + 65536 * b2 + 16777216 * b3
}

/// A record: `body`'s length as four little-endian bytes, then `body`.
pub open spec fn record_of(body: Seq<u8>) -> Seq<u8> {
    let n = body.len();
    seq![
        (n % 256) as u8,
        (n / 256 % 256) as u8,
        (n / 65536 % 256) as u8,
        (n / 16777216 % 256) as u8,
    ] + body
}

/// Frames `body` as a log record. The length prefix exists so a torn tail
/// is detectable without trusting the codec to fail cleanly on arbitrary
/// bytes.
pub fn encode_record(body: &[u8]) -> (r: Vec<u8>)
    requires
        body@.len() <= u32::MAX,
    ensures
        r@ == record_of(body@),
{
    let n = body.len();
    let mut r: Vec<u8> = Vec::new();
    r.push((n % 256) as u8);
    r.push((n / 256 % 256) as u8);
    r.push((n / 65536 % 256) as u8);
    r.push((n / 16777216 % 256) as u8);
    let mut i: usize = 0;
    while i < body.len()
        invariant
            i <= body@.len(),
            n == body@.len(),
            r@ == record_of(body@).take(4 + i),
        decreases body@.len() - i,
    {
        r.push(body[i]);
        proof {
            assert(record_of(body@).take(4 + i + 1) =~= record_of(body@).take(4 + i).push(body@[i as int]));
        }
        i = i + 1;
    }
    proof {
        assert(record_of(body@).take(4 + i) =~= record_of(body@));
    }
    r
}

/// Where the body of the record at `offset` lies in `bytes`: `None` when
/// fewer than four bytes remain, or the length promises more than follow —
/// the torn tail a power loss leaves.
pub open spec fn spec_record_at(bytes: Seq<u8>, offset: int) -> Option<(int, int)> {
    if bytes.len() - offset < 4 {
        None
    } else {
        let len = le32(bytes[offset], bytes[offset + 1], bytes[offset + 2], bytes[offset + 3]);
        let start = offset + 4;
        if start + len > bytes.len() {
            None
        } else {
            Some((start, start + len))
        }
    }
}

/// The body of the record at `offset`, as a range of `bytes`.
pub fn record_at(bytes: &[u8], offset: usize) -> (r: Option<(usize, usize)>)
    requires
        offset <= bytes@.len(),
    ensures
        match (r, spec_record_at(bytes@, offset as int)) {
            (Some((a, b)), Some((x, y))) => a == x && b == y,
            (None, None) => true,
            _ => false,
        },
{
    if bytes.len() - offset < 4 {
        return None;
    }
    let len: u64 = bytes[offset] as u64 + 256 * (bytes[offset + 1] as u64) + 65536 * (
    bytes[offset + 2] as u64) + 16777216 * (bytes[offset + 3] as u64);
    let start = offset + 4;
    if len > (bytes.len() - start) as u64 {
        return None;
    }
    let end = start + len as usize;
    Some((start, end))
}

/// The body of a record read back is the body that was framed.
pub proof fn law_a_record_reads_back(body: Seq<u8>, rest: Seq<u8>)
    requires
        body.len() <= u32::MAX,
    ensures
        spec_record_at(record_of(body) + rest, 0) == Some((4int, 4 + body.len() as int)),
{
    let bytes = record_of(body) + rest;
    let n = body.len() as int;
    assert(bytes[0] == (n % 256) as u8);
    assert(bytes[1] == (n / 256 % 256) as u8);
    assert(bytes[2] == (n / 65536 % 256) as u8);
    assert(bytes[3] == (n / 16777216 % 256) as u8);
    assert(le32(bytes[0], bytes[1], bytes[2], bytes[3]) == n) by (nonlinear_arith)
        requires
            0 <= n <= u32::MAX,
            bytes[0] == n % 256,
            bytes[1] == n / 256 % 256,
            bytes[2] == n / 65536 % 256,
            bytes[3] == n / 16777216 % 256,
    ;
}

/// The number eight bytes spell, least significant first.
pub open spec fn le_value(b: Seq<u8>) -> int {
    b[0] + 0x100 * b[1] + 0x1_0000 * b[2] + 0x100_0000 * b[3] + 0x1_0000_0000 * b[4] + 0x100_0000_0000 * b[5]
        + 0x1_0000_0000_0000 * b[6] + 0x100_0000_0000_0000 * b[7]
}

/// An epoch drawn as eight bytes: their little-endian number, unless it is
/// zero. Zero is what a device that has never synced sends, and the two
/// must not be confusable.
pub fn epoch_from(bytes: &[u8; 8]) -> (e: Option<u64>)
    ensures
        match e {
            Some(x) => x == le_value(bytes@) && x != 0,
            None => le_value(bytes@) == 0,
        },
{
    let b0 = bytes[0] as u64;
    let b1 = bytes[1] as u64;
    let b2 = bytes[2] as u64;
    let b3 = bytes[3] as u64;
    let b4 = bytes[4] as u64;
    let b5 = bytes[5] as u64;
    let b6 = bytes[6] as u64;
    let b7 = bytes[7] as u64;
    let v: u64 = b0 | (b1 << 8) | (b2 << 16) | (b3 << 24) | (b4 << 32) | (b5 << 40) | (b6 << 48) | (b7 << 56);
    proof {
        assert(v == b0 + 0x100 * b1 + 0x1_0000 * b2 + 0x100_0000 * b3 + 0x1_0000_0000 * b4 + 0x100_0000_0000
            * b5 + 0x1_0000_0000_0000 * b6 + 0x100_0000_0000_0000 * b7) by (bit_vector)
            requires
                b0 < 256,
                b1 < 256,
                b2 < 256,
                b3 < 256,
                b4 < 256,
                b5 < 256,
                b6 < 256,
                b7 < 256,
                v == b0 | (b1 << 8) | (b2 << 16) | (b3 << 24) | (b4 << 32) | (b5 << 40) | (b6 << 48) | (b7
                    << 56),
        ;
    }
    if v == 0 {
        None
    } else {
        Some(v)
    }
}

/// A fresh epoch for a log whose meta is gone: a random number, never zero.
/// Gives up after sixty-four draws of zero, which a working random source
/// does not produce.
pub fn mint_epoch() -> (r: Result<u64, String>)
    ensures
        r matches Ok(e) ==> e != 0,
{
    let mut tries: u32 = 0;
    while tries < 64
        invariant
            tries <= 64,
        decreases 64 - tries,
    {
        let mut bytes = [0u8; 8];
        fill_random(&mut bytes)?;
        if let Some(e) = epoch_from(&bytes) {
            return Ok(e);
        }
        tries = tries + 1;
    }
    Err("the random source gave only zeros".to_owned())
}

} // verus!
