//! XChaCha20-Poly1305, and nothing else, anywhere.
//!
//! A sealed frame is `nonce ‖ ciphertext`, the ciphertext ending in the
//! 16-byte Poly1305 tag. The nonce is 24 random bytes per frame — XChaCha's
//! extended nonce is the reason it was chosen over plain ChaCha: at this
//! size, random nonces need no coordination between devices that are by
//! design never online at the same time.
//!
//! No associated data. What the seal buys is that the relay reads nothing
//! and forges nothing.

use chacha20poly1305::aead::{Aead, KeyInit};
use vstd::prelude::*;

use crate::sync::error::SyncError;
use crate::sync::key::{fill_random, FamilyKey};

verus! {

/// XChaCha20's extended nonce, the first bytes of every sealed frame.
pub const NONCE_LEN: usize = 24;

/// Poly1305's tag, the last bytes — a sealed frame is never shorter than
/// the two combined.
pub const TAG_LEN: usize = 16;

/// What XChaCha20-Poly1305 makes of `plaintext` under `key` and `nonce`,
/// with no associated data: the ciphertext followed by the tag.
pub uninterp spec fn xchacha_sealed(key: Seq<u8>, nonce: Seq<u8>, plaintext: Seq<u8>) -> Seq<u8>;

/// What XChaCha20-Poly1305 opens `ciphertext` to under `key` and `nonce`,
/// with no associated data; `None` when the tag does not verify.
pub uninterp spec fn xchacha_opened(key: Seq<u8>, nonce: Seq<u8>, ciphertext: Seq<u8>) -> Option<
    Seq<u8>,
>;

/// `XChaCha20Poly1305::encrypt` with no associated data. Claims that a
/// success is the ciphertext [`xchacha_sealed`] names, exactly one tag
/// longer than the plaintext, and the AEAD's correctness: under the same key
/// and nonce it opens, as [`xchacha_opened`] names, to the plaintext. It
/// fails only when the plaintext has as many 64-byte blocks as the 32-bit
/// block counter can count; below that it succeeds.
#[verifier::external_body]
fn encrypt(key: &[u8; 32], nonce: &[u8; 24], plaintext: &[u8]) -> (r: Option<Vec<u8>>)
    ensures
        r is Some <==> plaintext@.len() / 64 < 0xffff_ffff,
        r matches Some(c) ==> (c@ == xchacha_sealed(key@, nonce@, plaintext@) && c@.len()
            == plaintext@.len() + 16),
        r matches Some(c) ==> xchacha_opened(key@, nonce@, c@) == Some(plaintext@),
{
    chacha20poly1305::XChaCha20Poly1305::new(key.into()).encrypt(
        chacha20poly1305::XNonce::from_slice(nonce),
        plaintext,
    ).ok()
}

/// Whether `r` holds exactly `p`.
pub open spec fn opened_to(r: Option<Vec<u8>>, p: Seq<u8>) -> bool {
    r matches Some(q) && q@ == p
}

/// `XChaCha20Poly1305::decrypt` with no associated data. Claims that the
/// result is the one [`xchacha_opened`] names, and the AEAD's correctness:
/// what was sealed under a key and nonce opens, under the same two, to the
/// plaintext that was sealed.
#[verifier::external_body]
fn decrypt(key: &[u8; 32], nonce: &[u8], ciphertext: &[u8]) -> (r: Option<Vec<u8>>)
    requires
        nonce@.len() == 24,
    ensures
        r is None <==> xchacha_opened(key@, nonce@, ciphertext@) is None,
        r matches Some(p) ==> xchacha_opened(key@, nonce@, ciphertext@) == Some(p@),
        forall|p: Seq<u8>|
            #[trigger] xchacha_sealed(key@, nonce@, p) == ciphertext@ ==> opened_to(r, p),
{
    chacha20poly1305::XChaCha20Poly1305::new(key.into()).decrypt(
        chacha20poly1305::XNonce::from_slice(nonce),
        ciphertext,
    ).ok()
}

/// What a sealed frame opens to under `key`: nothing when it is too short to
/// hold a nonce and a tag, otherwise what the cipher opens the bytes after
/// the nonce to.
pub open spec fn spec_open(key: Seq<u8>, sealed: Seq<u8>) -> Option<Seq<u8>> {
    if sealed.len() < NONCE_LEN + TAG_LEN {
        None
    } else {
        xchacha_opened(key, sealed.take(24), sealed.skip(24))
    }
}

/// A fresh nonce from the operating system's randomness.
pub(crate) fn draw_nonce() -> (r: Result<[u8; 24], SyncError>)
    ensures
        r matches Err(e) ==> e is Entropy,
{
    let mut nonce = [0u8; 24];
    match fill_random(&mut nonce) {
        Ok(()) => Ok(nonce),
        Err(e) => Err(SyncError::Entropy(e)),
    }
}

/// Seals a plaintext under the family key with the given nonce: the frame is
/// the nonce followed by the cipher's output. It fails only for a plaintext
/// as long as the cipher's block counter can count.
pub fn seal_with_nonce(key: &FamilyKey, nonce: &[u8; 24], plaintext: &[u8]) -> (r: Result<
    Vec<u8>,
    SyncError,
>)
    ensures
        r is Ok <==> plaintext@.len() / 64 < 0xffff_ffff,
        r matches Ok(s) ==> s@ == nonce@ + xchacha_sealed(key.key_bytes(), nonce@, plaintext@),
        r matches Ok(s) ==> s@.len() == NONCE_LEN + plaintext@.len() + TAG_LEN,
        r matches Ok(s) ==> spec_open(key.key_bytes(), s@) == Some(plaintext@),
        r matches Err(e) ==> e is Seal,
{
    let ciphertext = match encrypt(key.bytes(), nonce, plaintext) {
        Some(c) => c,
        None => return Err(SyncError::Seal),
    };
    let mut sealed: Vec<u8> = Vec::new();
    let mut i: usize = 0;
    while i < 24
        invariant
            i <= 24,
            sealed@ == nonce@.take(i as int),
        decreases 24 - i,
    {
        sealed.push(nonce[i]);
        proof {
            assert(nonce@.take(i + 1) =~= nonce@.take(i as int).push(nonce@[i as int]));
        }
        i = i + 1;
    }
    let mut j: usize = 0;
    while j < ciphertext.len()
        invariant
            j <= ciphertext@.len(),
            sealed@ == nonce@ + ciphertext@.take(j as int),
        decreases ciphertext@.len() - j,
    {
        sealed.push(ciphertext[j]);
        proof {
            assert(ciphertext@.take(j + 1) =~= ciphertext@.take(j as int).push(ciphertext@[j as int]));
            assert(nonce@ + ciphertext@.take(j + 1) =~= (nonce@ + ciphertext@.take(j as int)).push(
                ciphertext@[j as int],
            ));
        }
        j = j + 1;
    }
    proof {
        assert(nonce@.take(24) =~= nonce@);
        assert(ciphertext@.take(j as int) =~= ciphertext@);
        assert(sealed@.take(24) =~= nonce@);
        assert(sealed@.skip(24) =~= ciphertext@);
    }
    Ok(sealed)
}

/// Seals a plaintext under the family key. Every call draws a fresh nonce,
/// so sealing the same bytes twice yields unrelated frames.
pub fn seal(key: &FamilyKey, plaintext: &[u8]) -> (r: Result<Vec<u8>, SyncError>)
    ensures
        r matches Ok(sealed) ==> (sealed@.len() == NONCE_LEN + plaintext@.len() + TAG_LEN
            && sealed@.skip(24) == xchacha_sealed(key.key_bytes(), sealed@.take(24), plaintext@)),
        r matches Ok(sealed) ==> spec_open(key.key_bytes(), sealed@) == Some(plaintext@),
        r matches Err(e) ==> e is Entropy || e is Seal,
        r matches Err(e) ==> (e is Seal ==> plaintext@.len() / 64 >= 0xffff_ffff),
{
    let nonce = match draw_nonce() {
        Ok(n) => n,
        Err(e) => return Err(e),
    };
    let r = seal_with_nonce(key, &nonce, plaintext);
    proof {
        if let Ok(s) = &r {
            assert(s@.take(24) =~= nonce@);
            assert(s@.skip(24) =~= xchacha_sealed(key.key_bytes(), nonce@, plaintext@));
        }
    }
    r
}

/// Opens a sealed frame. One bit of failure, on purpose: a frame that does
/// not open is dropped and counted by the session, never merged.
pub fn open(key: &FamilyKey, sealed: &[u8]) -> (r: Result<Vec<u8>, SyncError>)
    ensures
        match spec_open(key.key_bytes(), sealed@) {
            Some(p) => (r matches Ok(q) && q@ == p),
            None => (r matches Err(SyncError::Open)),
        },
        forall|p: Seq<u8>|
            sealed@.len() >= NONCE_LEN + TAG_LEN && #[trigger] xchacha_sealed(
                key.key_bytes(),
                sealed@.take(24),
                p,
            ) == sealed@.skip(24) ==> (r matches Ok(q) && q@ == p),
{
    if sealed.len() < NONCE_LEN + TAG_LEN {
        return Err(SyncError::Open);
    }
    let (nonce, ciphertext) = sealed.split_at(NONCE_LEN);
    proof {
        assert(nonce@ =~= sealed@.take(24));
        assert(ciphertext@ =~= sealed@.skip(24));
    }
    match decrypt(key.bytes(), nonce, ciphertext) {
        Some(p) => Ok(p),
        None => Err(SyncError::Open),
    }
}

} // verus!
