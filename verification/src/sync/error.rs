//! The one error type of the transport.

use vstd::prelude::*;

verus! {

#[derive(Debug, Clone, PartialEq, Eq)]
pub enum SyncError {
    /// The recovery phrase does not decode: wrong word count, a word not in
    /// the list, or a checksum that says a word was swapped or mistyped.
    /// The message is meant to be shown to the person retyping it.
    Phrase(String),
    /// A sealed frame failed to open. Deliberately detail-free: the AEAD
    /// gives one bit ("wrong"), and inventing distinctions between a wrong
    /// key, tampering and truncation would be guessing.
    Open,
    /// Sealing failed: the cipher only refuses a plaintext too large to fit
    /// its counter.
    Seal,
    /// The platform refused to hand out randomness.
    Entropy(String),
    /// A wire message did not decode.
    Wire(String),
}

} // verus!
