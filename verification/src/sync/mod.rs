//! Encrypted transport between devices.
//!
//! One symmetric key per family, shared by every paired device. Sync
//! messages are sealed before they leave the device, so the relay stores
//! and forwards ciphertext it cannot read. [`session::Session`] is sans-IO:
//! it turns server messages into instructions and local deltas into client
//! messages; putting those on a wire is the transport's business.

pub mod error;
pub mod key;
pub mod protocol;
pub mod seal;
pub mod session;
