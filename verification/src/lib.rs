//! An educational secure-messaging core: cryptographic identities with
//! signed pre-keys, an ephemeral-to-static handshake that seals and opens
//! message envelopes, and a durable per-contact conversation store with an
//! exact, invertible byte encoding.

pub mod hexfmt;
pub mod crypto;
pub mod user;
pub mod sessions;
pub mod contacts;
pub mod ui;
