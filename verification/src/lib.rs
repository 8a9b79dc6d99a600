//! nearclip: LAN-only, end-to-end encrypted clipboard sharing.
//!
//! This crate holds the verified core of the application: the pairing
//! handshake and its cryptography, the wire framing, the sealing of secrets
//! at rest, the bookkeeping of peers, pairings and history, and the rules that
//! sanitize names and decide what the I/O layer does next.

pub mod bytes;
pub mod clipboard;
pub mod commands;
pub mod crypto;
pub mod discovery;
pub mod error;
pub mod identity;
pub mod net;
pub mod pairing;
pub mod protocol;
pub mod registry;
pub mod secrets;
pub mod session;
pub mod state;
pub mod text;
pub mod transfer;
pub mod transport;
