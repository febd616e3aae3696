//! Secure peer-to-peer transport core for small broadcast-connected nodes.
//!
//! The crate provides a Noise XX handshake engine over Curve25519 /
//! ChaCha20-Poly1305 / BLAKE2s, a framed transport layer with replay
//! rejection, a broadcast demultiplexer that sorts raw frames into per-peer
//! channels, a role-based access-control store, and the message dispatch
//! rules that gate inbound commands on those roles.

use vstd::prelude::*;

pub mod bytes;
pub mod crypto;
pub mod cipherstate;
pub mod symmetric;
pub mod transport;
pub mod handshake;
pub mod session;
pub mod access;
pub mod channel;
pub mod envelope;
pub mod demux;
pub mod message;
pub mod handler;

verus! {

/// Failure kinds surfaced by the transport core.
///
/// `Input` marks a caller-side size fault (a message too short for its
/// stage, or an exhausted nonce counter), `Decrypt` an AEAD tag mismatch,
/// `NotMyTurn` a handshake operation issued against the wrong direction,
/// and `NeedUpgrade` a handshake operation after completion.
#[derive(Debug, Clone, Copy, PartialEq, Eq, Structural)]
pub enum Error {
    Input,
    Decrypt,
    NotMyTurn,
    NeedUpgrade,
}

} // verus!
