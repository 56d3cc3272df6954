//! Verified core of a BitTorrent wire-protocol client: the length-prefixed
//! message codec, the fixed-layout handshake, the peer-session automaton and
//! block scheduler, the shared work queue, the piece assembler, and the
//! SHA-1 integrity check, together with the bencoded metainfo codec and the
//! tracker request builder.

pub mod message;
pub mod codec;
pub mod queue;
pub mod hashing;
pub mod torrent;
pub mod assembler;
pub mod session;
pub mod peers;
pub mod handshake;
pub mod bencode;
pub mod tracker;
pub mod command;
mod bytesutil;
