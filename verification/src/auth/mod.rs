//! Deciding whether a peer may talk to us.

pub mod dialogue;
pub mod gate;
pub mod handshake;
pub mod mac;
pub mod packet;
pub mod signed_process;
