//! Authenticated two-party Cap'n Proto RPC over local transports.

pub mod auth;
pub mod bytes;
pub mod error;
pub mod net;
pub mod rpc;
pub mod text;
