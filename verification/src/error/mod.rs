//! What can go wrong, and what of it crosses the wire.

pub mod endpoint;
pub mod handshake;
pub mod rpc;

pub use endpoint::EndpointError;
pub use handshake::{HandshakeError, HandshakeFailure, Why};
pub use rpc::{
    decode_wire_text, encode_wire_text, from_capnp_exception, to_capnp_exception, ErrorKind,
    Exception, RemoteErrorKind, RemoteFailure, RemoteMessage, Report, RpcError, WireCode,
    WireMessage, WIRE_PREFIX,
};
