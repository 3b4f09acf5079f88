//! The transports that connections run over.

pub mod conn;
pub mod npipe;
pub mod vsock;

pub use conn::PeerIdentity;
