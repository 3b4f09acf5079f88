//! Cap'n Proto messages on a byte stream.

pub mod batch;
pub mod frame;
pub mod inbound;
pub mod network;
pub mod session;
pub mod stream;

pub use inbound::ReaderOptions;
pub use network::Side;
pub use session::default_reader_options;
