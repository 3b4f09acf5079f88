//! Sockets between a host and its virtual machines.

pub mod guid;
pub mod target;
pub mod utils;

pub use guid::{guid_to_uuid, uuid_to_guid, Guid, ToServiceId, Uuid};
pub use target::VsockTarget;
