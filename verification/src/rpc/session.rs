//! What a session puts up with, and how it ends.

use super::inbound::ReaderOptions;
use crate::error::rpc::received;
use crate::error::{from_capnp_exception, Exception, RemoteMessage, RpcError};
use vstd::prelude::*;
use vstd::string::StringExecFns;

verus! {

/// The most words that a message may have unless a session is told otherwise: eight megabytes.
pub const TRAVERSAL_LIMIT: usize = 1024 * 1024;

/// How deep pointers may nest unless a session is told otherwise.
pub const NESTING_LIMIT: i32 = 32;

/// What a session puts up with unless it is told otherwise.
pub fn default_reader_options() -> (options: ReaderOptions)
    ensures
        options.traversal_limit_in_words == Some(TRAVERSAL_LIMIT),
        options.nesting_limit == NESTING_LIMIT,
        options.addressable(),
{
    ReaderOptions { traversal_limit_in_words: Some(TRAVERSAL_LIMIT), nesting_limit: NESTING_LIMIT }
}

/// How the driver of a session ended.
pub enum DriverEnd {
    Finished,
    Failed(Exception),
    /// With a panic, described by this text.
    Panicked(String),
}

/// How a session failed: the error, with the peer's message or what is known locally.
#[derive(Debug)]
pub struct SessionFailure {
    pub error: RpcError,
    pub message: Option<RemoteMessage>,
    pub detail: Option<String>,
}

/// How a session ended.
pub fn session_outcome(end: DriverEnd) -> (outcome: Result<(), SessionFailure>)
    ensures
        match end {
            DriverEnd::Finished => outcome is Ok,
            DriverEnd::Failed(exception) => {
                &&& outcome matches Err(failure)
                &&& failure.message matches Some(message)
                &&& (failure.error, message.0@) == received(exception@)
                &&& failure.detail is None
            },
            DriverEnd::Panicked(text) => {
                &&& outcome matches Err(failure)
                &&& failure.error == RpcError::Setup
                &&& failure.message is None
                &&& failure.detail matches Some(detail)
                &&& detail@ == "rpc driver task panicked: "@ + text@
            },
        },
{
    match end {
        DriverEnd::Finished => Ok(()),
        DriverEnd::Failed(exception) => {
            let failure = from_capnp_exception(&exception);
            Err(
                SessionFailure {
                    error: failure.error,
                    message: Some(failure.message),
                    detail: None,
                },
            )
        },
        DriverEnd::Panicked(text) => Err(
            SessionFailure {
                error: RpcError::Setup,
                message: None,
                detail: Some("rpc driver task panicked: ".to_owned().concat(text.as_str())),
            },
        ),
    }
}

/// The numbers that a session goes by unless it is told otherwise.
pub proof fn law_session_numbers()
    ensures
        TRAVERSAL_LIMIT == 1_048_576,
        NESTING_LIMIT == 32,
{
}

} // verus!
