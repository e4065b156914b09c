//! The kinds of failure the engine reports.

use vstd::prelude::*;

verus! {

/// Why an engine operation failed.
#[derive(Debug, Clone, Copy, PartialEq, Eq, Structural)]
pub enum EngineError {
    /// The peer could not be reached, or the connection broke.
    Connection,
    /// A connection is already active on this engine.
    AlreadyConnected,
    /// The operation needs an active connection.
    NotConnected,
    /// A response header carried the wrong marker byte or protocol version.
    Protocol,
    /// A response body held fewer bytes than its own fields declare.
    ShortBody,
    /// A command could not be encoded (a file name longer than 255 bytes).
    Encoding,
    /// Every request id has been handed out.
    RequestIdsExhausted,
    /// A response of a type the engine does not handle; never fatal.
    UnhandledResponse { response_type: u8, error_code: u8, request_id: u32 },
}

} // verus!
