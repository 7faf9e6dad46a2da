//! Errors of an HTTP/2 connection.

use vstd::prelude::*;
use crate::http2::hpack::HpackError;

verus! {

/// What can go wrong on an HTTP/2 connection.
#[derive(Debug, Clone, PartialEq, Eq)]
pub enum Http2Error {
    /// The peer closed the connection, or announced that it will.
    ConnectionClosed,
    /// The peer broke the protocol.
    Protocol(String),
    /// The peer reset the stream.
    StreamClosed {
        /// The stream.
        stream_id: u32,
        /// Error code of the reset.
        error_code: u32,
    },
    /// The send window is used up.
    WindowExhausted,
    /// The stream ids of the connection are used up.
    StreamIdsExhausted,
    /// A window update is void or overflows the window.
    FlowControl,
    /// A frame is malformed.
    FrameSize,
    /// A header block cannot be read or written.
    Compression(HpackError),
}

} // verus!
