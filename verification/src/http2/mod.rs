//! HTTP/2 towards upstreams: settings, frames, header compression and the
//! bookkeeping of one
//! client connection with prior knowledge (RFC 7540, section 3.4).

pub mod client;
pub mod codec;
pub mod error;
pub mod frame;
pub mod hpack;
pub mod settings;

pub use client::{H2cClient, H2cResponse, CONNECTION_PREFACE};
pub use error::Http2Error;
pub use frame::{Frame, FrameHeader};
pub use hpack::{HeaderField, HpackDecoder, HpackEncoder, HpackError};
pub use settings::Http2Settings;
