//! HTTP/2 frames.
//!
//! A frame is a header of nine bytes followed by a payload: the length of
//! the payload (24 bits), the type, the flags, and the stream identifier
//! (31 bits behind a reserved bit), all most significant byte first.

use vstd::prelude::*;
use crate::http2::error::Http2Error;

verus! {

/// Size of a frame header.
pub const FRAME_HEADER_SIZE: usize = 9;

/// Frame type DATA.
pub const TYPE_DATA: u8 = 0;

/// Frame type HEADERS.
pub const TYPE_HEADERS: u8 = 1;

/// Frame type PRIORITY.
pub const TYPE_PRIORITY: u8 = 2;

/// Frame type RST_STREAM.
pub const TYPE_RST_STREAM: u8 = 3;

/// Frame type SETTINGS.
pub const TYPE_SETTINGS: u8 = 4;

/// Frame type PUSH_PROMISE.
pub const TYPE_PUSH_PROMISE: u8 = 5;

/// Frame type PING.
pub const TYPE_PING: u8 = 6;

/// Frame type GOAWAY.
pub const TYPE_GOAWAY: u8 = 7;

/// Frame type WINDOW_UPDATE.
pub const TYPE_WINDOW_UPDATE: u8 = 8;

/// Frame type CONTINUATION.
pub const TYPE_CONTINUATION: u8 = 9;

/// Flag END_STREAM of DATA and HEADERS frames.
pub const FLAG_END_STREAM: u8 = 0x1;

/// Flag ACK of SETTINGS and PING frames.
pub const FLAG_ACK: u8 = 0x1;

/// Flag END_HEADERS of HEADERS and CONTINUATION frames.
pub const FLAG_END_HEADERS: u8 = 0x4;

/// Flag PADDED of DATA and HEADERS frames.
pub const FLAG_PADDED: u8 = 0x8;

/// Flag PRIORITY of HEADERS frames.
pub const FLAG_PRIORITY: u8 = 0x20;

/// The header of a frame.
#[derive(Debug, Clone, Copy, PartialEq, Eq, Structural)]
pub struct FrameHeader {
    /// Length of the payload; at most 2^24 - 1.
    pub length: u32,
    /// Type of the frame.
    pub frame_type: u8,
    /// Flags of the frame.
    pub flags: u8,
    /// Stream that the frame belongs to; at most 2^31 - 1.
    pub stream_id: u32,
}

impl FrameHeader {
    /// Whether the length fits 24 bits and the stream identifier 31.
    pub open spec fn wf(self) -> bool {
        self.length <= 0xff_ffff && self.stream_id <= 0x7fff_ffff
    }

    /// The nine bytes of the header.
    pub open spec fn bytes(self) -> Seq<u8> {
        seq![
            (self.length >> 16) as u8,
            (self.length >> 8) as u8,
            self.length as u8,
            self.frame_type,
            self.flags,
            (self.stream_id >> 24) as u8,
            (self.stream_id >> 16) as u8,
            (self.stream_id >> 8) as u8,
            self.stream_id as u8,
        ]
    }

    /// The header that nine bytes denote. The reserved bit is ignored.
    pub open spec fn parse(b: Seq<u8>) -> FrameHeader
        recommends
            b.len() >= 9,
    {
        FrameHeader {
            length: ((b[0] as u32) << 16) | ((b[1] as u32) << 8) | (b[2] as u32),
            frame_type: b[3],
            flags: b[4],
            stream_id: (((b[5] as u32) << 24) | ((b[6] as u32) << 16) | ((b[7] as u32) << 8) | (
            b[8] as u32)) & 0x7fff_ffff,
        }
    }

    /// Writes the header.
    pub fn encode(&self) -> (r: Vec<u8>)
        requires
            self.wf(),
        ensures
            r@ == self.bytes(),
    {
        let n = self.length;
        let s = self.stream_id;
        let mut out: Vec<u8> = Vec::new();
        out.push(#[verifier::truncate] ((n >> 16) as u8));
        out.push(#[verifier::truncate] ((n >> 8) as u8));
        out.push(#[verifier::truncate] (n as u8));
        out.push(self.frame_type);
        out.push(self.flags);
        out.push(#[verifier::truncate] ((s >> 24) as u8));
        out.push(#[verifier::truncate] ((s >> 16) as u8));
        out.push(#[verifier::truncate] ((s >> 8) as u8));
        out.push(#[verifier::truncate] (s as u8));
        assert(out@ =~= self.bytes());
        out
    }

    /// Reads the header at the start of `bytes`.
    pub fn decode(bytes: &[u8]) -> (r: Result<FrameHeader, Http2Error>)
        ensures
            match r {
                Ok(h) => bytes@.len() >= 9 && h == FrameHeader::parse(bytes@) && h.wf(),
                Err(e) => bytes@.len() < 9 && e == Http2Error::FrameSize,
            },
    {
        if bytes.len() < FRAME_HEADER_SIZE {
            return Err(Http2Error::FrameSize);
        }
        let length: u32 = ((bytes[0] as u32) << 16) | ((bytes[1] as u32) << 8) | (bytes[2] as u32);
        let raw: u32 = ((bytes[5] as u32) << 24) | ((bytes[6] as u32) << 16) | ((bytes[7] as u32) << 8) | (
        bytes[8] as u32);
        let stream_id: u32 = raw & 0x7fff_ffff;
        let b0 = bytes[0];
        let b1 = bytes[1];
        let b2 = bytes[2];
        assert((((b0 as u32) << 16) | ((b1 as u32) << 8) | (b2 as u32)) <= 0xff_ffff) by (bit_vector);
        assert(raw & 0x7fff_ffff <= 0x7fff_ffff) by (bit_vector);
        Ok(FrameHeader { length, frame_type: bytes[3], flags: bytes[4], stream_id })
    }
}

/// Reading a written header gives the header back.
pub proof fn lemma_header_roundtrip(h: FrameHeader)
    requires
        h.wf(),
    ensures
        FrameHeader::parse(h.bytes()) == h,
{
    let n = h.length;
    let s = h.stream_id;
    assert(((((n >> 16) as u8) as u32) << 16) | ((((n >> 8) as u8) as u32) << 8) | ((n as u8) as u32) == n)
        by (bit_vector)
        requires
            n <= 0xff_ffff,
    ;
    assert((((((s >> 24) as u8) as u32) << 24) | ((((s >> 16) as u8) as u32) << 16) | ((((s >> 8) as u8)
        as u32) << 8) | ((s as u8) as u32)) & 0x7fff_ffff == s) by (bit_vector)
        requires
            s <= 0x7fff_ffff,
    ;
}

/// A frame as the connection handles it. The header block of a HEADERS
/// frame is carried as it came; its decoding is left to the header
/// compression.
#[derive(Debug, Clone, PartialEq, Eq)]
pub enum Frame {
    /// DATA: a piece of a body.
    Data {
        /// The stream.
        stream_id: u32,
        /// Whether the body ends here.
        end_stream: bool,
        /// The piece.
        data: Vec<u8>,
    },
    /// HEADERS: a header block, or the start of one.
    Headers {
        /// The stream.
        stream_id: u32,
        /// Whether the stream ends with these headers.
        end_stream: bool,
        /// Whether the header block ends here.
        end_headers: bool,
        /// The header block fragment.
        header_block: Vec<u8>,
    },
    /// SETTINGS, or its acknowledgement.
    Settings {
        /// Whether this acknowledges the peer's settings.
        ack: bool,
        /// The entries, by identifier.
        settings: Vec<(u16, u32)>,
    },
    /// WINDOW_UPDATE: more room in a window.
    WindowUpdate {
        /// The stream, or 0 for the connection.
        stream_id: u32,
        /// The room added.
        increment: u32,
    },
    /// PING, or its answer.
    Ping {
        /// Whether this answers a PING.
        ack: bool,
        /// The opaque data.
        data: [u8; 8],
    },
    /// GOAWAY: the peer will take no more streams.
    GoAway {
        /// The last stream that the peer will handle.
        last_stream_id: u32,
        /// The reason.
        error_code: u32,
    },
    /// RST_STREAM: the peer ends a stream.
    RstStream {
        /// The stream.
        stream_id: u32,
        /// The reason.
        error_code: u32,
    },
    /// CONTINUATION: more of a header block.
    Continuation {
        /// The stream.
        stream_id: u32,
        /// Whether the header block ends here.
        end_headers: bool,
        /// The header block fragment.
        header_block: Vec<u8>,
    },
    /// Any other frame.
    Unknown {
        /// The type of the frame.
        frame_type: u8,
    },
}

} // verus!
