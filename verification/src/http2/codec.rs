//! Frames on the wire.
//!
//! A frame is written as its header and its payload. Frames are written
//! without padding and without priority; both are taken off frames that
//! are read.

use vstd::prelude::*;
use crate::http2::client::{frames_view, FrameModel};
use crate::http2::error::Http2Error;
use crate::http2::frame::{
    Frame, FrameHeader, FLAG_ACK, FLAG_END_HEADERS, FLAG_END_STREAM, FLAG_PADDED, FLAG_PRIORITY,
    TYPE_CONTINUATION, TYPE_DATA, TYPE_GOAWAY, TYPE_HEADERS, TYPE_PING, TYPE_RST_STREAM,
    TYPE_SETTINGS, TYPE_WINDOW_UPDATE,
};

verus! {

/// Largest payload of a frame: 2^24 - 1.
pub const MAX_PAYLOAD: usize = 0xff_ffff;

/// Size of one entry of a SETTINGS frame.
pub const SETTING_SIZE: usize = 6;

/// What is wrong with a frame.
#[derive(Debug, Clone, Copy, PartialEq, Eq, Structural)]
pub enum FrameFault {
    /// The frame breaks the protocol.
    Protocol,
    /// The frame has the wrong size.
    Size,
}

/// Whether a flag is set.
pub open spec fn has_flag(flags: u8, flag: u8) -> bool {
    flags & flag != 0
}

/// The flag, if it is to be set.
pub open spec fn flag_if(set: bool, flag: u8) -> u8 {
    if set {
        flag
    } else {
        0
    }
}

/// The number that four bytes at `at` hold, most significant first.
pub open spec fn word_at(p: Seq<u8>, at: int) -> u32 {
    ((p[at] as u32) << 24) | ((p[at + 1] as u32) << 16) | ((p[at + 2] as u32) << 8) | (p[at + 3] as u32)
}

/// The four bytes of a number, most significant first.
pub open spec fn word_bytes(n: u32) -> Seq<u8> {
    seq![(n >> 24) as u8, (n >> 16) as u8, (n >> 8) as u8, n as u8]
}

/// The byte at `k` of the six that a setting takes: its identifier,
/// then its value.
pub open spec fn setting_byte(entry: (u16, u32), k: int) -> u8 {
    if k == 0 {
        (entry.0 >> 8) as u8
    } else if k == 1 {
        entry.0 as u8
    } else if k == 2 {
        (entry.1 >> 24) as u8
    } else if k == 3 {
        (entry.1 >> 16) as u8
    } else if k == 4 {
        (entry.1 >> 8) as u8
    } else {
        entry.1 as u8
    }
}

/// The payload of a SETTINGS frame.
pub open spec fn settings_bytes(settings: Seq<(u16, u32)>) -> Seq<u8> {
    Seq::new(SETTING_SIZE as nat * settings.len(), |i: int| setting_byte(settings[i / 6], i % 6))
}

/// The setting that six bytes at `at` hold.
pub open spec fn setting_at(p: Seq<u8>, at: int) -> (u16, u32) {
    ((((p[at] as u16) << 8) | (p[at + 1] as u16)), word_at(p, at + 2))
}

/// The settings that a payload holds.
pub open spec fn settings_entries(p: Seq<u8>) -> Seq<(u16, u32)> {
    Seq::new((p.len() / SETTING_SIZE as nat) as nat, |i: int| setting_at(p, 6 * i))
}

/// Where the content of a DATA or HEADERS payload starts and ends: the
/// length of the padding, where there is padding, and the priority,
/// where there is one, come first; the padding comes last. `None` where
/// the payload is too short for what its flags announce.
pub open spec fn content_bounds(flags: u8, p: Seq<u8>, priority: bool) -> Option<(int, int)> {
    let lead: int = (if has_flag(flags, FLAG_PADDED) {
        1int
    } else {
        0int
    }) + (if priority && has_flag(flags, FLAG_PRIORITY) {
        5int
    } else {
        0int
    });
    if p.len() < lead {
        None
    } else {
        let pad: int = if has_flag(flags, FLAG_PADDED) {
            p[0] as int
        } else {
            0
        };
        if lead + pad > p.len() {
            None
        } else {
            Some((lead, p.len() - pad))
        }
    }
}

/// The frame that a header and a payload denote.
pub open spec fn frame_value(h: FrameHeader, p: Seq<u8>) -> Result<FrameModel, FrameFault> {
    if p.len() != h.length {
        Err(FrameFault::Size)
    } else if h.frame_type == TYPE_DATA {
        if h.stream_id == 0 {
            Err(FrameFault::Protocol)
        } else {
            match content_bounds(h.flags, p, false) {
                None => Err(FrameFault::Protocol),
                Some((from, to)) => Ok(
                    FrameModel::Data {
                        stream_id: h.stream_id,
                        end_stream: has_flag(h.flags, FLAG_END_STREAM),
                        data: p.subrange(from, to),
                    },
                ),
            }
        }
    } else if h.frame_type == TYPE_HEADERS {
        if h.stream_id == 0 {
            Err(FrameFault::Protocol)
        } else {
            match content_bounds(h.flags, p, true) {
                None => Err(FrameFault::Protocol),
                Some((from, to)) => Ok(
                    FrameModel::Headers {
                        stream_id: h.stream_id,
                        end_stream: has_flag(h.flags, FLAG_END_STREAM),
                        end_headers: has_flag(h.flags, FLAG_END_HEADERS),
                        header_block: p.subrange(from, to),
                    },
                ),
            }
        }
    } else if h.frame_type == TYPE_RST_STREAM {
        if p.len() != 4 {
            Err(FrameFault::Size)
        } else if h.stream_id == 0 {
            Err(FrameFault::Protocol)
        } else {
            Ok(FrameModel::RstStream { stream_id: h.stream_id, error_code: word_at(p, 0) })
        }
    } else if h.frame_type == TYPE_SETTINGS {
        if h.stream_id != 0 {
            Err(FrameFault::Protocol)
        } else if has_flag(h.flags, FLAG_ACK) && p.len() != 0 {
            Err(FrameFault::Size)
        } else if p.len() % SETTING_SIZE as nat != 0 {
            Err(FrameFault::Size)
        } else {
            Ok(FrameModel::Settings { ack: has_flag(h.flags, FLAG_ACK), settings: settings_entries(p) })
        }
    } else if h.frame_type == TYPE_PING {
        if p.len() != 8 {
            Err(FrameFault::Size)
        } else if h.stream_id != 0 {
            Err(FrameFault::Protocol)
        } else {
            Ok(FrameModel::Ping { ack: has_flag(h.flags, FLAG_ACK), data: p })
        }
    } else if h.frame_type == TYPE_GOAWAY {
        if p.len() < 8 {
            Err(FrameFault::Size)
        } else if h.stream_id != 0 {
            Err(FrameFault::Protocol)
        } else {
            Ok(
                FrameModel::GoAway {
                    last_stream_id: word_at(p, 0) & 0x7fff_ffff,
                    error_code: word_at(p, 4),
                },
            )
        }
    } else if h.frame_type == TYPE_WINDOW_UPDATE {
        if p.len() != 4 {
            Err(FrameFault::Size)
        } else {
            Ok(FrameModel::WindowUpdate { stream_id: h.stream_id, increment: word_at(p, 0) & 0x7fff_ffff })
        }
    } else if h.frame_type == TYPE_CONTINUATION {
        if h.stream_id == 0 {
            Err(FrameFault::Protocol)
        } else {
            Ok(
                FrameModel::Continuation {
                    stream_id: h.stream_id,
                    end_headers: has_flag(h.flags, FLAG_END_HEADERS),
                    header_block: p,
                },
            )
        }
    } else {
        Ok(FrameModel::Unknown { frame_type: h.frame_type })
    }
}

/// The payload that is written for a frame.
pub open spec fn frame_payload(f: FrameModel) -> Seq<u8> {
    match f {
        FrameModel::Data { data, .. } => data,
        FrameModel::Headers { header_block, .. } => header_block,
        FrameModel::Settings { settings, .. } => settings_bytes(settings),
        FrameModel::WindowUpdate { increment, .. } => word_bytes(increment),
        FrameModel::Ping { data, .. } => data,
        FrameModel::GoAway { last_stream_id, error_code } => word_bytes(last_stream_id) + word_bytes(
            error_code,
        ),
        FrameModel::RstStream { error_code, .. } => word_bytes(error_code),
        FrameModel::Continuation { header_block, .. } => header_block,
        FrameModel::Unknown { .. } => Seq::empty(),
    }
}

/// The type that is written for a frame.
pub open spec fn frame_type_of(f: FrameModel) -> u8 {
    match f {
        FrameModel::Data { .. } => TYPE_DATA,
        FrameModel::Headers { .. } => TYPE_HEADERS,
        FrameModel::Settings { .. } => TYPE_SETTINGS,
        FrameModel::WindowUpdate { .. } => TYPE_WINDOW_UPDATE,
        FrameModel::Ping { .. } => TYPE_PING,
        FrameModel::GoAway { .. } => TYPE_GOAWAY,
        FrameModel::RstStream { .. } => TYPE_RST_STREAM,
        FrameModel::Continuation { .. } => TYPE_CONTINUATION,
        FrameModel::Unknown { frame_type } => frame_type,
    }
}

/// The flags that are written for a frame.
pub open spec fn frame_flags(f: FrameModel) -> u8 {
    match f {
        FrameModel::Data { end_stream, .. } => flag_if(end_stream, FLAG_END_STREAM),
        FrameModel::Headers { end_stream, end_headers, .. } => flag_if(end_stream, FLAG_END_STREAM) | flag_if(
            end_headers,
            FLAG_END_HEADERS,
        ),
        FrameModel::Settings { ack, .. } => flag_if(ack, FLAG_ACK),
        FrameModel::Ping { ack, .. } => flag_if(ack, FLAG_ACK),
        FrameModel::Continuation { end_headers, .. } => flag_if(end_headers, FLAG_END_HEADERS),
        _ => 0,
    }
}

/// The stream that a frame is written for; 0 is the connection.
pub open spec fn frame_stream(f: FrameModel) -> u32 {
    match f {
        FrameModel::Data { stream_id, .. } => stream_id,
        FrameModel::Headers { stream_id, .. } => stream_id,
        FrameModel::WindowUpdate { stream_id, .. } => stream_id,
        FrameModel::RstStream { stream_id, .. } => stream_id,
        FrameModel::Continuation { stream_id, .. } => stream_id,
        _ => 0,
    }
}

/// Whether a frame can be written: it is of a known type, its payload
/// fits the length field, its stream fits 31 bits, and a PING has its
/// eight bytes.
pub open spec fn can_write(f: FrameModel) -> bool {
    &&& !(f is Unknown)
    &&& frame_payload(f).len() <= MAX_PAYLOAD
    &&& frame_stream(f) <= 0x7fff_ffff
    &&& f matches FrameModel::Ping { data, .. } ==> data.len() == 8
}

/// The header that is written for a frame.
pub open spec fn frame_header(f: FrameModel) -> FrameHeader {
    FrameHeader {
        length: frame_payload(f).len() as u32,
        frame_type: frame_type_of(f),
        flags: frame_flags(f),
        stream_id: frame_stream(f),
    }
}

/// A frame on the wire.
pub open spec fn frame_code(f: FrameModel) -> Seq<u8> {
    frame_header(f).bytes() + frame_payload(f)
}

/// Whether a frame, read back, is the same frame: beyond what writing
/// asks for, a frame of a stream names a stream; an acknowledgement of
/// SETTINGS holds none; and the numbers of GOAWAY and WINDOW_UPDATE fit
/// 31 bits.
pub open spec fn reads_back(f: FrameModel) -> bool {
    &&& can_write(f)
    &&& match f {
        FrameModel::Data { stream_id, .. } => stream_id != 0,
        FrameModel::Headers { stream_id, .. } => stream_id != 0,
        FrameModel::RstStream { stream_id, .. } => stream_id != 0,
        FrameModel::Continuation { stream_id, .. } => stream_id != 0,
        FrameModel::Settings { ack, settings } => ack ==> settings.len() == 0,
        FrameModel::GoAway { last_stream_id, .. } => last_stream_id <= 0x7fff_ffff,
        FrameModel::WindowUpdate { increment, .. } => increment <= 0x7fff_ffff,
        _ => true,
    }
}

/// The four bytes of a number hold the number.
pub proof fn lemma_word_roundtrip(n: u32, rest: Seq<u8>, before: Seq<u8>)
    ensures
        word_at(before + word_bytes(n) + rest, before.len() as int) == n,
{
    assert(((((n >> 24) as u8) as u32) << 24) | ((((n >> 16) as u8) as u32) << 16) | ((((n >> 8) as u8)
        as u32) << 8) | ((n as u8) as u32) == n) by (bit_vector);
}

/// The six bytes of a setting hold the setting.
pub proof fn lemma_settings_roundtrip(settings: Seq<(u16, u32)>)
    ensures
        settings_entries(settings_bytes(settings)) == settings,
        settings_bytes(settings).len() == 6 * settings.len(),
{
    let p = settings_bytes(settings);
    assert forall|i: int| 0 <= i < settings.len() implies setting_at(p, 6 * i) == settings[i] by {
        let id = settings[i].0;
        let n = settings[i].1;
        assert(((((id >> 8) as u8) as u16) << 8) | ((id as u8) as u16) == id) by (bit_vector);
        assert(((((n >> 24) as u8) as u32) << 24) | ((((n >> 16) as u8) as u32) << 16) | ((((n >> 8) as u8)
            as u32) << 8) | ((n as u8) as u32) == n) by (bit_vector);
    }
}

/// The flags that are written are read as they were meant.
pub proof fn lemma_flags(a: bool, b: bool)
    ensures
        has_flag(flag_if(a, FLAG_END_STREAM), FLAG_END_STREAM) == a,
        has_flag(flag_if(a, FLAG_ACK), FLAG_ACK) == a,
        has_flag(flag_if(a, FLAG_END_HEADERS), FLAG_END_HEADERS) == a,
        !has_flag(flag_if(a, FLAG_END_STREAM), FLAG_PADDED),
        !has_flag(flag_if(a, FLAG_END_HEADERS), FLAG_PADDED),
        has_flag(flag_if(a, FLAG_END_STREAM) | flag_if(b, FLAG_END_HEADERS), FLAG_END_STREAM) == a,
        has_flag(flag_if(a, FLAG_END_STREAM) | flag_if(b, FLAG_END_HEADERS), FLAG_END_HEADERS) == b,
        !has_flag(flag_if(a, FLAG_END_STREAM) | flag_if(b, FLAG_END_HEADERS), FLAG_PADDED),
        !has_flag(flag_if(a, FLAG_END_STREAM) | flag_if(b, FLAG_END_HEADERS), FLAG_PRIORITY),
{
    assert(1u8 & 1u8 != 0 && 0u8 & 1u8 == 0 && 4u8 & 4u8 != 0 && 0u8 & 4u8 == 0 && 1u8 & 8u8 == 0 && 4u8
        & 8u8 == 0 && 0u8 & 8u8 == 0) by (bit_vector);
    assert((1u8 | 4u8) & 1u8 != 0 && (1u8 | 0u8) & 1u8 != 0 && (0u8 | 4u8) & 1u8 == 0 && (0u8 | 0u8) & 1u8
        == 0) by (bit_vector);
    assert((1u8 | 4u8) & 4u8 != 0 && (1u8 | 0u8) & 4u8 == 0 && (0u8 | 4u8) & 4u8 != 0 && (0u8 | 0u8) & 4u8
        == 0) by (bit_vector);
    assert((1u8 | 4u8) & 8u8 == 0 && (1u8 | 0u8) & 8u8 == 0 && (0u8 | 4u8) & 8u8 == 0 && (0u8 | 0u8) & 8u8
        == 0) by (bit_vector);
    assert((1u8 | 4u8) & 0x20u8 == 0 && (1u8 | 0u8) & 0x20u8 == 0 && (0u8 | 4u8) & 0x20u8 == 0 && (0u8
        | 0u8) & 0x20u8 == 0) by (bit_vector);
}

/// A frame that is written and read back is the same frame.
pub proof fn lemma_frame_roundtrip(f: FrameModel)
    requires
        reads_back(f),
    ensures
        frame_value(frame_header(f), frame_payload(f)) == Ok::<FrameModel, FrameFault>(f),
        frame_header(f).wf(),
{
    let p = frame_payload(f);
    match f {
        FrameModel::Data { stream_id, end_stream, data } => {
            lemma_flags(end_stream, false);
            assert(p.subrange(0, p.len() as int) =~= data);
        },
        FrameModel::Headers { stream_id, end_stream, end_headers, header_block } => {
            lemma_flags(end_stream, end_headers);
            assert(p.subrange(0, p.len() as int) =~= header_block);
        },
        FrameModel::Settings { ack, settings } => {
            lemma_flags(ack, false);
            lemma_settings_roundtrip(settings);
        },
        FrameModel::WindowUpdate { stream_id, increment } => {
            lemma_word_roundtrip(increment, Seq::empty(), Seq::empty());
            assert(increment & 0x7fff_ffff == increment) by (bit_vector)
                requires
                    increment <= 0x7fff_ffff,
            ;
        },
        FrameModel::Ping { ack, data } => {
            lemma_flags(ack, false);
        },
        FrameModel::GoAway { last_stream_id, error_code } => {
            lemma_word_roundtrip(last_stream_id, word_bytes(error_code), Seq::empty());
            lemma_word_roundtrip(error_code, Seq::empty(), word_bytes(last_stream_id));
            assert(last_stream_id & 0x7fff_ffff == last_stream_id) by (bit_vector)
                requires
                    last_stream_id <= 0x7fff_ffff,
            ;
        },
        FrameModel::RstStream { stream_id, error_code } => {
            lemma_word_roundtrip(error_code, Seq::empty(), Seq::empty());
        },
        FrameModel::Continuation { stream_id, end_headers, header_block } => {
            lemma_flags(end_headers, false);
        },
        FrameModel::Unknown { frame_type } => {},
    }
}

/// Appends the four bytes of a number.
fn push_word(out: &mut Vec<u8>, n: u32)
    ensures
        final(out)@ == old(out)@ + word_bytes(n),
{
    out.push(#[verifier::truncate] ((n >> 24) as u8));
    out.push(#[verifier::truncate] ((n >> 16) as u8));
    out.push(#[verifier::truncate] ((n >> 8) as u8));
    out.push(#[verifier::truncate] (n as u8));
}

/// Reads the number that four bytes at `at` hold.
fn read_word(p: &[u8], at: usize) -> (r: u32)
    requires
        at + 4 <= p.len(),
    ensures
        r == word_at(p@, at as int),
{
    ((p[at] as u32) << 24) | ((p[at + 1] as u32) << 16) | ((p[at + 2] as u32) << 8) | (p[at + 3] as u32)
}

/// Whether a flag is set.
pub fn flag_is_set(flags: u8, flag: u8) -> (r: bool)
    ensures
        r == has_flag(flags, flag),
{
    flags & flag != 0
}

/// The payload of a SETTINGS frame.
pub fn encode_settings(settings: &[(u16, u32)]) -> (r: Vec<u8>)
    requires
        settings.len() * 6 <= usize::MAX,
    ensures
        r@ == settings_bytes(settings@),
{
    let mut out: Vec<u8> = Vec::new();
    let mut i: usize = 0;
    while i < settings.len()
        invariant
            i <= settings.len(),
            out@.len() == 6 * i,
            forall|j: int| 0 <= j < 6 * i ==> out@[j] == setting_byte(settings@[j / 6], j % 6),
        decreases settings.len() - i,
    {
        let id: u16 = settings[i].0;
        let value: u32 = settings[i].1;
        out.push(#[verifier::truncate] ((id >> 8) as u8));
        out.push(#[verifier::truncate] (id as u8));
        out.push(#[verifier::truncate] ((value >> 24) as u8));
        out.push(#[verifier::truncate] ((value >> 16) as u8));
        out.push(#[verifier::truncate] ((value >> 8) as u8));
        out.push(#[verifier::truncate] (value as u8));
        i += 1;
    }
    out
}

/// The settings that a payload holds.
pub fn decode_settings(p: &[u8]) -> (r: Vec<(u16, u32)>)
    ensures
        r@ == settings_entries(p@),
{
    let mut out: Vec<(u16, u32)> = Vec::new();
    let count: usize = p.len() / SETTING_SIZE;
    let mut i: usize = 0;
    while i < count
        invariant
            i <= count,
            count == p.len() / 6,
            out@.len() == i,
            forall|j: int| 0 <= j < i ==> out@[j] == setting_at(p@, 6 * j),
        decreases count - i,
    {
        let at: usize = 6 * i;
        let id: u16 = ((p[at] as u16) << 8) | (p[at + 1] as u16);
        out.push((id, read_word(p, at + 2)));
        i += 1;
    }
    out
}

/// Where the content of a DATA or HEADERS payload starts and ends.
fn content_range(flags: u8, p: &[u8], priority: bool) -> (r: Option<(usize, usize)>)
    ensures
        match content_bounds(flags, p@, priority) {
            Some((from, to)) => r == Some((from as usize, to as usize)) && 0 <= from <= to <= p.len(),
            None => r is None,
        },
{
    let padded = flag_is_set(flags, FLAG_PADDED);
    let mut lead: usize = 0;
    if padded {
        lead += 1;
    }
    if priority && flag_is_set(flags, FLAG_PRIORITY) {
        lead += 5;
    }
    if p.len() < lead {
        return None;
    }
    let pad: usize = if padded {
        p[0] as usize
    } else {
        0
    };
    if pad > p.len() - lead {
        return None;
    }
    Some((lead, p.len() - pad))
}

/// Reads a frame from its header and its payload.
///
/// A payload of another length than the header says, or of a length
/// that the type of the frame does not allow, is an error of size. A
/// frame of a stream that names none, a frame of the connection that
/// names a stream, and padding longer than the payload break the
/// protocol. Padding and priority are taken off. A frame of a type that
/// is not handled is read as unknown.
pub fn decode_frame(header: &FrameHeader, payload: &[u8]) -> (r: Result<Frame, Http2Error>)
    ensures
        match frame_value(*header, payload@) {
            Ok(frame) => r matches Ok(f) && f@ == frame,
            Err(FrameFault::Size) => r == Err::<Frame, Http2Error>(Http2Error::FrameSize),
            Err(FrameFault::Protocol) => r matches Err(Http2Error::Protocol(_)),
        },
{
    if payload.len() as u64 != header.length as u64 {
        return Err(Http2Error::FrameSize);
    }
    let stream_id: u32 = header.stream_id;
    let kind: u8 = header.frame_type;
    if kind == TYPE_DATA || kind == TYPE_HEADERS {
        if stream_id == 0 {
            return Err(Http2Error::Protocol("frame of a stream on stream 0".to_string()));
        }
        let (from, to) = match content_range(header.flags, payload, kind == TYPE_HEADERS) {
            Some(range) => range,
            None => {
                return Err(Http2Error::Protocol("padding beyond the payload".to_string()));
            },
        };
        let content = vstd::slice::slice_to_vec(vstd::slice::slice_subrange(payload, from, to));
        let end_stream = flag_is_set(header.flags, FLAG_END_STREAM);
        if kind == TYPE_DATA {
            Ok(Frame::Data { stream_id, end_stream, data: content })
        } else {
            Ok(
                Frame::Headers {
                    stream_id,
                    end_stream,
                    end_headers: flag_is_set(header.flags, FLAG_END_HEADERS),
                    header_block: content,
                },
            )
        }
    } else if kind == TYPE_RST_STREAM {
        if payload.len() != 4 {
            Err(Http2Error::FrameSize)
        } else if stream_id == 0 {
            Err(Http2Error::Protocol("RST_STREAM on stream 0".to_string()))
        } else {
            Ok(Frame::RstStream { stream_id, error_code: read_word(payload, 0) })
        }
    } else if kind == TYPE_SETTINGS {
        let ack = flag_is_set(header.flags, FLAG_ACK);
        if stream_id != 0 {
            Err(Http2Error::Protocol("SETTINGS on a stream".to_string()))
        } else if ack && payload.len() != 0 {
            Err(Http2Error::FrameSize)
        } else if payload.len() % SETTING_SIZE != 0 {
            Err(Http2Error::FrameSize)
        } else {
            Ok(Frame::Settings { ack, settings: decode_settings(payload) })
        }
    } else if kind == TYPE_PING {
        if payload.len() != 8 {
            Err(Http2Error::FrameSize)
        } else if stream_id != 0 {
            Err(Http2Error::Protocol("PING on a stream".to_string()))
        } else {
            let data: [u8; 8] = [
                payload[0],
                payload[1],
                payload[2],
                payload[3],
                payload[4],
                payload[5],
                payload[6],
                payload[7],
            ];
            assert(data@ =~= payload@);
            Ok(Frame::Ping { ack: flag_is_set(header.flags, FLAG_ACK), data })
        }
    } else if kind == TYPE_GOAWAY {
        if payload.len() < 8 {
            Err(Http2Error::FrameSize)
        } else if stream_id != 0 {
            Err(Http2Error::Protocol("GOAWAY on a stream".to_string()))
        } else {
            Ok(
                Frame::GoAway {
                    last_stream_id: read_word(payload, 0) & 0x7fff_ffff,
                    error_code: read_word(payload, 4),
                },
            )
        }
    } else if kind == TYPE_WINDOW_UPDATE {
        if payload.len() != 4 {
            Err(Http2Error::FrameSize)
        } else {
            Ok(Frame::WindowUpdate { stream_id, increment: read_word(payload, 0) & 0x7fff_ffff })
        }
    } else if kind == TYPE_CONTINUATION {
        if stream_id == 0 {
            Err(Http2Error::Protocol("CONTINUATION on stream 0".to_string()))
        } else {
            Ok(
                Frame::Continuation {
                    stream_id,
                    end_headers: flag_is_set(header.flags, FLAG_END_HEADERS),
                    header_block: vstd::slice::slice_to_vec(payload),
                },
            )
        }
    } else {
        Ok(Frame::Unknown { frame_type: kind })
    }
}

/// The flag, if it is to be set.
fn flag_for(set: bool, flag: u8) -> (r: u8)
    ensures
        r == flag_if(set, flag),
{
    if set {
        flag
    } else {
        0
    }
}

/// Writes header and payload.
fn write_frame(frame_type: u8, flags: u8, stream_id: u32, payload: &[u8]) -> (r: Option<Vec<u8>>)
    ensures
        match r {
            Some(bytes) => {
                &&& payload.len() <= MAX_PAYLOAD
                &&& stream_id <= 0x7fff_ffff
                &&& bytes@ == (FrameHeader { length: payload.len() as u32, frame_type, flags, stream_id }).bytes()
                    + payload@
            },
            None => payload.len() > MAX_PAYLOAD || stream_id > 0x7fff_ffff,
        },
{
    if payload.len() > MAX_PAYLOAD || stream_id > 0x7fff_ffff {
        return None;
    }
    let header = FrameHeader { length: payload.len() as u32, frame_type, flags, stream_id };
    let mut out = header.encode();
    out.extend_from_slice(payload);
    Some(out)
}

/// Writes a frame, without padding and without priority. `None` where
/// the frame cannot be written: its type is unknown, its payload is
/// longer than the length field can say, or its stream does not fit 31
/// bits.
pub fn encode_frame(frame: &Frame) -> (r: Option<Vec<u8>>)
    ensures
        can_write(frame@) ==> (r matches Some(bytes) && bytes@ == frame_code(frame@)),
        !can_write(frame@) ==> r is None,
{
    match frame {
        Frame::Data { stream_id, end_stream, data } => write_frame(
            TYPE_DATA,
            flag_for(*end_stream, FLAG_END_STREAM),
            *stream_id,
            data.as_slice(),
        ),
        Frame::Headers { stream_id, end_stream, end_headers, header_block } => write_frame(
            TYPE_HEADERS,
            flag_for(*end_stream, FLAG_END_STREAM) | flag_for(*end_headers, FLAG_END_HEADERS),
            *stream_id,
            header_block.as_slice(),
        ),
        Frame::Settings { ack, settings } => {
            if settings.len() > MAX_PAYLOAD / SETTING_SIZE {
                return None;
            }
            let payload = encode_settings(settings.as_slice());
            write_frame(TYPE_SETTINGS, flag_for(*ack, FLAG_ACK), 0, payload.as_slice())
        },
        Frame::WindowUpdate { stream_id, increment } => {
            let mut payload: Vec<u8> = Vec::new();
            push_word(&mut payload, *increment);
            write_frame(TYPE_WINDOW_UPDATE, 0, *stream_id, payload.as_slice())
        },
        Frame::Ping { ack, data } => write_frame(
            TYPE_PING,
            flag_for(*ack, FLAG_ACK),
            0,
            vstd::array::array_as_slice(data),
        ),
        Frame::GoAway { last_stream_id, error_code } => {
            let mut payload: Vec<u8> = Vec::new();
            push_word(&mut payload, *last_stream_id);
            push_word(&mut payload, *error_code);
            write_frame(TYPE_GOAWAY, 0, 0, payload.as_slice())
        },
        Frame::RstStream { stream_id, error_code } => {
            let mut payload: Vec<u8> = Vec::new();
            push_word(&mut payload, *error_code);
            write_frame(TYPE_RST_STREAM, 0, *stream_id, payload.as_slice())
        },
        Frame::Continuation { stream_id, end_headers, header_block } => write_frame(
            TYPE_CONTINUATION,
            flag_for(*end_headers, FLAG_END_HEADERS),
            *stream_id,
            header_block.as_slice(),
        ),
        Frame::Unknown { frame_type: _ } => None,
    }
}

/// Cuts a header block into the frames that carry it: a HEADERS frame,
/// then CONTINUATION frames, none with a payload above `max_frame_size`,
/// the last with the flag that ends the headers.
pub fn header_frames(stream_id: u32, block: Vec<u8>, end_stream: bool, max_frame_size: usize) -> (r: Vec<Frame>)
    requires
        max_frame_size >= 1,
    ensures
        r@.len() >= 1,
        blocks_of(frames_view(r@)) == block@,
        forall|i: int| 0 <= i < r@.len() ==> carries(#[trigger] r@[i]@, stream_id, i == 0, end_stream, i == r@.len() - 1, max_frame_size as nat),
{
    let mut out: Vec<Frame> = Vec::new();
    let mut from: usize = 0;
    let total: usize = block.len();
    loop
        invariant_except_break
            max_frame_size >= 1,
            from <= total,
            total == block@.len(),
            from == 0 <==> out@.len() == 0,
            from < total || from == 0,
            blocks_of(frames_view(out@)) == block@.subrange(0, from as int),
            forall|i: int| 0 <= i < out@.len() ==> carries(#[trigger] out@[i]@, stream_id, i == 0, end_stream, false, max_frame_size as nat),
        ensures
            out@.len() >= 1,
            blocks_of(frames_view(out@)) == block@,
            forall|i: int| 0 <= i < out@.len() ==> carries(#[trigger] out@[i]@, stream_id, i == 0, end_stream, i == out@.len() - 1, max_frame_size as nat),
        decreases total - from,
    {
        let to: usize = if total - from > max_frame_size {
            from + max_frame_size
        } else {
            total
        };
        let last = to == total;
        let piece = vstd::slice::slice_to_vec(vstd::slice::slice_subrange(block.as_slice(), from, to));
        let ghost before = frames_view(out@);
        let frame = if from == 0 {
            Frame::Headers { stream_id, end_stream, end_headers: last, header_block: piece }
        } else {
            Frame::Continuation { stream_id, end_headers: last, header_block: piece }
        };
        let ghost model = frame@;
        out.push(frame);
        proof {
            assert(frames_view(out@) =~= before.push(model));
            lemma_blocks_push(before, model);
        }
        if last {
            break ;
        }
        from = to;
    }
    out
}

/// The header block that a run of frames carries.
pub open spec fn blocks_of(frames: Seq<FrameModel>) -> Seq<u8>
    decreases frames.len(),
{
    if frames.len() == 0 {
        Seq::empty()
    } else {
        blocks_of(frames.drop_last()) + (match frames.last() {
            FrameModel::Headers { header_block, .. } => header_block,
            FrameModel::Continuation { header_block, .. } => header_block,
            _ => Seq::empty(),
        })
    }
}

/// Whether a frame is the piece of a header block that belongs at its
/// place: the first a HEADERS frame with the flag that ends the stream
/// as asked, the others CONTINUATION frames; all of the stream, within
/// the size, and the last alone with the flag that ends the headers.
pub open spec fn carries(f: FrameModel, stream_id: u32, first: bool, end_stream: bool, last: bool, max: nat) -> bool {
    match f {
        FrameModel::Headers { stream_id: s, end_stream: e, end_headers, header_block } => first && s
            == stream_id && e == end_stream && end_headers == last && header_block.len() <= max,
        FrameModel::Continuation { stream_id: s, end_headers, header_block } => !first && s == stream_id
            && end_headers == last && header_block.len() <= max,
        _ => false,
    }
}

/// The header block of a run of frames with one more.
pub proof fn lemma_blocks_push(frames: Seq<FrameModel>, f: FrameModel)
    ensures
        blocks_of(frames.push(f)) == blocks_of(frames) + (match f {
            FrameModel::Headers { header_block, .. } => header_block,
            FrameModel::Continuation { header_block, .. } => header_block,
            _ => Seq::empty(),
        }),
{
    assert(frames.push(f).drop_last() =~= frames);
}

/// A header block that is being put together from a HEADERS frame and
/// the CONTINUATION frames after it.
#[derive(Debug, Clone)]
pub struct HeaderAssembly {
    open: Option<(u32, bool)>,
    block: Vec<u8>,
}

/// Mathematical value of an assembly: the stream of the open block and
/// whether it ends the stream, if a block is open; and what has come of
/// the block.
pub struct AssemblyModel {
    pub open: Option<(u32, bool)>,
    pub block: Seq<u8>,
}

impl View for HeaderAssembly {
    type V = AssemblyModel;

    closed spec fn view(&self) -> AssemblyModel {
        AssemblyModel { open: self.open, block: self.block@ }
    }
}

/// What a frame means for the header blocks.
#[derive(Debug, Clone, PartialEq, Eq)]
pub enum Assembled {
    /// The frame carries no header block: it is handed on.
    Passed(Frame),
    /// The frame is a piece of a header block that goes on.
    Pending,
    /// The frame ends a header block.
    Block {
        /// The stream.
        stream_id: u32,
        /// Whether the stream ends with these headers.
        end_stream: bool,
        /// The whole header block.
        block: Vec<u8>,
    },
}

/// Mathematical value of what a frame means for the header blocks.
pub enum AssembledModel {
    Passed(FrameModel),
    Pending,
    Block { stream_id: u32, end_stream: bool, block: Seq<u8> },
}

impl View for Assembled {
    type V = AssembledModel;

    open spec fn view(&self) -> AssembledModel {
        match self {
            Assembled::Passed(frame) => AssembledModel::Passed(frame@),
            Assembled::Pending => AssembledModel::Pending,
            Assembled::Block { stream_id, end_stream, block } => AssembledModel::Block {
                stream_id: *stream_id,
                end_stream: *end_stream,
                block: block@,
            },
        }
    }
}

/// What becomes of an assembly and a frame. While no block is open, a
/// HEADERS frame opens one, or is a whole block where it ends the
/// headers; a CONTINUATION frame breaks the protocol; other frames pass.
/// While a block is open, only a CONTINUATION frame of its stream may
/// come: it adds its piece, and closes the block where it ends the
/// headers.
pub open spec fn assembly_step(state: AssemblyModel, frame: FrameModel) -> Result<
    (AssemblyModel, AssembledModel),
    FrameFault,
> {
    let closed = AssemblyModel { open: None, block: Seq::empty() };
    match state.open {
        None => match frame {
            FrameModel::Headers { stream_id, end_stream, end_headers, header_block } => if end_headers {
                Ok((closed, AssembledModel::Block { stream_id, end_stream, block: header_block }))
            } else {
                Ok(
                    (
                        AssemblyModel { open: Some((stream_id, end_stream)), block: header_block },
                        AssembledModel::Pending,
                    ),
                )
            },
            FrameModel::Continuation { .. } => Err(FrameFault::Protocol),
            _ => Ok((closed, AssembledModel::Passed(frame))),
        },
        Some((stream, end_stream)) => match frame {
            FrameModel::Continuation { stream_id, end_headers, header_block } => if stream_id != stream {
                Err(FrameFault::Protocol)
            } else if end_headers {
                Ok(
                    (
                        closed,
                        AssembledModel::Block {
                            stream_id: stream,
                            end_stream,
                            block: state.block + header_block,
                        },
                    ),
                )
            } else {
                Ok(
                    (
                        AssemblyModel { open: state.open, block: state.block + header_block },
                        AssembledModel::Pending,
                    ),
                )
            },
            _ => Err(FrameFault::Protocol),
        },
    }
}

impl HeaderAssembly {
    /// Whether nothing is kept while no block is open.
    pub closed spec fn wf(&self) -> bool {
        self.open is None ==> self.block@.len() == 0
    }

    /// An assembly with no block open.
    pub fn new() -> (r: Self)
        ensures
            r.wf(),
            r@ == (AssemblyModel { open: None, block: Seq::empty() }),
    {
        HeaderAssembly { open: None, block: Vec::new() }
    }

    /// Whether a header block is open.
    pub fn is_open(&self) -> (r: bool)
        ensures
            r == (self@.open is Some),
    {
        self.open.is_some()
    }

    /// Takes the next frame of the connection. After an error the
    /// connection is beyond repair.
    pub fn accept(&mut self, frame: Frame) -> (r: Result<Assembled, Http2Error>)
        requires
            old(self).wf(),
        ensures
            final(self).wf(),
            match assembly_step(old(self)@, frame@) {
                Ok((state, out)) => r matches Ok(a) && a@ == out && final(self)@ == state,
                Err(_) => r matches Err(Http2Error::Protocol(_)),
            },
    {
        match self.open {
            None => {
                assert(self.block@ =~= Seq::<u8>::empty());
                match frame {
                    Frame::Headers { stream_id, end_stream, end_headers, header_block } => {
                        if end_headers {
                            Ok(Assembled::Block { stream_id, end_stream, block: header_block })
                        } else {
                            self.open = Some((stream_id, end_stream));
                            self.block = header_block;
                            Ok(Assembled::Pending)
                        }
                    },
                    Frame::Continuation { stream_id: _, end_headers: _, header_block: _ } => Err(
                        Http2Error::Protocol("CONTINUATION without HEADERS".to_string()),
                    ),
                    other => {
                        Ok(Assembled::Passed(other))
                    },
                }
            },
            Some((stream, end_stream)) => match frame {
                Frame::Continuation { stream_id, end_headers, header_block } => {
                    if stream_id != stream {
                        return Err(Http2Error::Protocol("CONTINUATION of another stream".to_string()));
                    }
                    self.block.extend_from_slice(header_block.as_slice());
                    assert(self.block@ =~= old(self).block@ + header_block@);
                    if end_headers {
                        let mut block: Vec<u8> = Vec::new();
                        std::mem::swap(&mut block, &mut self.block);
                        self.open = None;
                        Ok(Assembled::Block { stream_id: stream, end_stream, block })
                    } else {
                        Ok(Assembled::Pending)
                    }
                },
                _ => Err(Http2Error::Protocol("frame inside a header block".to_string())),
            },
        }
    }
}

} // verus!
