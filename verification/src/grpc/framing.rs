//! gRPC message framing.
//!
//! Every message travels behind a five-byte header:
//!
//! ```text
//! +------------------+
//! | 1 byte: flags    |  1 = compressed, anything else = not compressed
//! +------------------+
//! | 4 bytes: length  |  big-endian payload length
//! +------------------+
//! | N bytes: payload |
//! +------------------+
//! ```

use vstd::prelude::*;
use vstd::string::StringExecFns;
use crate::text::{ascii_chars, decimal_digits, decimal_string};

verus! {

/// Size of the frame header (one flag byte and four length bytes).
pub const GRPC_FRAME_HEADER_SIZE: usize = 5;

/// Default limit on the payload length of one message (4 MiB).
pub const GRPC_MAX_MESSAGE_SIZE: usize = 4 * 1024 * 1024;

#[verifier::external_type_specification]
#[verifier::external_body]
pub struct ExIoErrorKind(std::io::ErrorKind);

/// `ErrorKind` is a plain `Copy` enum: its `clone` returns the same kind.
pub assume_specification[ <std::io::ErrorKind as Clone>::clone ](kind: &std::io::ErrorKind) -> (r:
    std::io::ErrorKind)
    ensures
        r == *kind,
;

#[verifier::external_type_specification]
#[verifier::external_body]
pub struct ExIoError(std::io::Error);

/// The kind of an I/O error.
pub uninterp spec fn io_error_kind(e: std::io::Error) -> std::io::ErrorKind;

/// Wraps `std::io::Error::kind`. The result is named by
/// [`io_error_kind`].
#[verifier::external_body]
fn kind_of(e: &std::io::Error) -> (kind: std::io::ErrorKind)
    ensures
        kind == io_error_kind(*e),
{
    e.kind()
}

/// The name of a kind of I/O error, as its `Debug` form gives it.
pub uninterp spec fn error_kind_name(kind: std::io::ErrorKind) -> Seq<char>;

/// Wraps the `Debug` form of `std::io::ErrorKind`. The result is named by
/// [`error_kind_name`].
#[verifier::external_body]
fn kind_name(kind: &std::io::ErrorKind) -> (r: String)
    ensures
        r@ == error_kind_name(*kind),
{
    format!("{:?}", kind)
}

/// What can go wrong while handling gRPC messages.
#[derive(Debug, Clone)]
pub enum GrpcError {
    /// The buffer ends before the frame does.
    InsufficientData {
        /// Bytes the frame needs.
        required: usize,
        /// Bytes the buffer holds.
        available: usize,
    },
    /// The header announces a payload above the limit.
    MessageTooLarge {
        /// Announced payload length.
        size: usize,
        /// The limit in force.
        max: usize,
    },
    /// The frame is malformed.
    InvalidFrame(String),
    /// Compressing or decompressing a payload failed.
    CompressionError(String),
    /// An I/O operation failed.
    Io(std::io::ErrorKind),
}

impl GrpcError {
    /// The text of the error.
    pub open spec fn text(self) -> Seq<char> {
        match self {
            GrpcError::InsufficientData { required, available } => "Insufficient data: need "@
                + ascii_chars(decimal_digits(required as nat)) + " bytes, have "@ + ascii_chars(
                decimal_digits(available as nat),
            ),
            GrpcError::MessageTooLarge { size, max } => "Message too large: "@ + ascii_chars(
                decimal_digits(size as nat),
            ) + " bytes (max: "@ + ascii_chars(decimal_digits(max as nat)) + ")"@,
            GrpcError::InvalidFrame(msg) => "Invalid gRPC frame: "@ + msg@,
            GrpcError::CompressionError(msg) => "Compression error: "@ + msg@,
            GrpcError::Io(kind) => "IO error: "@ + error_kind_name(kind),
        }
    }

    /// The text of the error, for logs and responses.
    pub fn to_string(&self) -> (r: String)
        ensures
            r@ == self.text(),
    {
        match self {
            GrpcError::InsufficientData { required, available } => {
                let mut out = "Insufficient data: need ".to_owned();
                out.append(decimal_string(*required as u128).as_str());
                out.append(" bytes, have ");
                out.append(decimal_string(*available as u128).as_str());
                out
            },
            GrpcError::MessageTooLarge { size, max } => {
                let mut out = "Message too large: ".to_owned();
                out.append(decimal_string(*size as u128).as_str());
                out.append(" bytes (max: ");
                out.append(decimal_string(*max as u128).as_str());
                out.append(")");
                out
            },
            GrpcError::InvalidFrame(msg) => {
                let mut out = "Invalid gRPC frame: ".to_owned();
                out.append(msg.as_str());
                out
            },
            GrpcError::CompressionError(msg) => {
                let mut out = "Compression error: ".to_owned();
                out.append(msg.as_str());
                out
            },
            GrpcError::Io(kind) => {
                let mut out = "IO error: ".to_owned();
                out.append(kind_name(kind).as_str());
                out
            },
        }
    }
}

impl From<std::io::Error> for GrpcError {
    fn from(e: std::io::Error) -> (r: Self) {
        GrpcError::Io(kind_of(&e))
    }
}

impl vstd::std_specs::convert::FromSpecImpl<std::io::Error> for GrpcError {
    open spec fn obeys_from_spec() -> bool {
        true
    }

    open spec fn from_spec(e: std::io::Error) -> Self {
        GrpcError::Io(io_error_kind(e))
    }
}

/// One gRPC message: the compression flag and the payload.
#[derive(Debug, Clone)]
pub struct GrpcFrame {
    /// Whether the payload is compressed.
    pub compressed: bool,
    /// The payload bytes.
    pub data: Vec<u8>,
}

/// Mathematical value of a frame.
pub struct FrameModel {
    pub compressed: bool,
    pub data: Seq<u8>,
}

impl View for GrpcFrame {
    type V = FrameModel;

    open spec fn view(&self) -> FrameModel {
        FrameModel { compressed: self.compressed, data: self.data@ }
    }
}

/// The four bytes of `n`, most significant first.
pub open spec fn be32(n: u32) -> Seq<u8> {
    seq![(n >> 24) as u8, (n >> 16) as u8, (n >> 8) as u8, n as u8]
}

/// The number whose big-endian bytes are `b0 b1 b2 b3`.
pub open spec fn from_be32(b0: u8, b1: u8, b2: u8, b3: u8) -> u32 {
    ((b0 as u32) << 24) | ((b1 as u32) << 16) | ((b2 as u32) << 8) | (b3 as u32)
}

/// The length field written for a payload of `len` bytes: the low 32 bits.
pub open spec fn length_field(len: nat) -> u32 {
    (len as int % 0x1_0000_0000) as u32
}

/// The flag byte of a frame: bit 0 says whether the payload is
/// compressed, and the other bits are written as zero.
pub open spec fn flag_byte(compressed: bool) -> u8 {
    if compressed { 1 } else { 0 }
}

/// Whether a flag byte says that the payload is compressed: its bit 0.
pub open spec fn flag_compressed(flags: u8) -> bool {
    flags & 1 == 1
}

/// The five header bytes of a frame.
pub open spec fn spec_header(m: FrameModel) -> Seq<u8> {
    seq![flag_byte(m.compressed)] + be32(length_field(m.data.len()))
}

/// The wire form of a frame: header, then payload.
pub open spec fn spec_encode(m: FrameModel) -> Seq<u8> {
    spec_header(m) + m.data
}

/// The payload length that the header at the start of `buf` announces.
pub open spec fn announced_length(buf: Seq<u8>) -> u32
    recommends
        buf.len() >= 5,
{
    from_be32(buf[1], buf[2], buf[3], buf[4])
}

/// What decoding the first frame of `buf` yields under the limit `max_size`:
/// the frame and the number of bytes it occupies, or the reason why not.
pub open spec fn spec_decode(buf: Seq<u8>, max_size: usize) -> Result<(FrameModel, usize), GrpcError> {
    if buf.len() < 5 {
        Err(GrpcError::InsufficientData { required: 5, available: buf.len() as usize })
    } else if announced_length(buf) > max_size {
        Err(GrpcError::MessageTooLarge { size: announced_length(buf) as usize, max: max_size })
    } else if buf.len() < 5 + announced_length(buf) {
        Err(
            GrpcError::InsufficientData {
                required: (5 + announced_length(buf)) as usize,
                available: buf.len() as usize,
            },
        )
    } else {
        Ok(
            (
                FrameModel {
                    compressed: flag_compressed(buf[0]),
                    data: buf.subrange(5, 5 + announced_length(buf)),
                },
                (5 + announced_length(buf)) as usize,
            ),
        )
    }
}

proof fn lemma_be32_roundtrip(n: u32)
    ensures
        from_be32((n >> 24) as u8, (n >> 16) as u8, (n >> 8) as u8, n as u8) == n,
{
    assert(((((n >> 24) as u8) as u32) << 24) | ((((n >> 16) as u8) as u32) << 16) | ((((n >> 8) as u8)
        as u32) << 8) | ((n as u8) as u32) == n) by (bit_vector);
}

/// Decoding an encoded frame gives the frame back, whatever follows it in
/// the buffer, as long as its payload fits the length field and the limit.
pub proof fn lemma_decode_encode(m: FrameModel, rest: Seq<u8>, max_size: usize)
    requires
        m.data.len() <= u32::MAX,
        m.data.len() <= max_size,
        5 + m.data.len() + rest.len() <= usize::MAX,
    ensures
        spec_decode(spec_encode(m) + rest, max_size) == Ok::<(FrameModel, usize), GrpcError>(
            (m, (5 + m.data.len()) as usize),
        ),
{
    let n = length_field(m.data.len());
    let buf = spec_encode(m) + rest;
    lemma_be32_roundtrip(n);
    assert(n == m.data.len());
    assert(buf[0] == flag_byte(m.compressed));
    assert(1u8 & 1 == 1 && 0u8 & 1 != 1) by (bit_vector);
    assert(buf[1] == (n >> 24) as u8);
    assert(buf[2] == (n >> 16) as u8);
    assert(buf[3] == (n >> 8) as u8);
    assert(buf[4] == n as u8);
    assert(announced_length(buf) == n);
    assert(buf.subrange(5, 5 + n) =~= m.data);
}

/// Encoding is injective: two frames with the same wire form have the same
/// flag and the same payload.
pub proof fn lemma_encode_injective(a: FrameModel, b: FrameModel)
    requires
        spec_encode(a) == spec_encode(b),
    ensures
        a == b,
{
    let ea = spec_encode(a);
    let eb = spec_encode(b);
    assert(ea.len() == 5 + a.data.len());
    assert(eb.len() == 5 + b.data.len());
    assert(ea[0] == flag_byte(a.compressed));
    assert(eb[0] == flag_byte(b.compressed));
    assert(a.data =~= ea.subrange(5, ea.len() as int));
    assert(b.data =~= eb.subrange(5, eb.len() as int));
}

fn write_header(buf: &mut Vec<u8>, compressed: bool, len: usize)
    ensures
        final(buf)@ == old(buf)@ + seq![flag_byte(compressed)] + be32(length_field(len as nat)),
{
    let wide: u64 = len as u64;
    let low: u64 = wide & 0xffff_ffff;
    assert(wide & 0xffff_ffff == wide % 0x1_0000_0000) by (bit_vector);
    let n: u32 = low as u32;
    buf.push(if compressed { 1u8 } else { 0u8 });
    buf.push((n >> 24) as u8);
    buf.push(#[verifier::truncate] ((n >> 16) as u8));
    buf.push(#[verifier::truncate] ((n >> 8) as u8));
    buf.push(#[verifier::truncate] (n as u8));
    assert(n >> 24 <= 0xff) by (bit_vector);
    assert(buf@ =~= old(buf)@ + seq![flag_byte(compressed)] + be32(length_field(len as nat)));
}

impl GrpcFrame {
    /// A frame with an uncompressed payload.
    pub fn new(data: Vec<u8>) -> (r: Self)
        ensures
            r@ == (FrameModel { compressed: false, data: data@ }),
    {
        Self { compressed: false, data }
    }

    /// A frame whose payload is marked compressed.
    pub fn compressed(data: Vec<u8>) -> (r: Self)
        ensures
            r@ == (FrameModel { compressed: true, data: data@ }),
    {
        Self { compressed: true, data }
    }

    /// The wire form: five header bytes, then the payload.
    pub fn encode(&self) -> (r: Vec<u8>)
        ensures
            r@ == spec_encode(self@),
    {
        let mut buf: Vec<u8> = Vec::new();
        write_header(&mut buf, self.compressed, self.data.len());
        buf.extend_from_slice(self.data.as_slice());
        assert(buf@ =~= spec_encode(self@));
        buf
    }

    /// The header alone, for callers that stream the payload themselves.
    pub fn encode_header(&self) -> (r: [u8; 5])
        ensures
            r@ == spec_header(self@),
    {
        let mut buf: Vec<u8> = Vec::new();
        write_header(&mut buf, self.compressed, self.data.len());
        let r = [buf[0], buf[1], buf[2], buf[3], buf[4]];
        assert(r@ =~= spec_header(self@));
        r
    }

    /// Header size plus payload length.
    pub fn total_size(&self) -> (r: usize)
        requires
            5 + self.data@.len() <= usize::MAX,
        ensures
            r == 5 + self.data@.len(),
            r == spec_encode(self@).len(),
    {
        GRPC_FRAME_HEADER_SIZE + self.data.len()
    }
}

/// Decodes the first frame of `buf` under the default size limit.
pub fn decode_grpc_frame(buf: &[u8]) -> (r: Result<(GrpcFrame, usize), GrpcError>)
    ensures
        match r {
            Ok((frame, consumed)) => spec_decode(buf@, GRPC_MAX_MESSAGE_SIZE) == Ok::<
                (FrameModel, usize),
                GrpcError,
            >((frame@, consumed)),
            Err(e) => spec_decode(buf@, GRPC_MAX_MESSAGE_SIZE) == Err::<(FrameModel, usize), GrpcError>(e),
        },
{
    decode_grpc_frame_with_max_size(buf, GRPC_MAX_MESSAGE_SIZE)
}

/// Decodes the first frame of `buf`, refusing payloads longer than
/// `max_size`. The size check comes before the payload is looked at, so an
/// oversized announcement is refused however few bytes follow the header.
pub fn decode_grpc_frame_with_max_size(buf: &[u8], max_size: usize) -> (r: Result<
    (GrpcFrame, usize),
    GrpcError,
>)
    ensures
        match r {
            Ok((frame, consumed)) => spec_decode(buf@, max_size) == Ok::<(FrameModel, usize), GrpcError>(
                (frame@, consumed),
            ),
            Err(e) => spec_decode(buf@, max_size) == Err::<(FrameModel, usize), GrpcError>(e),
        },
{
    if buf.len() < GRPC_FRAME_HEADER_SIZE {
        return Err(
            GrpcError::InsufficientData { required: GRPC_FRAME_HEADER_SIZE, available: buf.len() },
        );
    }
    let compressed = buf[0] & 1 == 1;
    let length: u32 = ((buf[1] as u32) << 24) | ((buf[2] as u32) << 16) | ((buf[3] as u32) << 8) | (
    buf[4] as u32);
    if length as u64 > max_size as u64 {
        return Err(GrpcError::MessageTooLarge { size: length as usize, max: max_size });
    }
    let total: u64 = 5u64 + length as u64;
    if (buf.len() as u64) < total {
        return Err(
            GrpcError::InsufficientData {
                required: #[verifier::truncate] (total as usize),
                available: buf.len(),
            },
        );
    }
    let total_len: usize = total as usize;
    let data = vstd::slice::slice_to_vec(vstd::slice::slice_subrange(buf, GRPC_FRAME_HEADER_SIZE, total_len));
    Ok((GrpcFrame { compressed, data }, total_len))
}

/// Streaming decoder: collects bytes as they arrive and hands out whole
/// frames only.
#[derive(Debug)]
pub struct GrpcFrameDecoder {
    buffer: Vec<u8>,
    max_message_size: usize,
}

impl View for GrpcFrameDecoder {
    type V = Seq<u8>;

    /// The bytes received and not yet handed out.
    closed spec fn view(&self) -> Seq<u8> {
        self.buffer@
    }
}

impl GrpcFrameDecoder {
    /// The payload limit this decoder enforces.
    pub closed spec fn spec_max_message_size(&self) -> usize {
        self.max_message_size
    }

    /// An empty decoder with the default limit.
    pub fn new() -> (r: Self)
        ensures
            r@ == Seq::<u8>::empty(),
            r.spec_max_message_size() == GRPC_MAX_MESSAGE_SIZE,
    {
        Self::with_max_size(GRPC_MAX_MESSAGE_SIZE)
    }

    /// An empty decoder with the limit `max_size`.
    pub fn with_max_size(max_size: usize) -> (r: Self)
        ensures
            r@ == Seq::<u8>::empty(),
            r.spec_max_message_size() == max_size,
    {
        Self { buffer: Vec::with_capacity(8192), max_message_size: max_size }
    }

    /// Appends received bytes.
    pub fn push(&mut self, data: &[u8])
        ensures
            final(self)@ == old(self)@ + data@,
            final(self).spec_max_message_size() == old(self).spec_max_message_size(),
    {
        self.buffer.extend_from_slice(data);
        assert(self.buffer@ =~= old(self).buffer@ + data@);
    }

    /// Hands out the next whole frame and drops its bytes from the pending
    /// ones. With no whole frame pending the answer is `Ok(None)`; an
    /// oversized announcement is an error. In both cases nothing is dropped.
    pub fn decode_next(&mut self) -> (r: Result<Option<GrpcFrame>, GrpcError>)
        ensures
            final(self).spec_max_message_size() == old(self).spec_max_message_size(),
            match spec_decode(old(self)@, old(self).spec_max_message_size()) {
                Ok((m, consumed)) => {
                    &&& r matches Ok(Some(frame))
                    &&& frame@ == m
                    &&& final(self)@ == old(self)@.skip(consumed as int)
                },
                Err(GrpcError::InsufficientData { .. }) => {
                    &&& r matches Ok(None)
                    &&& final(self)@ == old(self)@
                },
                Err(e) => {
                    &&& r == Err::<Option<GrpcFrame>, GrpcError>(e)
                    &&& final(self)@ == old(self)@
                },
            },
    {
        match decode_grpc_frame_with_max_size(self.buffer.as_slice(), self.max_message_size) {
            Ok((frame, consumed)) => {
                let rest = self.buffer.split_off(consumed);
                self.buffer = rest;
                assert(self.buffer@ =~= old(self).buffer@.skip(consumed as int));
                Ok(Some(frame))
            },
            Err(GrpcError::InsufficientData { .. }) => Ok(None),
            Err(e) => Err(e),
        }
    }

    /// Whether any byte is pending.
    pub fn has_pending(&self) -> (r: bool)
        ensures
            r == (self@.len() > 0),
    {
        self.buffer.len() > 0
    }

    /// Number of pending bytes.
    pub fn pending_len(&self) -> (r: usize)
        ensures
            r == self@.len(),
    {
        self.buffer.len()
    }

    /// Drops every pending byte.
    pub fn clear(&mut self)
        ensures
            final(self)@ == Seq::<u8>::empty(),
            final(self).spec_max_message_size() == old(self).spec_max_message_size(),
    {
        self.buffer.clear();
    }
}

impl Default for GrpcFrameDecoder {
    fn default() -> (r: Self)
        ensures
            r@ == Seq::<u8>::empty(),
            r.spec_max_message_size() == GRPC_MAX_MESSAGE_SIZE,
    {
        Self::new()
    }
}

/// Feeding one encoded frame to an empty decoder and asking for the next
/// frame gives that frame back and leaves nothing pending.
pub proof fn lemma_stream_roundtrip(m: FrameModel, max_size: usize)
    requires
        m.data.len() <= u32::MAX,
        m.data.len() <= max_size,
        5 + m.data.len() <= usize::MAX,
    ensures
        spec_decode(Seq::<u8>::empty() + spec_encode(m), max_size) == Ok::<(FrameModel, usize), GrpcError>(
            (m, (5 + m.data.len()) as usize),
        ),
        (Seq::<u8>::empty() + spec_encode(m)).skip(5 + m.data.len() as int) == Seq::<u8>::empty(),
{
    lemma_decode_encode(m, Seq::empty(), max_size);
    assert(Seq::<u8>::empty() + spec_encode(m) =~= spec_encode(m) + Seq::<u8>::empty());
    assert((Seq::<u8>::empty() + spec_encode(m)).skip(5 + m.data.len() as int) =~= Seq::<u8>::empty());
}

} // verus!
