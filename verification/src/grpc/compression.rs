//! Compression of gRPC messages.
//!
//! The encodings are `identity` (no compression), `gzip` and `deflate`.
//! The compressors themselves come from the `flate2` crate.

use vstd::prelude::*;
use vstd::string::{StringExecFns, StringSliceAdditionalSpecFns};
use std::io::{Read, Write};
use flate2::read::{DeflateDecoder, GzDecoder};
use flate2::write::{DeflateEncoder, GzEncoder};
use flate2::Compression;
use crate::grpc::framing::{FrameModel, GrpcError, GrpcFrame};
use crate::text::{bytes_eq_ignore_case, eq_ignore_case, has_prefix};

verus! {

/// Compression algorithm of gRPC messages.
#[derive(Debug, Clone, Copy, PartialEq, Eq, Structural)]
pub enum GrpcCompression {
    /// No compression.
    Identity,
    /// Gzip compression.
    Gzip,
    /// Deflate compression.
    Deflate,
}

impl Default for GrpcCompression {
    fn default() -> (r: Self)
        ensures
            r == GrpcCompression::Identity,
    {
        GrpcCompression::Identity
    }
}

/// What gzip-compressing `data` at `level` with `flate2` yields; `None`
/// where the compressor reports an error.
pub uninterp spec fn gzip_compressed(data: Seq<u8>, level: u32) -> Option<Seq<u8>>;

/// What gzip-decompressing `data` with `flate2` yields; `None` where the
/// data is not a well-formed gzip stream.
pub uninterp spec fn gzip_decompressed(data: Seq<u8>) -> Option<Seq<u8>>;

/// What deflate-compressing `data` at `level` with `flate2` yields; `None`
/// where the compressor reports an error.
pub uninterp spec fn deflate_compressed(data: Seq<u8>, level: u32) -> Option<Seq<u8>>;

/// What deflate-decompressing `data` with `flate2` yields; `None` where the
/// data is not a well-formed deflate stream.
pub uninterp spec fn deflate_decompressed(data: Seq<u8>) -> Option<Seq<u8>>;

/// Whether an outcome of a compressor is the outcome named `expected`.
pub open spec fn is_outcome(r: Result<Vec<u8>, std::io::Error>, expected: Option<Seq<u8>>) -> bool {
    match expected {
        Some(bytes) => r matches Ok(v) && v@ == bytes,
        None => r is Err,
    }
}

/// Runs `flate2::write::GzEncoder` over `data`: `new` with the level,
/// `write_all`, `finish`. The outcome is named by [`gzip_compressed`].
/// Levels above 10 are left out: the encoder asserts against them.
#[verifier::external_body]
fn gzip_encode(data: &[u8], level: u32) -> (r: Result<Vec<u8>, std::io::Error>)
    requires
        level <= 10,
    ensures
        is_outcome(r, gzip_compressed(data@, level)),
{
    let mut encoder = GzEncoder::new(Vec::new(), Compression::new(level));
    encoder.write_all(data)?;
    encoder.finish()
}

/// Runs `flate2::read::GzDecoder` over `data` with `read_to_end`. The
/// outcome is named by [`gzip_decompressed`].
#[verifier::external_body]
fn gzip_decode(data: &[u8]) -> (r: Result<Vec<u8>, std::io::Error>)
    ensures
        is_outcome(r, gzip_decompressed(data@)),
{
    let mut decoder = GzDecoder::new(data);
    let mut result = Vec::new();
    decoder.read_to_end(&mut result)?;
    Ok(result)
}

/// Runs `flate2::write::DeflateEncoder` over `data`: `new` with the level,
/// `write_all`, `finish`. The outcome is named by [`deflate_compressed`].
/// Levels above 10 are left out: the encoder asserts against them.
#[verifier::external_body]
fn deflate_encode(data: &[u8], level: u32) -> (r: Result<Vec<u8>, std::io::Error>)
    requires
        level <= 10,
    ensures
        is_outcome(r, deflate_compressed(data@, level)),
{
    let mut encoder = DeflateEncoder::new(Vec::new(), Compression::new(level));
    encoder.write_all(data)?;
    encoder.finish()
}

/// Runs `flate2::read::DeflateDecoder` over `data` with `read_to_end`. The
/// outcome is named by [`deflate_decompressed`].
#[verifier::external_body]
fn deflate_decode(data: &[u8]) -> (r: Result<Vec<u8>, std::io::Error>)
    ensures
        is_outcome(r, deflate_decompressed(data@)),
{
    let mut decoder = DeflateDecoder::new(data);
    let mut result = Vec::new();
    decoder.read_to_end(&mut result)?;
    Ok(result)
}

/// The text of an I/O error. Wraps its `Display` form, of which nothing is
/// claimed.
#[verifier::external_body]
fn io_error_text(e: &std::io::Error) -> String {
    e.to_string()
}

/// Turns the outcome of a compressor into the library's result: the bytes
/// as they are, an error as a `CompressionError` whose message starts with
/// the name of the step, a colon and a space.
pub fn compression_outcome(outcome: Result<Vec<u8>, std::io::Error>, step: &str) -> (r: Result<
    Vec<u8>,
    GrpcError,
>)
    ensures
        match outcome {
            Ok(bytes) => r == Ok::<Vec<u8>, GrpcError>(bytes),
            Err(_) => r matches Err(GrpcError::CompressionError(m)) && has_prefix(m@, step@ + ": "@),
        },
{
    match outcome {
        Ok(bytes) => Ok(bytes),
        Err(e) => {
            let mut message = step.to_owned();
            message.append(": ");
            let ghost head = message@;
            message.append(io_error_text(&e).as_str());
            assert(message@.subrange(0, head.len() as int) =~= head);
            Err(GrpcError::CompressionError(message))
        },
    }
}

impl GrpcCompression {
    /// The name of the algorithm as it stands in headers.
    pub open spec fn name(self) -> Seq<char> {
        match self {
            Self::Identity => "identity"@,
            Self::Gzip => "gzip"@,
            Self::Deflate => "deflate"@,
        }
    }

    /// The algorithm that a header value names, in any letter case.
    pub open spec fn named(value: Seq<u8>) -> Option<Self> {
        if eq_ignore_case(value, "identity".spec_bytes()) {
            Some(Self::Identity)
        } else if eq_ignore_case(value, "gzip".spec_bytes()) {
            Some(Self::Gzip)
        } else if eq_ignore_case(value, "deflate".spec_bytes()) {
            Some(Self::Deflate)
        } else {
            None
        }
    }

    /// What compressing `data` at `level` yields; `None` where the
    /// compressor reports an error.
    pub open spec fn compressed(self, data: Seq<u8>, level: u32) -> Option<Seq<u8>> {
        match self {
            Self::Identity => Some(data),
            Self::Gzip => gzip_compressed(data, level),
            Self::Deflate => deflate_compressed(data, level),
        }
    }

    /// What decompressing `data` yields; `None` where the data is
    /// malformed.
    pub open spec fn decompressed(self, data: Seq<u8>) -> Option<Seq<u8>> {
        match self {
            Self::Identity => Some(data),
            Self::Gzip => gzip_decompressed(data),
            Self::Deflate => deflate_decompressed(data),
        }
    }

    /// Parses the value of a `grpc-encoding` header.
    pub fn from_bytes(value: &[u8]) -> (r: Option<Self>)
        ensures
            r == Self::named(value@),
    {
        if bytes_eq_ignore_case(value, "identity".as_bytes()) {
            Some(Self::Identity)
        } else if bytes_eq_ignore_case(value, "gzip".as_bytes()) {
            Some(Self::Gzip)
        } else if bytes_eq_ignore_case(value, "deflate".as_bytes()) {
            Some(Self::Deflate)
        } else {
            None
        }
    }

    /// The name of the algorithm, as bytes.
    pub fn as_bytes(&self) -> (r: &'static [u8])
        ensures
            r@ == vstd::utf8::encode_utf8(self.name()),
    {
        match self {
            Self::Identity => "identity".as_bytes(),
            Self::Gzip => "gzip".as_bytes(),
            Self::Deflate => "deflate".as_bytes(),
        }
    }

    /// The name of the algorithm.
    pub fn as_str(&self) -> (r: &'static str)
        ensures
            r@ == self.name(),
    {
        match self {
            Self::Identity => "identity",
            Self::Gzip => "gzip",
            Self::Deflate => "deflate",
        }
    }

    /// Whether the algorithm compresses at all.
    pub fn is_compressed(&self) -> (r: bool)
        ensures
            r == (*self != Self::Identity),
    {
        !matches!(self, Self::Identity)
    }

    /// Compresses `data`. `identity` returns the data unchanged and takes
    /// any level; the compressors take levels up to 10.
    pub fn compress(&self, data: &[u8], level: u32) -> (r: Result<Vec<u8>, GrpcError>)
        requires
            *self == Self::Identity || level <= 10,
        ensures
            match self.compressed(data@, level) {
                Some(bytes) => r matches Ok(v) && v@ == bytes,
                None => r matches Err(GrpcError::CompressionError(_)),
            },
    {
        match self {
            Self::Identity => Ok(vstd::slice::slice_to_vec(data)),
            Self::Gzip => compression_outcome(gzip_encode(data, level), "gzip compress"),
            Self::Deflate => compression_outcome(deflate_encode(data, level), "deflate compress"),
        }
    }

    /// Decompresses `data`. `identity` returns the data unchanged.
    pub fn decompress(&self, data: &[u8]) -> (r: Result<Vec<u8>, GrpcError>)
        ensures
            match self.decompressed(data@) {
                Some(bytes) => r matches Ok(v) && v@ == bytes,
                None => r matches Err(GrpcError::CompressionError(_)),
            },
    {
        match self {
            Self::Identity => Ok(vstd::slice::slice_to_vec(data)),
            Self::Gzip => compression_outcome(gzip_decode(data), "gzip decompress"),
            Self::Deflate => compression_outcome(deflate_decode(data), "deflate decompress"),
        }
    }
}

/// Compression settings of a gRPC route.
#[derive(Debug, Clone)]
pub struct GrpcCompressionConfig {
    /// Algorithms switched on.
    pub enabled: Vec<GrpcCompression>,
    /// Algorithm preferred for responses.
    pub preferred: GrpcCompression,
    /// Compression level (1 to 9; higher is smaller and slower).
    pub level: u32,
    /// Messages of at most this many bytes are not compressed.
    pub min_size: usize,
}

/// The names of a list of algorithms, joined by commas.
pub open spec fn joined_names(list: Seq<GrpcCompression>) -> Seq<char>
    decreases list.len(),
{
    if list.len() == 0 {
        Seq::empty()
    } else if list.len() == 1 {
        list[0].name()
    } else {
        joined_names(list.drop_last()) + seq![','] + list.last().name()
    }
}

/// The frame that carries a message under the settings of a route. The
/// message is compressed with `algorithm` where it is longer than
/// `min_size`; the compressed form is taken, and the frame flagged, only
/// where it is shorter than the message. Without an algorithm that
/// compresses, with a level beyond 10, which the compressors do not
/// take, or where the compressor fails, the message goes as it is.
pub open spec fn framed(algorithm: GrpcCompression, level: u32, min_size: usize, message: Seq<u8>) -> FrameModel {
    let plain = FrameModel { compressed: false, data: message };
    if algorithm == GrpcCompression::Identity || level > 10 || message.len() <= min_size {
        plain
    } else {
        match algorithm.compressed(message, level) {
            Some(bytes) => if bytes.len() < message.len() {
                FrameModel { compressed: true, data: bytes }
            } else {
                plain
            },
            None => plain,
        }
    }
}

impl GrpcCompressionConfig {
    /// Puts a message into a frame, compressed with `algorithm` where
    /// that pays.
    pub fn frame_message(&self, algorithm: GrpcCompression, message: Vec<u8>) -> (r: GrpcFrame)
        ensures
            r@ == framed(algorithm, self.level, self.min_size, message@),
    {
        if !algorithm.is_compressed() || self.level > 10 || message.len() <= self.min_size {
            return GrpcFrame { compressed: false, data: message };
        }
        match algorithm.compress(message.as_slice(), self.level) {
            Ok(bytes) => {
                if bytes.len() < message.len() {
                    GrpcFrame { compressed: true, data: bytes }
                } else {
                    GrpcFrame { compressed: false, data: message }
                }
            },
            Err(_) => GrpcFrame { compressed: false, data: message },
        }
    }

    /// Whether `encoding` is switched on.
    pub open spec fn spec_supports(&self, encoding: GrpcCompression) -> bool {
        self.enabled@.contains(encoding)
    }

    /// The algorithm chosen for a client that accepts `accept`: the
    /// preferred one where the client accepts it and it is switched on;
    /// else the first that the client lists and that is switched on; else
    /// `identity`.
    pub open spec fn spec_negotiate(&self, accept: Seq<GrpcCompression>) -> GrpcCompression {
        if accept.contains(self.preferred) && self.spec_supports(self.preferred) {
            self.preferred
        } else {
            self.first_supported(accept)
        }
    }

    /// The first algorithm of `accept` that is switched on; `identity`
    /// where none is.
    pub open spec fn first_supported(&self, accept: Seq<GrpcCompression>) -> GrpcCompression
        decreases accept.len(),
    {
        if accept.len() == 0 {
            GrpcCompression::Identity
        } else if self.spec_supports(accept[0]) {
            accept[0]
        } else {
            self.first_supported(accept.drop_first())
        }
    }

    /// Settings without compression.
    pub fn identity_only() -> (r: Self)
        ensures
            r.enabled@ == seq![GrpcCompression::Identity],
            r.preferred == GrpcCompression::Identity,
            r.level == 0,
            r.min_size == 0,
    {
        let mut enabled: Vec<GrpcCompression> = Vec::new();
        enabled.push(GrpcCompression::Identity);
        Self { enabled, preferred: GrpcCompression::Identity, level: 0, min_size: 0 }
    }

    /// Whether `encoding` is switched on.
    pub fn supports(&self, encoding: GrpcCompression) -> (r: bool)
        ensures
            r == self.spec_supports(encoding),
    {
        contains(self.enabled.as_slice(), encoding)
    }

    /// Chooses the algorithm for a response to a client that accepts
    /// `accept`.
    pub fn negotiate(&self, accept: &[GrpcCompression]) -> (r: GrpcCompression)
        ensures
            r == self.spec_negotiate(accept@),
    {
        if contains(accept, self.preferred) && self.supports(self.preferred) {
            return self.preferred;
        }
        let mut i: usize = 0;
        assert(accept@.skip(0) =~= accept@);
        while i < accept.len()
            invariant
                i <= accept.len(),
                !(accept@.contains(self.preferred) && self.spec_supports(self.preferred)),
                self.first_supported(accept@.skip(i as int)) == self.first_supported(accept@),
            decreases accept.len() - i,
        {
            if self.supports(accept[i]) {
                return accept[i];
            }
            assert(accept@.skip(i as int).drop_first() =~= accept@.skip(i + 1));
            i += 1;
        }
        GrpcCompression::Identity
    }

    /// The value of the `grpc-accept-encoding` header: the names of the
    /// algorithms switched on, joined by commas.
    pub fn accept_encoding_header(&self) -> (r: String)
        ensures
            r@ == joined_names(self.enabled@),
    {
        let mut out = String::new();
        let mut i: usize = 0;
        while i < self.enabled.len()
            invariant
                i <= self.enabled.len(),
                out@ == joined_names(self.enabled@.subrange(0, i as int)),
            decreases self.enabled.len() - i,
        {
            let ghost prefix = self.enabled@.subrange(0, i + 1);
            assert(prefix.drop_last() =~= self.enabled@.subrange(0, i as int));
            if i > 0 {
                proof {
                    reveal_strlit(",");
                }
                out.append(",");
            }
            out.append(self.enabled[i].as_str());
            assert(out@ =~= joined_names(prefix));
            i += 1;
        }
        assert(self.enabled@.subrange(0, self.enabled.len() as int) =~= self.enabled@);
        out
    }
}

impl Default for GrpcCompressionConfig {
    fn default() -> (r: Self)
        ensures
            r.enabled@ == seq![GrpcCompression::Identity, GrpcCompression::Gzip],
            r.preferred == GrpcCompression::Gzip,
            r.level == 6,
            r.min_size == 1024,
    {
        let mut enabled: Vec<GrpcCompression> = Vec::new();
        enabled.push(GrpcCompression::Identity);
        enabled.push(GrpcCompression::Gzip);
        Self { enabled, preferred: GrpcCompression::Gzip, level: 6, min_size: 1024 }
    }
}

fn contains(list: &[GrpcCompression], encoding: GrpcCompression) -> (r: bool)
    ensures
        r == list@.contains(encoding),
{
    let mut i: usize = 0;
    while i < list.len()
        invariant
            i <= list.len(),
            forall|j: int| 0 <= j < i ==> list@[j] != encoding,
        decreases list.len() - i,
    {
        if list[i] == encoding {
            return true;
        }
        i += 1;
    }
    false
}

} // verus!
