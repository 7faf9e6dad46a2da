//! gRPC-Web: the browser-compatible variant of gRPC.
//!
//! - `application/grpc-web`: binary body, trailers sent as a last frame
//! - `application/grpc-web-text`: the same, base64-encoded as a whole
//!
//! A response is the message frames followed by one trailer frame: the flag
//! byte `0x80`, a four-byte big-endian length, and the trailers written as
//! `name: value\r\n` lines.

use vstd::prelude::*;
use vstd::string::{StringExecFns, StringSliceAdditionalSpecFns};
use std::time::Duration;
use crate::grpc::framing::{be32, length_field};
use crate::text::{
    bytes_start_with_ignore_case, decimal_digits, has_prefix_ignore_case, header_list, join_utf8,
    joined_utf8, push_decimal, str_eq, texts,
};
use crate::time::duration_nanos;

verus! {

/// Prefix that every gRPC-Web content type starts with.
pub const GRPC_WEB_CONTENT_TYPE_PREFIX: &'static str = "application/grpc-web";

/// Content type of the text variant, whose body is base64 as a whole.
pub const GRPC_WEB_TEXT_CONTENT_TYPE: &'static str = "application/grpc-web-text";

/// Whether a content type announces gRPC-Web: it starts with
/// `application/grpc-web`, in any letter case.
pub open spec fn spec_is_grpc_web_content_type(content_type: Seq<u8>) -> bool {
    has_prefix_ignore_case(content_type, "application/grpc-web".spec_bytes())
}

/// Whether a content type announces the text variant of gRPC-Web: it
/// starts with `application/grpc-web-text`, in any letter case.
pub open spec fn spec_is_grpc_web_text(content_type: Seq<u8>) -> bool {
    has_prefix_ignore_case(content_type, "application/grpc-web-text".spec_bytes())
}

/// Whether a content type announces gRPC-Web.
pub fn is_grpc_web_content_type(content_type: &[u8]) -> (r: bool)
    ensures
        r == spec_is_grpc_web_content_type(content_type@),
{
    bytes_start_with_ignore_case(content_type, "application/grpc-web".as_bytes())
}

/// Whether a content type announces the text variant of gRPC-Web.
pub fn is_grpc_web_text(content_type: &[u8]) -> (r: bool)
    ensures
        r == spec_is_grpc_web_text(content_type@),
{
    bytes_start_with_ignore_case(content_type, "application/grpc-web-text".as_bytes())
}

/// What can go wrong in the gRPC-Web bridge.
#[derive(Debug, Clone)]
pub enum GrpcWebError {
    /// The body is not valid base64.
    InvalidBase64,
    /// The trailers are malformed.
    InvalidTrailers,
    /// A required header is missing.
    MissingHeader(String),
}

impl GrpcWebError {
    /// The text of the error.
    pub open spec fn text(self) -> Seq<char> {
        match self {
            GrpcWebError::InvalidBase64 => "Invalid base64 encoding"@,
            GrpcWebError::InvalidTrailers => "Invalid gRPC-Web trailers"@,
            GrpcWebError::MissingHeader(h) => "Missing header: "@ + h@,
        }
    }

    /// The text of the error, for logs and responses.
    pub fn to_string(&self) -> (r: String)
        ensures
            r@ == self.text(),
    {
        match self {
            GrpcWebError::InvalidBase64 => "Invalid base64 encoding".to_owned(),
            GrpcWebError::InvalidTrailers => "Invalid gRPC-Web trailers".to_owned(),
            GrpcWebError::MissingHeader(h) => {
                let mut out = "Missing header: ".to_owned();
                out.append(h.as_str());
                out
            },
        }
    }
}

/// The base64 character of a six-bit value.
pub open spec fn b64_char(v: u8) -> u8 {
    if v < 26 {
        (0x41 + v) as u8
    } else if v < 52 {
        (0x61 + v - 26) as u8
    } else if v < 62 {
        (0x30 + v - 52) as u8
    } else if v == 62 {
        0x2b
    } else {
        0x2f
    }
}

/// The six-bit value of a base64 character. The padding character `=`
/// counts as zero wherever it stands.
pub open spec fn b64_value(c: u8) -> Option<u8> {
    if 0x41 <= c <= 0x5a {
        Some((c - 0x41) as u8)
    } else if 0x61 <= c <= 0x7a {
        Some((c - 0x61 + 26) as u8)
    } else if 0x30 <= c <= 0x39 {
        Some((c - 0x30 + 52) as u8)
    } else if c == 0x2b {
        Some(62)
    } else if c == 0x2f {
        Some(63)
    } else if c == 0x3d {
        Some(0)
    } else {
        None
    }
}

/// The four characters that encode three bytes.
pub open spec fn encode_triple(x: u8, y: u8, z: u8) -> Seq<u8> {
    seq![
        b64_char(x >> 2),
        b64_char(((x & 0x03) << 4) | (y >> 4)),
        b64_char(((y & 0x0f) << 2) | (z >> 6)),
        b64_char(z & 0x3f),
    ]
}

/// The base64 form of a byte string, with `=` padding.
pub open spec fn spec_base64_encode(data: Seq<u8>) -> Seq<u8>
    decreases data.len(),
{
    if data.len() == 0 {
        Seq::empty()
    } else if data.len() == 1 {
        seq![b64_char(data[0] >> 2), b64_char((data[0] & 0x03) << 4), 0x3d, 0x3d]
    } else if data.len() == 2 {
        seq![
            b64_char(data[0] >> 2),
            b64_char(((data[0] & 0x03) << 4) | (data[1] >> 4)),
            b64_char((data[1] & 0x0f) << 2),
            0x3d,
        ]
    } else {
        encode_triple(data[0], data[1], data[2]) + spec_base64_encode(data.skip(3))
    }
}

/// A byte string without its line feeds and carriage returns.
pub open spec fn strip_newlines(data: Seq<u8>) -> Seq<u8>
    decreases data.len(),
{
    if data.len() == 0 {
        Seq::empty()
    } else if data.last() == 0x0a || data.last() == 0x0d {
        strip_newlines(data.drop_last())
    } else {
        strip_newlines(data.drop_last()).push(data.last())
    }
}

/// The bytes that four base64 characters stand for: one, two or three,
/// according to the padding in the last two places.
pub open spec fn decode_quad(a: u8, b: u8, c: u8, d: u8) -> Option<Seq<u8>> {
    match (b64_value(a), b64_value(b), b64_value(c), b64_value(d)) {
        (Some(v0), Some(v1), Some(v2), Some(v3)) => {
            let first = seq![(v0 << 2) | (v1 >> 4)];
            let second = if c != 0x3d {
                seq![(v1 << 4) | (v2 >> 2)]
            } else {
                Seq::empty()
            };
            let third = if d != 0x3d {
                seq![(v2 << 6) | v3]
            } else {
                Seq::empty()
            };
            Some(first + second + third)
        },
        _ => None,
    }
}

/// The bytes that a string of base64 characters stands for, taken four
/// characters at a time; `None` where a character is not base64 or the
/// length is no multiple of four.
pub open spec fn decode_quads(chars: Seq<u8>) -> Option<Seq<u8>>
    decreases chars.len(),
{
    if chars.len() == 0 {
        Some(Seq::empty())
    } else if chars.len() < 4 {
        None
    } else {
        match (decode_quad(chars[0], chars[1], chars[2], chars[3]), decode_quads(chars.skip(4))) {
            (Some(head), Some(rest)) => Some(head + rest),
            _ => None,
        }
    }
}

/// The bytes that a base64 text stands for. Line breaks are ignored.
pub open spec fn spec_base64_decode(data: Seq<u8>) -> Option<Seq<u8>> {
    decode_quads(strip_newlines(data))
}

proof fn lemma_b64_char(v: u8)
    requires
        v < 64,
    ensures
        b64_value(b64_char(v)) == Some(v),
        b64_char(v) != 0x3d,
        b64_char(v) != 0x0a,
        b64_char(v) != 0x0d,
{
}

proof fn lemma_strip_keeps(s: Seq<u8>)
    requires
        forall|i: int| 0 <= i < s.len() ==> s[i] != 0x0a && s[i] != 0x0d,
    ensures
        strip_newlines(s) == s,
    decreases s.len(),
{
    if s.len() > 0 {
        lemma_strip_keeps(s.drop_last());
        assert(s.drop_last().push(s.last()) =~= s);
    }
}

proof fn lemma_triple_bits(x: u8, y: u8, z: u8)
    ensures
        x >> 2 < 64,
        ((x & 0x03) << 4) | (y >> 4) < 64,
        ((y & 0x0f) << 2) | (z >> 6) < 64,
        z & 0x3f < 64,
        (x & 0x03) << 4 < 64,
        (y & 0x0f) << 2 < 64,
        ((x >> 2) << 2) | ((((x & 0x03) << 4) | (y >> 4)) >> 4) == x,
        ((((x & 0x03) << 4) | (y >> 4)) << 4) | ((((y & 0x0f) << 2) | (z >> 6)) >> 2) == y,
        ((((y & 0x0f) << 2) | (z >> 6)) << 6) | (z & 0x3f) == z,
        ((x >> 2) << 2) | (((x & 0x03) << 4) >> 4) == x,
        ((((x & 0x03) << 4) | (y >> 4)) << 4) | (((y & 0x0f) << 2) >> 2) == y,
{
    assert(x >> 2 < 64) by (bit_vector);
    assert(((x & 0x03) << 4) | (y >> 4) < 64) by (bit_vector);
    assert(((y & 0x0f) << 2) | (z >> 6) < 64) by (bit_vector);
    assert(z & 0x3f < 64) by (bit_vector);
    assert((x & 0x03) << 4 < 64) by (bit_vector);
    assert((y & 0x0f) << 2 < 64) by (bit_vector);
    assert(((x >> 2) << 2) | ((((x & 0x03) << 4) | (y >> 4)) >> 4) == x) by (bit_vector);
    assert(((((x & 0x03) << 4) | (y >> 4)) << 4) | ((((y & 0x0f) << 2) | (z >> 6)) >> 2) == y)
        by (bit_vector);
    assert(((((y & 0x0f) << 2) | (z >> 6)) << 6) | (z & 0x3f) == z) by (bit_vector);
    assert(((x >> 2) << 2) | (((x & 0x03) << 4) >> 4) == x) by (bit_vector);
    assert(((((x & 0x03) << 4) | (y >> 4)) << 4) | (((y & 0x0f) << 2) >> 2) == y) by (bit_vector);
}

/// The base64 form of a byte string holds no line break and decodes, four
/// characters at a time, to that byte string.
pub proof fn lemma_base64_quads(data: Seq<u8>)
    ensures
        decode_quads(spec_base64_encode(data)) == Some(data),
        forall|i: int|
            0 <= i < spec_base64_encode(data).len() ==> spec_base64_encode(data)[i] != 0x0a
                && spec_base64_encode(data)[i] != 0x0d,
    decreases data.len(),
{
    let e = spec_base64_encode(data);
    if data.len() == 0 {
    } else if data.len() == 1 {
        let x = data[0];
        lemma_triple_bits(x, 0, 0);
        lemma_b64_char(x >> 2);
        lemma_b64_char((x & 0x03) << 4);
        assert(e.skip(4) =~= Seq::<u8>::empty());
        assert(decode_quads(e.skip(4)) == Some(Seq::<u8>::empty()));
        assert(decode_quad(e[0], e[1], e[2], e[3]) == Some(seq![x] + Seq::<u8>::empty() + Seq::<u8>::empty()));
        assert(seq![x] + Seq::<u8>::empty() + Seq::<u8>::empty() + Seq::<u8>::empty() =~= data);
    } else if data.len() == 2 {
        let x = data[0];
        let y = data[1];
        lemma_triple_bits(x, y, 0);
        lemma_b64_char(x >> 2);
        lemma_b64_char(((x & 0x03) << 4) | (y >> 4));
        lemma_b64_char((y & 0x0f) << 2);
        assert(e.skip(4) =~= Seq::<u8>::empty());
        assert(decode_quads(e.skip(4)) == Some(Seq::<u8>::empty()));
        assert(decode_quad(e[0], e[1], e[2], e[3]) == Some(seq![x] + seq![y] + Seq::<u8>::empty()));
        assert(seq![x] + seq![y] + Seq::<u8>::empty() + Seq::<u8>::empty() =~= data);
    } else {
        let x = data[0];
        let y = data[1];
        let z = data[2];
        lemma_triple_bits(x, y, z);
        lemma_b64_char(x >> 2);
        lemma_b64_char(((x & 0x03) << 4) | (y >> 4));
        lemma_b64_char(((y & 0x0f) << 2) | (z >> 6));
        lemma_b64_char(z & 0x3f);
        lemma_base64_quads(data.skip(3));
        let rest = spec_base64_encode(data.skip(3));
        assert(e.skip(4) =~= rest);
        assert(decode_quad(e[0], e[1], e[2], e[3]) == Some(seq![x] + seq![y] + seq![z]));
        assert(seq![x] + seq![y] + seq![z] + data.skip(3) =~= data);
        assert forall|i: int| 0 <= i < e.len() implies e[i] != 0x0a && e[i] != 0x0d by {
            if i >= 4 {
                assert(e[i] == rest[i - 4]);
            }
        }
    }
}

/// Decoding the base64 form of a byte string gives the byte string back.
pub proof fn lemma_base64_roundtrip(data: Seq<u8>)
    ensures
        spec_base64_decode(spec_base64_encode(data)) == Some(data),
{
    lemma_base64_quads(data);
    lemma_strip_keeps(spec_base64_encode(data));
}

fn b64_char_of(v: u8) -> (r: u8)
    requires
        v < 64,
    ensures
        r == b64_char(v),
{
    if v < 26 {
        0x41 + v
    } else if v < 52 {
        0x61 + (v - 26)
    } else if v < 62 {
        0x30 + (v - 52)
    } else if v == 62 {
        0x2b
    } else {
        0x2f
    }
}

fn b64_value_of(c: u8) -> (r: Option<u8>)
    ensures
        r == b64_value(c),
{
    if 0x41 <= c && c <= 0x5a {
        Some(c - 0x41)
    } else if 0x61 <= c && c <= 0x7a {
        Some(c - 0x61 + 26)
    } else if 0x30 <= c && c <= 0x39 {
        Some(c - 0x30 + 52)
    } else if c == 0x2b {
        Some(62)
    } else if c == 0x2f {
        Some(63)
    } else if c == 0x3d {
        Some(0)
    } else {
        None
    }
}

/// Encodes a byte string in base64, with padding.
pub fn base64_encode(data: &[u8]) -> (r: Vec<u8>)
    ensures
        r@ == spec_base64_encode(data@),
{
    let mut out: Vec<u8> = Vec::new();
    let mut i: usize = 0;
    assert(data@.skip(0) =~= data@);
    assert(out@ + spec_base64_encode(data@) =~= spec_base64_encode(data@));
    while data.len() - i >= 3
        invariant
            i <= data.len(),
            out@ + spec_base64_encode(data@.skip(i as int)) == spec_base64_encode(data@),
        decreases data.len() - i,
    {
        let x = data[i];
        let y = data[i + 1];
        let z = data[i + 2];
        let ghost before = out@;
        let ghost rest = data@.skip(i as int);
        proof {
            lemma_triple_bits(x, y, z);
            assert(rest.skip(3) =~= data@.skip(i + 3));
        }
        out.push(b64_char_of(x >> 2));
        out.push(b64_char_of(((x & 0x03) << 4) | (y >> 4)));
        out.push(b64_char_of(((y & 0x0f) << 2) | (z >> 6)));
        out.push(b64_char_of(z & 0x3f));
        assert(out@ =~= before + encode_triple(x, y, z));
        assert(out@ + spec_base64_encode(data@.skip(i + 3)) =~= before + spec_base64_encode(rest));
        i += 3;
    }
    let ghost before = out@;
    let ghost rest = data@.skip(i as int);
    if data.len() - i == 1 {
        let x = data[i];
        proof {
            lemma_triple_bits(x, 0, 0);
        }
        out.push(b64_char_of(x >> 2));
        out.push(b64_char_of((x & 0x03) << 4));
        out.push(0x3d);
        out.push(0x3d);
        assert(out@ =~= before + spec_base64_encode(rest));
    } else if data.len() - i == 2 {
        let x = data[i];
        let y = data[i + 1];
        proof {
            lemma_triple_bits(x, y, 0);
        }
        out.push(b64_char_of(x >> 2));
        out.push(b64_char_of(((x & 0x03) << 4) | (y >> 4)));
        out.push(b64_char_of((y & 0x0f) << 2));
        out.push(0x3d);
        assert(out@ =~= before + spec_base64_encode(rest));
    } else {
        assert(out@ =~= before + spec_base64_encode(rest));
    }
    out
}

fn without_newlines(data: &[u8]) -> (r: Vec<u8>)
    ensures
        r@ == strip_newlines(data@),
{
    let mut out: Vec<u8> = Vec::new();
    let mut i: usize = 0;
    while i < data.len()
        invariant
            i <= data.len(),
            out@ == strip_newlines(data@.subrange(0, i as int)),
        decreases data.len() - i,
    {
        assert(data@.subrange(0, i + 1).drop_last() =~= data@.subrange(0, i as int));
        if data[i] != 0x0a && data[i] != 0x0d {
            out.push(data[i]);
        }
        i += 1;
    }
    assert(data@.subrange(0, data.len() as int) =~= data@);
    out
}

/// Decodes a base64 text. Line breaks are skipped; any other character
/// outside the alphabet, or a length that is no multiple of four, is an
/// error.
pub fn base64_decode(data: &[u8]) -> (r: Result<Vec<u8>, GrpcWebError>)
    ensures
        match r {
            Ok(bytes) => spec_base64_decode(data@) == Some(bytes@),
            Err(e) => e is InvalidBase64 && spec_base64_decode(data@) is None,
        },
{
    let chars = without_newlines(data);
    let mut out: Vec<u8> = Vec::new();
    let mut i: usize = 0;
    assert(chars@.skip(0) =~= chars@);
    while i < chars.len()
        invariant
            i <= chars.len(),
            chars@ == strip_newlines(data@),
            match decode_quads(chars@.skip(i as int)) {
                Some(rest) => decode_quads(chars@) == Some(out@ + rest),
                None => decode_quads(chars@) is None,
            },
        decreases chars.len() - i,
    {
        let ghost tail = chars@.skip(i as int);
        if chars.len() - i < 4 {
            assert(decode_quads(tail) is None);
            return Err(GrpcWebError::InvalidBase64);
        }
        let c0 = chars[i];
        let c1 = chars[i + 1];
        let c2 = chars[i + 2];
        let c3 = chars[i + 3];
        assert(tail.skip(4) =~= chars@.skip(i + 4));
        let v0 = match b64_value_of(c0) {
            Some(v) => v,
            None => { return Err(GrpcWebError::InvalidBase64); },
        };
        let v1 = match b64_value_of(c1) {
            Some(v) => v,
            None => { return Err(GrpcWebError::InvalidBase64); },
        };
        let v2 = match b64_value_of(c2) {
            Some(v) => v,
            None => { return Err(GrpcWebError::InvalidBase64); },
        };
        let v3 = match b64_value_of(c3) {
            Some(v) => v,
            None => { return Err(GrpcWebError::InvalidBase64); },
        };
        let ghost before = out@;
        out.push((v0 << 2) | (v1 >> 4));
        if c2 != 0x3d {
            out.push((v1 << 4) | (v2 >> 2));
        }
        if c3 != 0x3d {
            out.push((v2 << 6) | v3);
        }
        proof {
            let head = decode_quad(c0, c1, c2, c3)->0;
            assert(out@ =~= before + head);
            match decode_quads(tail.skip(4)) {
                Some(rest) => {
                    assert(out@ + rest =~= before + (head + rest));
                },
                None => {},
            }
        }
        i += 4;
    }
    assert(chars@.skip(i as int) =~= Seq::<u8>::empty());
    assert(out@ + Seq::<u8>::empty() =~= out@);
    Ok(out)
}

/// CORS settings of a gRPC-Web route.
#[derive(Debug, Clone)]
pub struct GrpcWebCorsConfig {
    /// Origins allowed to call; `*` allows every origin.
    pub allowed_origins: Vec<String>,
    /// Request headers allowed.
    pub allowed_headers: Vec<String>,
    /// Response headers that the browser may read.
    pub exposed_headers: Vec<String>,
    /// Whether credentials are allowed.
    pub allow_credentials: bool,
    /// How long a preflight answer may be cached.
    pub max_age: Duration,
}

impl GrpcWebCorsConfig {
    /// Whether the settings allow the origin `origin`: the list of allowed
    /// origins holds `*` or the origin itself.
    pub open spec fn allows(&self, origin: Seq<char>) -> bool {
        exists|i: int|
            0 <= i < self.allowed_origins@.len() && (#[trigger] self.allowed_origins@[i]@ == "*"@
                || self.allowed_origins@[i]@ == origin)
    }

    /// Whether the list of allowed origins holds `*`.
    pub open spec fn allows_any(&self) -> bool {
        exists|i: int| 0 <= i < self.allowed_origins@.len() && #[trigger] self.allowed_origins@[i]@ == "*"@
    }

    /// The `access-control-allow-origin` header for `origin`, where the
    /// origin is allowed: `*` where every origin is, else the origin.
    pub open spec fn origin_header(&self, origin: Seq<char>) -> Seq<(Seq<u8>, Seq<u8>)> {
        if self.allows(origin) {
            seq![
                (
                    "access-control-allow-origin".spec_bytes(),
                    if self.allows_any() {
                        "*".spec_bytes()
                    } else {
                        vstd::utf8::encode_utf8(origin)
                    },
                ),
            ]
        } else {
            Seq::empty()
        }
    }

    /// The `access-control-expose-headers` header, where any header is
    /// exposed.
    pub open spec fn expose_header(&self) -> Seq<(Seq<u8>, Seq<u8>)> {
        if self.exposed_headers@.len() > 0 {
            seq![
                (
                    "access-control-expose-headers".spec_bytes(),
                    joined_utf8(texts(self.exposed_headers@), ", ".spec_bytes()),
                ),
            ]
        } else {
            Seq::empty()
        }
    }

    /// The `access-control-allow-credentials` header, where credentials are
    /// allowed.
    pub open spec fn credentials_header(&self) -> Seq<(Seq<u8>, Seq<u8>)> {
        if self.allow_credentials {
            seq![("access-control-allow-credentials".spec_bytes(), "true".spec_bytes())]
        } else {
            Seq::empty()
        }
    }

    /// The headers that answer a preflight request from `origin`.
    pub open spec fn spec_preflight_headers(&self, origin: Seq<char>) -> Seq<(Seq<u8>, Seq<u8>)> {
        self.origin_header(origin) + seq![
            ("access-control-allow-methods".spec_bytes(), "POST, OPTIONS".spec_bytes()),
            (
                "access-control-allow-headers".spec_bytes(),
                joined_utf8(texts(self.allowed_headers@), ", ".spec_bytes()),
            ),
        ] + self.expose_header() + self.credentials_header() + seq![
            (
                "access-control-max-age".spec_bytes(),
                decimal_digits(duration_nanos(self.max_age) / 1_000_000_000),
            ),
        ]
    }

    /// The CORS headers added to a response to a request from `origin`:
    /// none where the origin is not allowed.
    pub open spec fn spec_response_headers(&self, origin: Seq<char>) -> Seq<(Seq<u8>, Seq<u8>)> {
        if self.allows(origin) {
            self.origin_header(origin) + self.expose_header() + self.credentials_header()
        } else {
            Seq::empty()
        }
    }

    /// Settings that allow every origin.
    pub fn permissive() -> (r: Self)
        ensures
            r.is_permissive(),
    {
        Self::default()
    }

    /// Whether these are the settings that allow every origin: the headers
    /// `content-type`, `x-grpc-web`, `x-user-agent` and `grpc-timeout` are
    /// allowed, `grpc-status` and `grpc-message` exposed, credentials are
    /// not allowed, and preflight answers are cached for a day.
    pub open spec fn is_permissive(&self) -> bool {
        &&& texts(self.allowed_origins@) == seq!["*"@]
        &&& self.has_default_headers()
    }

    /// Whether everything but the allowed origins is as in the permissive
    /// settings.
    pub open spec fn has_default_headers(&self) -> bool {
        &&& texts(self.allowed_headers@) == seq![
            "content-type"@,
            "x-grpc-web"@,
            "x-user-agent"@,
            "grpc-timeout"@,
        ]
        &&& texts(self.exposed_headers@) == seq!["grpc-status"@, "grpc-message"@]
        &&& !self.allow_credentials
        &&& duration_nanos(self.max_age) == 86400 * 1_000_000_000
    }

    /// Settings that allow the origins `origins` only.
    pub fn with_origins(origins: Vec<String>) -> (r: Self)
        ensures
            r.allowed_origins == origins,
            r.has_default_headers(),
    {
        let base = Self::default();
        Self {
            allowed_origins: origins,
            allowed_headers: base.allowed_headers,
            exposed_headers: base.exposed_headers,
            allow_credentials: base.allow_credentials,
            max_age: base.max_age,
        }
    }

    /// Whether the settings allow `origin`.
    pub fn is_origin_allowed(&self, origin: &str) -> (r: bool)
        ensures
            r == self.allows(origin@),
    {
        let mut i: usize = 0;
        while i < self.allowed_origins.len()
            invariant
                i <= self.allowed_origins.len(),
                forall|j: int|
                    0 <= j < i ==> !(#[trigger] self.allowed_origins@[j]@ == "*"@
                        || self.allowed_origins@[j]@ == origin@),
            decreases self.allowed_origins.len() - i,
        {
            let o = self.allowed_origins[i].as_str();
            if str_eq(o, "*") || str_eq(o, origin) {
                return true;
            }
            i += 1;
        }
        false
    }

    fn allows_any_origin(&self) -> (r: bool)
        ensures
            r == self.allows_any(),
    {
        let mut i: usize = 0;
        while i < self.allowed_origins.len()
            invariant
                i <= self.allowed_origins.len(),
                forall|j: int| 0 <= j < i ==> !(#[trigger] self.allowed_origins@[j]@ == "*"@),
            decreases self.allowed_origins.len() - i,
        {
            if str_eq(self.allowed_origins[i].as_str(), "*") {
                return true;
            }
            i += 1;
        }
        false
    }

    fn push_origin_header(&self, headers: &mut Vec<(Vec<u8>, Vec<u8>)>, origin: &str)
        requires
            self.allows(origin@),
        ensures
            header_list(final(headers)@) == header_list(old(headers)@) + self.origin_header(origin@),
    {
        let value = if self.allows_any_origin() {
            vstd::slice::slice_to_vec("*".as_bytes())
        } else {
            vstd::slice::slice_to_vec(origin.as_bytes())
        };
        headers.push((vstd::slice::slice_to_vec("access-control-allow-origin".as_bytes()), value));
        assert(header_list(headers@) =~= header_list(old(headers)@) + self.origin_header(origin@));
    }

    fn push_expose_header(&self, headers: &mut Vec<(Vec<u8>, Vec<u8>)>)
        ensures
            header_list(final(headers)@) == header_list(old(headers)@) + self.expose_header(),
    {
        if self.exposed_headers.len() > 0 {
            let exposed = join_utf8(&self.exposed_headers, ", ".as_bytes());
            headers.push((vstd::slice::slice_to_vec("access-control-expose-headers".as_bytes()), exposed));
        }
        assert(header_list(headers@) =~= header_list(old(headers)@) + self.expose_header());
    }

    fn push_credentials_header(&self, headers: &mut Vec<(Vec<u8>, Vec<u8>)>)
        ensures
            header_list(final(headers)@) == header_list(old(headers)@) + self.credentials_header(),
    {
        if self.allow_credentials {
            headers.push(
                (
                    vstd::slice::slice_to_vec("access-control-allow-credentials".as_bytes()),
                    vstd::slice::slice_to_vec("true".as_bytes()),
                ),
            );
        }
        assert(header_list(headers@) =~= header_list(old(headers)@) + self.credentials_header());
    }

    /// The headers that answer a preflight request from `origin`.
    pub fn preflight_headers(&self, origin: &str) -> (r: Vec<(Vec<u8>, Vec<u8>)>)
        ensures
            header_list(r@) == self.spec_preflight_headers(origin@),
    {
        let mut headers: Vec<(Vec<u8>, Vec<u8>)> = Vec::new();
        if self.is_origin_allowed(origin) {
            self.push_origin_header(&mut headers, origin);
        }
        let ghost h1 = header_list(headers@);
        assert(h1 =~= self.origin_header(origin@));
        headers.push(
            (
                vstd::slice::slice_to_vec("access-control-allow-methods".as_bytes()),
                vstd::slice::slice_to_vec("POST, OPTIONS".as_bytes()),
            ),
        );
        let allowed = join_utf8(&self.allowed_headers, ", ".as_bytes());
        headers.push((vstd::slice::slice_to_vec("access-control-allow-headers".as_bytes()), allowed));
        let ghost h2 = header_list(headers@);
        assert(h2 =~= h1 + seq![
            ("access-control-allow-methods".spec_bytes(), "POST, OPTIONS".spec_bytes()),
            (
                "access-control-allow-headers".spec_bytes(),
                joined_utf8(texts(self.allowed_headers@), ", ".spec_bytes()),
            ),
        ]);
        self.push_expose_header(&mut headers);
        self.push_credentials_header(&mut headers);
        let ghost h3 = header_list(headers@);
        let mut age: Vec<u8> = Vec::new();
        push_decimal(&mut age, self.max_age.as_secs() as u128);
        assert(age@ =~= decimal_digits(duration_nanos(self.max_age) / 1_000_000_000));
        headers.push((vstd::slice::slice_to_vec("access-control-max-age".as_bytes()), age));
        assert(header_list(headers@) =~= h3 + seq![
            (
                "access-control-max-age".spec_bytes(),
                decimal_digits(duration_nanos(self.max_age) / 1_000_000_000),
            ),
        ]);
        headers
    }

    /// The CORS headers to add to a response to a request from `origin`.
    pub fn response_headers(&self, origin: &str) -> (r: Vec<(Vec<u8>, Vec<u8>)>)
        ensures
            header_list(r@) == self.spec_response_headers(origin@),
    {
        let mut headers: Vec<(Vec<u8>, Vec<u8>)> = Vec::new();
        if self.is_origin_allowed(origin) {
            self.push_origin_header(&mut headers, origin);
            self.push_expose_header(&mut headers);
            self.push_credentials_header(&mut headers);
            assert(header_list(headers@) =~= self.spec_response_headers(origin@));
        } else {
            assert(header_list(headers@) =~= self.spec_response_headers(origin@));
        }
        headers
    }
}

impl Default for GrpcWebCorsConfig {
    fn default() -> (r: Self)
        ensures
            r.is_permissive(),
    {
        let mut allowed_origins: Vec<String> = Vec::new();
        allowed_origins.push("*".to_owned());
        let mut allowed_headers: Vec<String> = Vec::new();
        allowed_headers.push("content-type".to_owned());
        allowed_headers.push("x-grpc-web".to_owned());
        allowed_headers.push("x-user-agent".to_owned());
        allowed_headers.push("grpc-timeout".to_owned());
        let mut exposed_headers: Vec<String> = Vec::new();
        exposed_headers.push("grpc-status".to_owned());
        exposed_headers.push("grpc-message".to_owned());
        let r = Self {
            allowed_origins,
            allowed_headers,
            exposed_headers,
            allow_credentials: false,
            max_age: Duration::from_secs(86400),
        };
        assert(texts(r.allowed_origins@) =~= seq!["*"@]);
        assert(texts(r.allowed_headers@) =~= seq![
            "content-type"@,
            "x-grpc-web"@,
            "x-user-agent"@,
            "grpc-timeout"@,
        ]);
        assert(texts(r.exposed_headers@) =~= seq!["grpc-status"@, "grpc-message"@]);
        r
    }
}

/// gRPC-Web settings of a route.
#[derive(Debug, Clone)]
pub struct GrpcWebConfig {
    /// Whether the route speaks gRPC-Web.
    pub enabled: bool,
    /// CORS settings.
    pub cors: GrpcWebCorsConfig,
}

impl GrpcWebConfig {
    /// gRPC-Web switched on, with the permissive CORS settings.
    pub fn enabled() -> (r: Self)
        ensures
            r.enabled,
            r.cors.is_permissive(),
    {
        Self { enabled: true, cors: GrpcWebCorsConfig::default() }
    }

    /// gRPC-Web switched on, for the origins `origins` only.
    pub fn with_origins(origins: Vec<String>) -> (r: Self)
        ensures
            r.enabled,
            r.cors.allowed_origins == origins,
            r.cors.has_default_headers(),
    {
        Self { enabled: true, cors: GrpcWebCorsConfig::with_origins(origins) }
    }
}

impl Default for GrpcWebConfig {
    fn default() -> (r: Self)
        ensures
            !r.enabled,
            r.cors.is_permissive(),
    {
        Self { enabled: false, cors: GrpcWebCorsConfig::default() }
    }
}

/// The body of a gRPC-Web request as native gRPC: the base64 decoding of
/// the body for the text variant, the body itself otherwise.
pub fn decode_grpc_web_body(body: &[u8], is_text: bool) -> (r: Result<Vec<u8>, GrpcWebError>)
    ensures
        match r {
            Ok(bytes) => if is_text {
                spec_base64_decode(body@) == Some(bytes@)
            } else {
                bytes@ == body@
            },
            Err(e) => is_text && e is InvalidBase64 && spec_base64_decode(body@) is None,
        },
{
    if is_text {
        base64_decode(body)
    } else {
        Ok(vstd::slice::slice_to_vec(body))
    }
}

/// The trailers written as `name: value\r\n` lines.
pub open spec fn spec_encode_trailers(trailers: Seq<(Seq<u8>, Seq<u8>)>) -> Seq<u8>
    decreases trailers.len(),
{
    if trailers.len() == 0 {
        Seq::empty()
    } else {
        spec_encode_trailers(trailers.drop_last()) + trailers.last().0 + seq![0x3au8, 0x20u8]
            + trailers.last().1 + seq![0x0du8, 0x0au8]
    }
}

/// The binary form of a gRPC-Web response: the body, then the trailer
/// frame (flag `0x80`, big-endian length, trailer lines).
pub open spec fn spec_web_response(body: Seq<u8>, trailers: Seq<(Seq<u8>, Seq<u8>)>) -> Seq<u8> {
    body + seq![0x80u8] + be32(length_field(spec_encode_trailers(trailers).len()))
        + spec_encode_trailers(trailers)
}

/// Writes trailers as `name: value\r\n` lines.
pub fn encode_trailers(trailers: &[(Vec<u8>, Vec<u8>)]) -> (r: Vec<u8>)
    ensures
        r@ == spec_encode_trailers(header_list(trailers@)),
{
    let mut data: Vec<u8> = Vec::new();
    let mut i: usize = 0;
    while i < trailers.len()
        invariant
            i <= trailers.len(),
            data@ == spec_encode_trailers(header_list(trailers@).subrange(0, i as int)),
        decreases trailers.len() - i,
    {
        let ghost prefix = header_list(trailers@).subrange(0, i + 1);
        assert(prefix.drop_last() =~= header_list(trailers@).subrange(0, i as int));
        let ghost before = data@;
        data.extend_from_slice(trailers[i].0.as_slice());
        data.push(0x3a);
        data.push(0x20);
        data.extend_from_slice(trailers[i].1.as_slice());
        data.push(0x0d);
        data.push(0x0a);
        assert(data@ =~= before + prefix.last().0 + seq![0x3au8, 0x20u8] + prefix.last().1 + seq![
            0x0du8,
            0x0au8,
        ]);
        i += 1;
    }
    assert(header_list(trailers@).subrange(0, trailers.len() as int) =~= header_list(trailers@));
    data
}

/// Builds a gRPC-Web response from the body and the trailers of a gRPC
/// response; for the text variant the whole is base64-encoded.
pub fn encode_grpc_web_response(body: &[u8], trailers: &[(Vec<u8>, Vec<u8>)], is_text: bool) -> (r:
    Vec<u8>)
    ensures
        r@ == if is_text {
            spec_base64_encode(spec_web_response(body@, header_list(trailers@)))
        } else {
            spec_web_response(body@, header_list(trailers@))
        },
{
    let mut response: Vec<u8> = Vec::new();
    response.extend_from_slice(body);
    let trailer_data = encode_trailers(trailers);
    let wide: u64 = trailer_data.len() as u64;
    let low: u64 = wide & 0xffff_ffff;
    assert(wide & 0xffff_ffff == wide % 0x1_0000_0000) by (bit_vector);
    let n: u32 = low as u32;
    assert(n >> 24 <= 0xff) by (bit_vector);
    response.push(0x80);
    response.push((n >> 24) as u8);
    response.push(#[verifier::truncate] ((n >> 16) as u8));
    response.push(#[verifier::truncate] ((n >> 8) as u8));
    response.push(#[verifier::truncate] (n as u8));
    response.extend_from_slice(trailer_data.as_slice());
    assert(response@ =~= spec_web_response(body@, header_list(trailers@)));
    if is_text {
        base64_encode(response.as_slice())
    } else {
        response
    }
}

} // verus!
