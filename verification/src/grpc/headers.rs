//! gRPC request headers.
//!
//! - `content-type`: `application/grpc`, optionally followed by `+proto`
//!   or `+json`
//! - `grpc-timeout`: a decimal count and a unit (`10S`, `100m`, `1H`)
//! - `grpc-encoding`: encoding of the request messages
//! - `grpc-accept-encoding`: encodings accepted for the response

use vstd::prelude::*;
use vstd::string::{StrSliceExecFns, StringSliceAdditionalSpecFns};
use vstd::utf8::{decode_utf8, encode_utf8, valid_utf8};
use std::time::Duration;
use crate::text::{
    ascii_chars, ascii_to_chars, bytes_eq, bytes_eq_ignore_case, bytes_start_with_ignore_case,
    copy_chars, decimal_digits, eq_ignore_case, find_char, first_index, has_prefix_ignore_case,
    header_list, last_index, parse_decimal, parse_unsigned, push_decimal, rfind_char, str_chars,
    string_from_chars, trim, trim_bounds, utf8_to_string,
};
use crate::time::duration_nanos;

verus! {

/// Prefix that the content type of every gRPC request starts with.
pub const GRPC_CONTENT_TYPE_PREFIX: &'static str = "application/grpc";

/// Content type of gRPC with Protobuf messages.
pub const GRPC_CONTENT_TYPE_PROTO: &'static str = "application/grpc+proto";

/// Content type of gRPC with JSON messages.
pub const GRPC_CONTENT_TYPE_JSON: &'static str = "application/grpc+json";

/// Whether a content type announces gRPC: it starts with
/// `application/grpc`, in any letter case.
pub open spec fn spec_is_grpc_content_type(content_type: Seq<u8>) -> bool {
    has_prefix_ignore_case(content_type, "application/grpc".spec_bytes())
}

/// Whether a header is a `content-type` that announces gRPC.
pub open spec fn is_grpc_header(header: (Seq<u8>, Seq<u8>)) -> bool {
    eq_ignore_case(header.0, "content-type".spec_bytes()) && spec_is_grpc_content_type(header.1)
}

/// Whether a content type announces gRPC.
pub fn is_grpc_content_type(content_type: &[u8]) -> (r: bool)
    ensures
        r == spec_is_grpc_content_type(content_type@),
{
    bytes_start_with_ignore_case(content_type, "application/grpc".as_bytes())
}

/// Whether a list of headers belongs to a gRPC request: one of them is a
/// `content-type` that announces gRPC.
pub fn is_grpc_request(headers: &[(Vec<u8>, Vec<u8>)]) -> (r: bool)
    ensures
        r == exists|i: int| 0 <= i < headers@.len() && is_grpc_header(#[trigger] header_list(headers@)[i]),
{
    let mut i: usize = 0;
    while i < headers.len()
        invariant
            i <= headers.len(),
            forall|j: int| 0 <= j < i ==> !is_grpc_header(#[trigger] header_list(headers@)[j]),
        decreases headers.len() - i,
    {
        if bytes_eq_ignore_case(headers[i].0.as_slice(), "content-type".as_bytes())
            && is_grpc_content_type(headers[i].1.as_slice()) {
            assert(is_grpc_header(header_list(headers@)[i as int]));
            return true;
        }
        i += 1;
    }
    false
}

#[verifier::external_type_specification]
pub struct ExHttparseHeader<'a>(httparse::Header<'a>);

/// Whether the headers of a request parsed by `httparse` belong to a gRPC
/// request: one of them is a `content-type` that announces gRPC.
pub fn is_grpc_request_httparse(headers: &[httparse::Header]) -> (r: bool)
    ensures
        r == exists|i: int|
            0 <= i < headers@.len() && is_grpc_header(
                ((#[trigger] headers@[i]).name.spec_bytes(), headers@[i].value@),
            ),
{
    let mut i: usize = 0;
    while i < headers.len()
        invariant
            i <= headers.len(),
            forall|j: int|
                0 <= j < i ==> !is_grpc_header(((#[trigger] headers@[j]).name.spec_bytes(), headers@[j].value@)),
        decreases headers.len() - i,
    {
        if bytes_eq_ignore_case(headers[i].name.as_bytes(), "content-type".as_bytes())
            && is_grpc_content_type(headers[i].value) {
            return true;
        }
        i += 1;
    }
    false
}

/// Nanoseconds in one unit of a `grpc-timeout`, by the unit's letter.
pub open spec fn unit_nanos(unit: u8) -> Option<nat> {
    if unit == 0x48 {
        Some(3_600_000_000_000)
    } else if unit == 0x4d {
        Some(60_000_000_000)
    } else if unit == 0x53 {
        Some(1_000_000_000)
    } else if unit == 0x6d {
        Some(1_000_000)
    } else if unit == 0x75 {
        Some(1_000)
    } else if unit == 0x6e {
        Some(1)
    } else {
        None
    }
}

/// The largest count that a `grpc-timeout` may carry with a unit: the count
/// itself, and for hours and minutes the count in seconds, must fit 64 bits.
pub open spec fn unit_max_count(unit: u8) -> nat {
    if unit == 0x48 {
        (u64::MAX / 3600) as nat
    } else if unit == 0x4d {
        (u64::MAX / 60) as nat
    } else {
        u64::MAX as nat
    }
}

/// The duration, in nanoseconds, that a `grpc-timeout` value denotes: a
/// decimal count followed by one of the unit letters `H`, `M`, `S`, `m`,
/// `u`, `n`.
pub open spec fn spec_parse_timeout(value: Seq<u8>) -> Option<nat> {
    if value.len() == 0 {
        None
    } else {
        match unit_nanos(value.last()) {
            Some(scale) => match parse_unsigned(value.drop_last(), u64::MAX as nat) {
                Some(count) => if count <= unit_max_count(value.last()) {
                    Some(count * scale)
                } else {
                    None
                },
                None => None,
            },
            None => None,
        }
    }
}

/// The unit letter chosen to write a duration: the coarsest unit of which
/// the duration is a whole multiple; `n` for the empty duration.
pub open spec fn timeout_unit(nanos: nat) -> u8 {
    let secs = nanos / 1_000_000_000;
    let sub = nanos % 1_000_000_000;
    if nanos == 0 {
        0x6e
    } else if sub == 0 && secs % 3600 == 0 {
        0x48
    } else if sub == 0 && secs % 60 == 0 {
        0x4d
    } else if sub == 0 {
        0x53
    } else if sub % 1_000_000 == 0 {
        0x6d
    } else if sub % 1_000 == 0 {
        0x75
    } else {
        0x6e
    }
}

/// The count written for a duration, in the unit chosen for it.
pub open spec fn timeout_count(nanos: nat) -> nat {
    let secs = nanos / 1_000_000_000;
    let sub = nanos % 1_000_000_000;
    let unit = timeout_unit(nanos);
    if unit == 0x48 {
        secs / 3600
    } else if unit == 0x4d {
        secs / 60
    } else if unit == 0x53 {
        secs
    } else if unit == 0x6d {
        secs * 1000 + sub / 1_000_000
    } else if unit == 0x75 {
        secs * 1_000_000 + sub / 1_000
    } else {
        nanos
    }
}

/// The `grpc-timeout` value written for a duration.
pub open spec fn spec_format_timeout(nanos: nat) -> Seq<u8> {
    decimal_digits(timeout_count(nanos)).push(timeout_unit(nanos))
}

/// The written count, taken in the written unit, is the duration.
pub proof fn lemma_timeout_exact(nanos: nat)
    ensures
        unit_nanos(timeout_unit(nanos)) matches Some(scale) && timeout_count(nanos) * scale == nanos,
{
    let secs = nanos / 1_000_000_000;
    let sub = nanos % 1_000_000_000;
    let unit = timeout_unit(nanos);
    assert(nanos == secs * 1_000_000_000 + sub);
    if unit == 0x48 {
        assert(secs == (secs / 3600) * 3600);
    } else if unit == 0x4d {
        assert(secs == (secs / 60) * 60);
    } else if unit == 0x53 {
    } else if unit == 0x6d {
        assert(sub == (sub / 1_000_000) * 1_000_000);
    } else if unit == 0x75 {
        assert(sub == (sub / 1_000) * 1_000);
    } else {
    }
}

/// Writing a duration and parsing the value gives the duration back, for
/// every duration whose whole seconds fit 64 bits (as those of every
/// `Duration` do) and whose written count fits 64 bits.
pub proof fn lemma_timeout_roundtrip(nanos: nat)
    requires
        nanos / 1_000_000_000 <= u64::MAX,
        timeout_count(nanos) <= u64::MAX,
    ensures
        spec_parse_timeout(spec_format_timeout(nanos)) == Some(nanos),
{
    let unit = timeout_unit(nanos);
    let count = timeout_count(nanos);
    let text = spec_format_timeout(nanos);
    let secs = nanos / 1_000_000_000;
    assert(text.last() == unit);
    assert(text.drop_last() =~= decimal_digits(count));
    crate::text::lemma_parse_decimal(count, u64::MAX as nat);
    lemma_timeout_exact(nanos);
    if unit == 0x48 {
        assert(count == secs / 3600);
        assert(count <= u64::MAX / 3600);
    } else if unit == 0x4d {
        assert(count == secs / 60);
        assert(count <= u64::MAX / 60);
    }
}

/// Parses the value of a `grpc-timeout` header. A value that is empty, has
/// an unknown unit, has a malformed count, or denotes more seconds than fit
/// 64 bits, gives `None`.
pub fn parse_grpc_timeout(value: &[u8]) -> (r: Option<Duration>)
    ensures
        match r {
            Some(d) => spec_parse_timeout(value@) == Some(duration_nanos(d)),
            None => spec_parse_timeout(value@) is None,
        },
{
    if value.len() == 0 {
        return None;
    }
    let unit = value[value.len() - 1];
    let digits = vstd::slice::slice_subrange(value, 0, value.len() - 1);
    assert(digits@ =~= value@.drop_last());
    let count = match parse_decimal(digits, u64::MAX) {
        Some(n) => n,
        None => { return None; },
    };
    assert(parse_unsigned(value@.drop_last(), u64::MAX as nat) == Some(count as nat));
    assert(value@.last() == unit);
    let ghost n = count as nat;
    if unit == 0x48 {
        if count > u64::MAX / 3600 {
            assert(spec_parse_timeout(value@) is None);
            return None;
        }
        let d = Duration::from_secs(count * 3600);
        assert(unit_nanos(unit) == Some(3_600_000_000_000nat));
        assert(duration_nanos(d) == n * 3_600_000_000_000);
        assert(spec_parse_timeout(value@) == Some(n * 3_600_000_000_000));
        Some(d)
    } else if unit == 0x4d {
        if count > u64::MAX / 60 {
            assert(spec_parse_timeout(value@) is None);
            return None;
        }
        let d = Duration::from_secs(count * 60);
        assert(unit_nanos(unit) == Some(60_000_000_000nat));
        assert(duration_nanos(d) == n * 60_000_000_000);
        assert(spec_parse_timeout(value@) == Some(n * 60_000_000_000));
        Some(d)
    } else if unit == 0x53 {
        let d = Duration::from_secs(count);
        assert(unit_nanos(unit) == Some(1_000_000_000nat));
        assert(spec_parse_timeout(value@) == Some(n * 1_000_000_000));
        Some(d)
    } else if unit == 0x6d {
        let d = Duration::from_millis(count);
        assert(unit_nanos(unit) == Some(1_000_000nat));
        assert(spec_parse_timeout(value@) == Some(n * 1_000_000));
        Some(d)
    } else if unit == 0x75 {
        let d = Duration::from_micros(count);
        assert(unit_nanos(unit) == Some(1_000nat));
        assert(spec_parse_timeout(value@) == Some(n * 1_000));
        Some(d)
    } else if unit == 0x6e {
        let d = Duration::from_nanos(count);
        assert(unit_nanos(unit) == Some(1nat));
        assert(spec_parse_timeout(value@) == Some(n * 1));
        Some(d)
    } else {
        assert(unit_nanos(unit) is None);
        None
    }
}

fn format_timeout_bytes(duration: Duration) -> (r: Vec<u8>)
    ensures
        r@ == spec_format_timeout(duration_nanos(duration)),
{
    let secs: u64 = duration.as_secs();
    let sub: u32 = duration.subsec_nanos();
    let ghost nanos = duration_nanos(duration);
    assert(nanos == secs * 1_000_000_000 + sub);
    assert(sub < 1_000_000_000);
    let mut out: Vec<u8> = Vec::new();
    if secs == 0 && sub == 0 {
        push_decimal(&mut out, 0);
        out.push(0x6e);
    } else if sub == 0 && secs % 3600 == 0 {
        push_decimal(&mut out, (secs / 3600) as u128);
        out.push(0x48);
    } else if sub == 0 && secs % 60 == 0 {
        push_decimal(&mut out, (secs / 60) as u128);
        out.push(0x4d);
    } else if sub == 0 {
        push_decimal(&mut out, secs as u128);
        out.push(0x53);
    } else if sub % 1_000_000 == 0 {
        push_decimal(&mut out, secs as u128 * 1000 + (sub / 1_000_000) as u128);
        out.push(0x6d);
    } else if sub % 1_000 == 0 {
        push_decimal(&mut out, secs as u128 * 1_000_000 + (sub / 1_000) as u128);
        out.push(0x75);
    } else {
        push_decimal(&mut out, secs as u128 * 1_000_000_000 + sub as u128);
        out.push(0x6e);
    }
    assert(out@ =~= spec_format_timeout(nanos));
    out
}

/// Writes a duration as a `grpc-timeout` value, in the coarsest unit that
/// represents it exactly.
pub fn format_grpc_timeout(duration: Duration) -> (r: String)
    ensures
        r@ == ascii_chars(spec_format_timeout(duration_nanos(duration))),
{
    let bytes = format_timeout_bytes(duration);
    let chars = ascii_to_chars(bytes.as_slice());
    string_from_chars(chars.as_slice())
}

/// Encoding of gRPC messages.
#[derive(Debug, Clone, Copy, PartialEq, Eq, Structural)]
pub enum GrpcEncoding {
    /// No compression.
    Identity,
    /// Gzip compression.
    Gzip,
    /// Deflate compression.
    Deflate,
}

impl Default for GrpcEncoding {
    fn default() -> (r: Self)
        ensures
            r == GrpcEncoding::Identity,
    {
        GrpcEncoding::Identity
    }
}

impl GrpcEncoding {
    /// The name of the encoding as it stands in headers.
    pub open spec fn name(self) -> Seq<u8> {
        match self {
            Self::Identity => "identity".spec_bytes(),
            Self::Gzip => "gzip".spec_bytes(),
            Self::Deflate => "deflate".spec_bytes(),
        }
    }

    /// The encoding that a header value names, in any letter case.
    pub open spec fn named(value: Seq<u8>) -> Option<Self> {
        if eq_ignore_case(value, "identity".spec_bytes()) {
            Some(Self::Identity)
        } else if eq_ignore_case(value, "gzip".spec_bytes()) {
            Some(Self::Gzip)
        } else if eq_ignore_case(value, "deflate".spec_bytes()) {
            Some(Self::Deflate)
        } else {
            None
        }
    }

    /// Parses the value of a `grpc-encoding` header.
    pub fn from_bytes(value: &[u8]) -> (r: Option<Self>)
        ensures
            r == Self::named(value@),
    {
        if bytes_eq_ignore_case(value, "identity".as_bytes()) {
            Some(Self::Identity)
        } else if bytes_eq_ignore_case(value, "gzip".as_bytes()) {
            Some(Self::Gzip)
        } else if bytes_eq_ignore_case(value, "deflate".as_bytes()) {
            Some(Self::Deflate)
        } else {
            None
        }
    }

    /// The name of the encoding as it stands in headers.
    pub fn as_bytes(&self) -> (r: &'static [u8])
        ensures
            r@ == self.name(),
    {
        match self {
            Self::Identity => "identity".as_bytes(),
            Self::Gzip => "gzip".as_bytes(),
            Self::Deflate => "deflate".as_bytes(),
        }
    }

    /// Whether messages in this encoding are compressed.
    pub fn is_compressed(&self) -> (r: bool)
        ensures
            r == (*self != Self::Identity),
    {
        !matches!(self, Self::Identity)
    }
}

/// The gRPC headers of a request.
#[derive(Debug, Clone)]
pub struct GrpcHeaders {
    /// Deadline from `grpc-timeout`.
    pub timeout: Option<Duration>,
    /// Encoding of the request messages, from `grpc-encoding`.
    pub encoding: GrpcEncoding,
    /// Encodings accepted for the response, from `grpc-accept-encoding`.
    pub accept_encoding: Vec<GrpcEncoding>,
    /// Message type, from `grpc-message-type`.
    pub message_type: Option<String>,
    /// Authority (host) of the request.
    pub authority: Option<String>,
    /// Path of the request: `/package.Service/Method`.
    pub path: Option<String>,
}

/// Mathematical value of the gRPC headers of a request.
pub struct HeadersModel {
    pub timeout: Option<nat>,
    pub encoding: GrpcEncoding,
    pub accept_encoding: Seq<GrpcEncoding>,
    pub message_type: Option<Seq<char>>,
    pub authority: Option<Seq<char>>,
    pub path: Option<Seq<char>>,
}

/// The text of an optional string.
pub open spec fn text_of(s: Option<String>) -> Option<Seq<char>> {
    match s {
        Some(t) => Some(t@),
        None => None,
    }
}

impl View for GrpcHeaders {
    type V = HeadersModel;

    open spec fn view(&self) -> HeadersModel {
        HeadersModel {
            timeout: match self.timeout {
                Some(d) => Some(duration_nanos(d)),
                None => None,
            },
            encoding: self.encoding,
            accept_encoding: self.accept_encoding@,
            message_type: text_of(self.message_type),
            authority: text_of(self.authority),
            path: text_of(self.path),
        }
    }
}

/// The headers of a request that carries none of the gRPC headers.
pub open spec fn empty_headers() -> HeadersModel {
    HeadersModel {
        timeout: None,
        encoding: GrpcEncoding::Identity,
        accept_encoding: Seq::empty(),
        message_type: None,
        authority: None,
        path: None,
    }
}

/// The encodings that a comma-separated list names. Each item is stripped
/// of surrounding white space; items that name no encoding are skipped.
pub open spec fn accept_list(text: Seq<char>) -> Seq<GrpcEncoding>
    decreases text.len(),
{
    let k = first_index(text, ',');
    let head = match GrpcEncoding::named(encode_utf8(trim(text.take(k)))) {
        Some(e) => seq![e],
        None => Seq::empty(),
    };
    if 0 <= k < text.len() {
        head + accept_list(text.skip(k + 1))
    } else {
        head
    }
}

/// The encodings that a `grpc-accept-encoding` value names; none where the
/// value is not valid UTF-8.
pub open spec fn spec_accept_encoding(value: Seq<u8>) -> Seq<GrpcEncoding> {
    if valid_utf8(value) {
        accept_list(decode_utf8(value))
    } else {
        Seq::empty()
    }
}

/// The text of a header value; `None` where it is not valid UTF-8.
pub open spec fn spec_text(value: Seq<u8>) -> Option<Seq<char>> {
    if valid_utf8(value) {
        Some(decode_utf8(value))
    } else {
        None
    }
}

/// What one header contributes to the gRPC headers of a request. The names
/// of the `grpc-` headers are matched in any letter case, `:authority` and
/// `:path` exactly; other headers contribute nothing.
pub open spec fn apply_header(m: HeadersModel, name: Seq<u8>, value: Seq<u8>) -> HeadersModel {
    if eq_ignore_case(name, "grpc-timeout".spec_bytes()) {
        HeadersModel { timeout: spec_parse_timeout(value), ..m }
    } else if eq_ignore_case(name, "grpc-encoding".spec_bytes()) {
        HeadersModel {
            encoding: match GrpcEncoding::named(value) {
                Some(e) => e,
                None => GrpcEncoding::Identity,
            },
            ..m
        }
    } else if eq_ignore_case(name, "grpc-accept-encoding".spec_bytes()) {
        HeadersModel { accept_encoding: spec_accept_encoding(value), ..m }
    } else if eq_ignore_case(name, "grpc-message-type".spec_bytes()) {
        HeadersModel { message_type: spec_text(value), ..m }
    } else if name == ":authority".spec_bytes() {
        HeadersModel { authority: spec_text(value), ..m }
    } else if name == ":path".spec_bytes() {
        HeadersModel { path: spec_text(value), ..m }
    } else {
        m
    }
}

/// The gRPC headers of a request with the header list `headers`: each
/// header is applied in turn, so the last occurrence of a header decides.
pub open spec fn spec_from_headers(headers: Seq<(Seq<u8>, Seq<u8>)>) -> HeadersModel
    decreases headers.len(),
{
    if headers.len() == 0 {
        empty_headers()
    } else {
        apply_header(spec_from_headers(headers.drop_last()), headers.last().0, headers.last().1)
    }
}

/// The service named by a request path: what stands between the leading
/// `/` and the last `/` after it.
pub open spec fn spec_service_name(path: Seq<char>) -> Option<Seq<char>> {
    if path.len() > 0 && path[0] == '/' && last_index(path.skip(1), '/') >= 0 {
        Some(path.subrange(1, 1 + last_index(path.skip(1), '/')))
    } else {
        None
    }
}

/// The method named by a request path: what follows the last `/`.
pub open spec fn spec_method_name(path: Seq<char>) -> Option<Seq<char>> {
    if last_index(path, '/') >= 0 {
        Some(path.skip(last_index(path, '/') + 1))
    } else {
        None
    }
}

/// The names of a list of encodings, joined by commas.
pub open spec fn joined_names(encodings: Seq<GrpcEncoding>) -> Seq<u8>
    decreases encodings.len(),
{
    if encodings.len() == 0 {
        Seq::empty()
    } else if encodings.len() == 1 {
        encodings[0].name()
    } else {
        joined_names(encodings.drop_last()) + seq![0x2cu8] + encodings.last().name()
    }
}

/// The headers sent upstream for a request with the gRPC headers `m`:
/// the content type, then the timeout, the encoding and the accepted
/// encodings, each only where it is set.
pub open spec fn spec_request_headers(m: HeadersModel) -> Seq<(Seq<u8>, Seq<u8>)> {
    seq![("content-type".spec_bytes(), "application/grpc+proto".spec_bytes())] + (match m.timeout {
        Some(t) => seq![("grpc-timeout".spec_bytes(), spec_format_timeout(t))],
        None => Seq::empty(),
    }) + (if m.encoding != GrpcEncoding::Identity {
        seq![("grpc-encoding".spec_bytes(), m.encoding.name())]
    } else {
        Seq::empty()
    }) + (if m.accept_encoding.len() > 0 {
        seq![("grpc-accept-encoding".spec_bytes(), joined_names(m.accept_encoding))]
    } else {
        Seq::empty()
    })
}

fn text_from(value: &[u8]) -> (r: Option<String>)
    ensures
        text_of(r) == spec_text(value@),
{
    utf8_to_string(value)
}

impl GrpcHeaders {
    /// Headers with nothing set.
    pub fn new() -> (r: Self)
        ensures
            r@ == empty_headers(),
    {
        Self {
            timeout: None,
            encoding: GrpcEncoding::Identity,
            accept_encoding: Vec::new(),
            message_type: None,
            authority: None,
            path: None,
        }
    }

    /// Collects the gRPC headers from the header list of a request.
    pub fn from_headers(headers: &[(Vec<u8>, Vec<u8>)]) -> (r: Self)
        ensures
            r@ == spec_from_headers(header_list(headers@)),
    {
        let mut result = Self::new();
        let mut i: usize = 0;
        while i < headers.len()
            invariant
                i <= headers.len(),
                result@ == spec_from_headers(header_list(headers@).subrange(0, i as int)),
            decreases headers.len() - i,
        {
            let name = headers[i].0.as_slice();
            let value = headers[i].1.as_slice();
            proof {
                let hs = header_list(headers@);
                assert(hs.subrange(0, i + 1).drop_last() =~= hs.subrange(0, i as int));
                assert(hs.subrange(0, i + 1).last() == (name@, value@));
            }
            if bytes_eq_ignore_case(name, "grpc-timeout".as_bytes()) {
                result.timeout = parse_grpc_timeout(value);
            } else if bytes_eq_ignore_case(name, "grpc-encoding".as_bytes()) {
                result.encoding = match GrpcEncoding::from_bytes(value) {
                    Some(e) => e,
                    None => GrpcEncoding::Identity,
                };
            } else if bytes_eq_ignore_case(name, "grpc-accept-encoding".as_bytes()) {
                result.accept_encoding = Self::parse_accept_encoding(value);
            } else if bytes_eq_ignore_case(name, "grpc-message-type".as_bytes()) {
                result.message_type = text_from(value);
            } else if bytes_eq(name, ":authority".as_bytes()) {
                result.authority = text_from(value);
            } else if bytes_eq(name, ":path".as_bytes()) {
                result.path = text_from(value);
            }
            i += 1;
        }
        assert(header_list(headers@).subrange(0, headers.len() as int) =~= header_list(headers@));
        result
    }

    /// Parses the value of a `grpc-accept-encoding` header.
    pub fn parse_accept_encoding(value: &[u8]) -> (r: Vec<GrpcEncoding>)
        ensures
            r@ == spec_accept_encoding(value@),
    {
        let mut out: Vec<GrpcEncoding> = Vec::new();
        let text = match utf8_to_string(value) {
            Some(t) => t,
            None => { return out; },
        };
        let chars = str_chars(text.as_str());
        let mut pos: usize = 0;
        assert(chars@.skip(0) =~= chars@);
        assert(out@ + accept_list(chars@) =~= accept_list(chars@));
        loop
            invariant
                pos <= chars.len(),
                chars@ == decode_utf8(value@),
                valid_utf8(value@),
                out@ + accept_list(chars@.skip(pos as int)) == accept_list(chars@),
            decreases chars.len() - pos,
        {
            let ghost rest = chars@.skip(pos as int);
            let k = find_char(chars.as_slice(), pos, ',');
            let (from, to) = trim_bounds(chars.as_slice(), pos, pos + k);
            assert(chars@.subrange(pos as int, pos + k) =~= rest.take(k as int));
            let part = copy_chars(chars.as_slice(), from, to);
            let part_text = string_from_chars(part.as_slice());
            let ghost before = out@;
            let found = GrpcEncoding::from_bytes(part_text.as_str().as_bytes());
            let ghost head = match found {
                Some(e) => seq![e],
                None => Seq::<GrpcEncoding>::empty(),
            };
            match found {
                Some(e) => {
                    out.push(e);
                },
                None => {},
            }
            assert(out@ =~= before + head);
            if pos + k < chars.len() {
                assert(rest.skip(k + 1) =~= chars@.skip(pos + k + 1));
                assert(accept_list(rest) == head + accept_list(rest.skip(k + 1)));
                assert(out@ + accept_list(chars@.skip(pos + k + 1)) =~= before + accept_list(rest));
                pos = pos + k + 1;
            } else {
                assert(accept_list(rest) == head);
                assert(out@ =~= before + accept_list(rest));
                return out;
            }
        }
    }

    /// The service that the request path names
    /// (`/package.Service/Method` names `package.Service`).
    pub fn service_name(&self) -> (r: Option<&str>)
        ensures
            match self.path {
                Some(p) => match r {
                    Some(s) => spec_service_name(p@) == Some(s@),
                    None => spec_service_name(p@) is None,
                },
                None => r is None,
            },
    {
        match &self.path {
            None => None,
            Some(p) => {
                let chars = str_chars(p.as_str());
                if chars.len() == 0 || chars[0] != '/' {
                    return None;
                }
                let rest = vstd::slice::slice_subrange(chars.as_slice(), 1, chars.len());
                assert(rest@ =~= chars@.skip(1));
                match rfind_char(rest, '/') {
                    None => None,
                    Some(idx) => Some(p.as_str().substring_char(1, 1 + idx)),
                }
            },
        }
    }

    /// The method that the request path names
    /// (`/package.Service/Method` names `Method`).
    pub fn method_name(&self) -> (r: Option<&str>)
        ensures
            match self.path {
                Some(p) => match r {
                    Some(s) => spec_method_name(p@) == Some(s@),
                    None => spec_method_name(p@) is None,
                },
                None => r is None,
            },
    {
        match &self.path {
            None => None,
            Some(p) => {
                let chars = str_chars(p.as_str());
                match rfind_char(chars.as_slice(), '/') {
                    None => None,
                    Some(idx) => {
                        let s = p.as_str().substring_char(idx + 1, chars.len());
                        assert(p@.subrange(idx + 1, chars.len() as int) =~= p@.skip(idx + 1));
                        Some(s)
                    },
                }
            },
        }
    }

    /// The gRPC headers to send upstream when the request is proxied.
    pub fn to_request_headers(&self) -> (r: Vec<(Vec<u8>, Vec<u8>)>)
        ensures
            header_list(r@) == spec_request_headers(self@),
    {
        let mut headers: Vec<(Vec<u8>, Vec<u8>)> = Vec::new();
        headers.push(
            (
                vstd::slice::slice_to_vec("content-type".as_bytes()),
                vstd::slice::slice_to_vec("application/grpc+proto".as_bytes()),
            ),
        );
        match self.timeout {
            Some(timeout) => {
                headers.push(
                    (vstd::slice::slice_to_vec("grpc-timeout".as_bytes()), format_timeout_bytes(timeout)),
                );
            },
            None => {},
        }
        if self.encoding.is_compressed() {
            headers.push(
                (
                    vstd::slice::slice_to_vec("grpc-encoding".as_bytes()),
                    vstd::slice::slice_to_vec(self.encoding.as_bytes()),
                ),
            );
        }
        if self.accept_encoding.len() > 0 {
            let mut value: Vec<u8> = Vec::new();
            let mut i: usize = 0;
            while i < self.accept_encoding.len()
                invariant
                    i <= self.accept_encoding.len(),
                    value@ == joined_names(self.accept_encoding@.subrange(0, i as int)),
                decreases self.accept_encoding.len() - i,
            {
                let ghost prefix = self.accept_encoding@.subrange(0, i + 1);
                assert(prefix.drop_last() =~= self.accept_encoding@.subrange(0, i as int));
                if i > 0 {
                    value.push(0x2c);
                }
                value.extend_from_slice(self.accept_encoding[i].as_bytes());
                assert(value@ =~= joined_names(prefix));
                i += 1;
            }
            assert(self.accept_encoding@.subrange(0, self.accept_encoding.len() as int)
                =~= self.accept_encoding@);
            headers.push((vstd::slice::slice_to_vec("grpc-accept-encoding".as_bytes()), value));
        }
        assert(header_list(headers@) =~= spec_request_headers(self@));
        headers
    }
}

impl Default for GrpcHeaders {
    fn default() -> (r: Self)
        ensures
            r@ == empty_headers(),
    {
        Self::new()
    }
}

} // verus!
