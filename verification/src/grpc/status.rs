//! gRPC status codes and the trailers that carry them.
//!
//! A call ends with the trailers `grpc-status` (a decimal code from 0 to 16)
//! and, optionally, `grpc-message` (a percent-encoded text).

use vstd::prelude::*;
use vstd::string::{StringExecFns, StringSliceAdditionalSpecFns};
use vstd::utf8::{decode_utf8, valid_utf8};
use crate::text::{
    decimal_bytes, decimal_digits, parse_decimal, parse_unsigned, string_from_chars, utf8_to_string,
};

verus! {

/// The seventeen gRPC status codes.
#[derive(Debug, Clone, Copy, PartialEq, Eq, Hash, Structural)]
pub enum GrpcStatusCode {
    /// Not an error; returned on success.
    Okay,
    /// The operation was cancelled.
    Cancelled,
    /// Unknown error.
    Unknown,
    /// The client specified an invalid argument.
    InvalidArgument,
    /// The deadline expired before the operation could complete.
    DeadlineExceeded,
    /// A requested entity was not found.
    NotFound,
    /// The entity to create already exists.
    AlreadyExists,
    /// The caller lacks permission.
    PermissionDenied,
    /// A resource has been exhausted.
    ResourceExhausted,
    /// The system is not in the state the operation requires.
    FailedPrecondition,
    /// The operation was aborted.
    Aborted,
    /// The operation was attempted past the valid range.
    OutOfRange,
    /// The operation is not implemented.
    Unimplemented,
    /// Internal error.
    Internal,
    /// The service is currently unavailable.
    Unavailable,
    /// Unrecoverable data loss or corruption.
    DataLoss,
    /// The request lacks valid authentication credentials.
    Unauthenticated,
}

impl GrpcStatusCode {
    /// The wire number of a code.
    pub open spec fn number(self) -> u8 {
        match self {
            Self::Okay => 0,
            Self::Cancelled => 1,
            Self::Unknown => 2,
            Self::InvalidArgument => 3,
            Self::DeadlineExceeded => 4,
            Self::NotFound => 5,
            Self::AlreadyExists => 6,
            Self::PermissionDenied => 7,
            Self::ResourceExhausted => 8,
            Self::FailedPrecondition => 9,
            Self::Aborted => 10,
            Self::OutOfRange => 11,
            Self::Unimplemented => 12,
            Self::Internal => 13,
            Self::Unavailable => 14,
            Self::DataLoss => 15,
            Self::Unauthenticated => 16,
        }
    }

    /// The code with the wire number `value`, if there is one.
    pub open spec fn of_number(value: nat) -> Option<Self> {
        if value == 0 {
            Some(Self::Okay)
        } else if value == 1 {
            Some(Self::Cancelled)
        } else if value == 2 {
            Some(Self::Unknown)
        } else if value == 3 {
            Some(Self::InvalidArgument)
        } else if value == 4 {
            Some(Self::DeadlineExceeded)
        } else if value == 5 {
            Some(Self::NotFound)
        } else if value == 6 {
            Some(Self::AlreadyExists)
        } else if value == 7 {
            Some(Self::PermissionDenied)
        } else if value == 8 {
            Some(Self::ResourceExhausted)
        } else if value == 9 {
            Some(Self::FailedPrecondition)
        } else if value == 10 {
            Some(Self::Aborted)
        } else if value == 11 {
            Some(Self::OutOfRange)
        } else if value == 12 {
            Some(Self::Unimplemented)
        } else if value == 13 {
            Some(Self::Internal)
        } else if value == 14 {
            Some(Self::Unavailable)
        } else if value == 15 {
            Some(Self::DataLoss)
        } else if value == 16 {
            Some(Self::Unauthenticated)
        } else {
            None
        }
    }

    /// The code that a `grpc-status` value denotes: the value must be a
    /// decimal numeral (an optional `+`, then digits) of a number that fits
    /// one byte and is the wire number of a code.
    pub open spec fn parse(text: Seq<u8>) -> Option<Self> {
        match parse_unsigned(text, 255) {
            Some(n) => Self::of_number(n),
            None => None,
        }
    }

    /// The gRPC code closest to an HTTP status.
    pub open spec fn of_http_status(http_status: u16) -> Self {
        if http_status == 200 {
            Self::Okay
        } else if http_status == 400 {
            Self::InvalidArgument
        } else if http_status == 401 {
            Self::Unauthenticated
        } else if http_status == 403 {
            Self::PermissionDenied
        } else if http_status == 404 {
            Self::NotFound
        } else if http_status == 409 {
            Self::Aborted
        } else if http_status == 429 {
            Self::ResourceExhausted
        } else if http_status == 499 {
            Self::Cancelled
        } else if http_status == 500 {
            Self::Internal
        } else if http_status == 501 {
            Self::Unimplemented
        } else if http_status == 503 {
            Self::Unavailable
        } else if http_status == 504 {
            Self::DeadlineExceeded
        } else if 200 <= http_status < 300 {
            Self::Okay
        } else if 400 <= http_status < 500 {
            Self::InvalidArgument
        } else {
            Self::Unknown
        }
    }

    /// The HTTP status closest to a gRPC code.
    pub open spec fn http_status(self) -> u16 {
        match self {
            Self::Okay => 200,
            Self::Cancelled => 499,
            Self::Unknown => 500,
            Self::InvalidArgument => 400,
            Self::DeadlineExceeded => 504,
            Self::NotFound => 404,
            Self::AlreadyExists => 409,
            Self::PermissionDenied => 403,
            Self::ResourceExhausted => 429,
            Self::FailedPrecondition => 400,
            Self::Aborted => 409,
            Self::OutOfRange => 400,
            Self::Unimplemented => 501,
            Self::Internal => 500,
            Self::Unavailable => 503,
            Self::DataLoss => 500,
            Self::Unauthenticated => 401,
        }
    }

    /// The human-readable name of a code.
    pub open spec fn name(self) -> Seq<char> {
        match self {
            Self::Okay => "OK"@,
            Self::Cancelled => "Cancelled"@,
            Self::Unknown => "Unknown"@,
            Self::InvalidArgument => "Invalid Argument"@,
            Self::DeadlineExceeded => "Deadline Exceeded"@,
            Self::NotFound => "Not Found"@,
            Self::AlreadyExists => "Already Exists"@,
            Self::PermissionDenied => "Permission Denied"@,
            Self::ResourceExhausted => "Resource Exhausted"@,
            Self::FailedPrecondition => "Failed Precondition"@,
            Self::Aborted => "Aborted"@,
            Self::OutOfRange => "Out of Range"@,
            Self::Unimplemented => "Unimplemented"@,
            Self::Internal => "Internal"@,
            Self::Unavailable => "Unavailable"@,
            Self::DataLoss => "Data Loss"@,
            Self::Unauthenticated => "Unauthenticated"@,
        }
    }

    /// The code with the wire number `value`; `None` for every number
    /// above 16.
    pub fn from_u8(value: u8) -> (r: Option<Self>)
        ensures
            r == Self::of_number(value as nat),
            r is Some <==> value <= 16,
            r matches Some(c) ==> c.number() == value,
    {
        match value {
            0 => Some(Self::Okay),
            1 => Some(Self::Cancelled),
            2 => Some(Self::Unknown),
            3 => Some(Self::InvalidArgument),
            4 => Some(Self::DeadlineExceeded),
            5 => Some(Self::NotFound),
            6 => Some(Self::AlreadyExists),
            7 => Some(Self::PermissionDenied),
            8 => Some(Self::ResourceExhausted),
            9 => Some(Self::FailedPrecondition),
            10 => Some(Self::Aborted),
            11 => Some(Self::OutOfRange),
            12 => Some(Self::Unimplemented),
            13 => Some(Self::Internal),
            14 => Some(Self::Unavailable),
            15 => Some(Self::DataLoss),
            16 => Some(Self::Unauthenticated),
            _ => None,
        }
    }

    /// Parses the value of a `grpc-status` trailer given as text.
    pub fn from_str(s: &str) -> (r: Option<Self>)
        ensures
            r == Self::parse(s.spec_bytes()),
    {
        Self::from_bytes(s.as_bytes())
    }

    /// Parses the value of a `grpc-status` trailer given as bytes.
    pub fn from_bytes(bytes: &[u8]) -> (r: Option<Self>)
        ensures
            r == Self::parse(bytes@),
    {
        match parse_decimal(bytes, 255) {
            Some(n) => Self::from_u8(n as u8),
            None => None,
        }
    }

    /// The wire number of the code.
    pub fn as_u8(self) -> (r: u8)
        ensures
            r == self.number(),
            r <= 16,
            Self::of_number(r as nat) == Some(self),
    {
        match self {
            Self::Okay => 0,
            Self::Cancelled => 1,
            Self::Unknown => 2,
            Self::InvalidArgument => 3,
            Self::DeadlineExceeded => 4,
            Self::NotFound => 5,
            Self::AlreadyExists => 6,
            Self::PermissionDenied => 7,
            Self::ResourceExhausted => 8,
            Self::FailedPrecondition => 9,
            Self::Aborted => 10,
            Self::OutOfRange => 11,
            Self::Unimplemented => 12,
            Self::Internal => 13,
            Self::Unavailable => 14,
            Self::DataLoss => 15,
            Self::Unauthenticated => 16,
        }
    }

    /// Whether the code reports success.
    pub fn is_ok(self) -> (r: bool)
        ensures
            r == (self == Self::Okay),
    {
        self == Self::Okay
    }

    /// Whether the code reports a failure.
    pub fn is_error(self) -> (r: bool)
        ensures
            r == (self != Self::Okay),
    {
        self != Self::Okay
    }

    /// The human-readable name of the code.
    pub fn description(self) -> (r: &'static str)
        ensures
            r@ == self.name(),
    {
        match self {
            Self::Okay => "OK",
            Self::Cancelled => "Cancelled",
            Self::Unknown => "Unknown",
            Self::InvalidArgument => "Invalid Argument",
            Self::DeadlineExceeded => "Deadline Exceeded",
            Self::NotFound => "Not Found",
            Self::AlreadyExists => "Already Exists",
            Self::PermissionDenied => "Permission Denied",
            Self::ResourceExhausted => "Resource Exhausted",
            Self::FailedPrecondition => "Failed Precondition",
            Self::Aborted => "Aborted",
            Self::OutOfRange => "Out of Range",
            Self::Unimplemented => "Unimplemented",
            Self::Internal => "Internal",
            Self::Unavailable => "Unavailable",
            Self::DataLoss => "Data Loss",
            Self::Unauthenticated => "Unauthenticated",
        }
    }

    /// The gRPC code that stands for an HTTP status of an upstream.
    pub fn from_http_status(http_status: u16) -> (r: Self)
        ensures
            r == Self::of_http_status(http_status),
    {
        match http_status {
            200 => Self::Okay,
            400 => Self::InvalidArgument,
            401 => Self::Unauthenticated,
            403 => Self::PermissionDenied,
            404 => Self::NotFound,
            409 => Self::Aborted,
            429 => Self::ResourceExhausted,
            499 => Self::Cancelled,
            500 => Self::Internal,
            501 => Self::Unimplemented,
            503 => Self::Unavailable,
            504 => Self::DeadlineExceeded,
            _ => if http_status >= 200 && http_status < 300 {
                Self::Okay
            } else if http_status >= 400 && http_status < 500 {
                Self::InvalidArgument
            } else {
                Self::Unknown
            },
        }
    }

    /// The HTTP status that stands for the code.
    pub fn to_http_status(self) -> (r: u16)
        ensures
            r == self.http_status(),
    {
        match self {
            Self::Okay => 200,
            Self::Cancelled => 499,
            Self::Unknown => 500,
            Self::InvalidArgument => 400,
            Self::DeadlineExceeded => 504,
            Self::NotFound => 404,
            Self::AlreadyExists => 409,
            Self::PermissionDenied => 403,
            Self::ResourceExhausted => 429,
            Self::FailedPrecondition => 400,
            Self::Aborted => 409,
            Self::OutOfRange => 400,
            Self::Unimplemented => 501,
            Self::Internal => 500,
            Self::Unavailable => 503,
            Self::DataLoss => 500,
            Self::Unauthenticated => 401,
        }
    }

    /// The decimal numeral of the code, as text.
    pub fn to_string(&self) -> (r: String)
        ensures
            r@ == crate::text::ascii_chars(decimal_digits(self.number() as nat)),
    {
        crate::text::decimal_string(self.as_u8() as u128)
    }

    /// The decimal numeral of the code, as it stands in `grpc-status`.
    pub fn to_bytes(self) -> (r: Vec<u8>)
        ensures
            r@ == decimal_digits(self.number() as nat),
    {
        decimal_bytes(self.as_u8() as u128)
    }
}

impl Default for GrpcStatusCode {
    fn default() -> (r: Self)
        ensures
            r == GrpcStatusCode::Okay,
    {
        Self::Okay
    }
}

/// Numbers and codes correspond one to one: every number from 0 to 16 is
/// the wire number of exactly the code it maps to, and no other byte maps
/// to a code.
pub proof fn lemma_code_number_roundtrip(value: u8, code: GrpcStatusCode)
    ensures
        value <= 16 ==> GrpcStatusCode::of_number(value as nat) is Some
            && GrpcStatusCode::of_number(value as nat)->0.number() == value,
        value > 16 ==> GrpcStatusCode::of_number(value as nat) is None,
        GrpcStatusCode::of_number(code.number() as nat) == Some(code),
        code.number() <= 16,
{
}

/// The numeral written for a code parses back to that code.
pub proof fn lemma_code_text_roundtrip(code: GrpcStatusCode)
    ensures
        GrpcStatusCode::parse(decimal_digits(code.number() as nat)) == Some(code),
{
    crate::text::lemma_parse_decimal(code.number() as nat, 255);
}

/// Whether a byte stands for itself in a percent-encoded message: the
/// ASCII letters and digits, `-`, `_`, `.` and `~`.
pub open spec fn is_unreserved(b: u8) -> bool {
    (0x61 <= b <= 0x7a) || (0x41 <= b <= 0x5a) || (0x30 <= b <= 0x39) || b == 0x2d || b == 0x5f || b
        == 0x2e || b == 0x7e
}

/// The upper-case hexadecimal digit of a number below sixteen.
pub open spec fn hex_upper(d: nat) -> char {
    if d < 10 {
        (0x30 + d) as char
    } else {
        (0x41 + d - 10) as char
    }
}

/// The escape of a byte: `%`, then its two upper-case hexadecimal
/// digits.
pub open spec fn percent_escape(b: u8) -> Seq<char> {
    seq!['%', hex_upper((b / 16) as nat), hex_upper((b % 16) as nat)]
}

/// What one byte becomes in a percent-encoded message.
pub open spec fn encode_byte(b: u8) -> Seq<char> {
    if is_unreserved(b) {
        seq![b as char]
    } else {
        percent_escape(b)
    }
}

/// The percent-encoded form of a byte string.
pub open spec fn percent_encode_bytes(bytes: Seq<u8>) -> Seq<char>
    decreases bytes.len(),
{
    if bytes.len() == 0 {
        Seq::empty()
    } else {
        percent_encode_bytes(bytes.drop_last()) + encode_byte(bytes.last())
    }
}

/// The percent-encoded form of a message: its UTF-8 bytes, each written
/// as itself or as its escape.
pub open spec fn percent_encode(text: Seq<char>) -> Seq<char> {
    percent_encode_bytes(vstd::utf8::encode_utf8(text))
}

/// The value of a hexadecimal digit of either case.
pub open spec fn hex_value(c: u8) -> Option<nat> {
    if 0x30 <= c <= 0x39 {
        Some((c - 0x30) as nat)
    } else if 0x61 <= c <= 0x66 {
        Some((c - 0x61 + 10) as nat)
    } else if 0x41 <= c <= 0x46 {
        Some((c - 0x41 + 10) as nat)
    } else {
        None
    }
}

/// The byte that the two bytes after a `%` denote: two hexadecimal
/// digits, or a `+` and one hexadecimal digit.
pub open spec fn escape_value(a: u8, b: u8) -> Option<u8> {
    match (hex_value(a), hex_value(b)) {
        (Some(x), Some(y)) => Some((x * 16 + y) as u8),
        (None, Some(y)) => if a == 0x2b {
            Some(y as u8)
        } else {
            None
        },
        _ => None,
    }
}

/// The bytes that a percent-encoded message stands for, read from
/// position `i` on. A `%` takes the next two bytes with it; where they
/// denote a byte, that byte is produced, and otherwise nothing. A `%`
/// with fewer than two bytes after it is dropped together with what
/// follows.
pub open spec fn percent_decode_from(text: Seq<u8>, i: int) -> Seq<u8>
    decreases text.len() - i,
{
    if i < 0 || i >= text.len() {
        Seq::empty()
    } else if text[i] != 0x25 {
        seq![text[i]] + percent_decode_from(text, i + 1)
    } else if i + 2 < text.len() {
        match escape_value(text[i + 1], text[i + 2]) {
            Some(b) => seq![b] + percent_decode_from(text, i + 3),
            None => percent_decode_from(text, i + 3),
        }
    } else {
        Seq::empty()
    }
}

/// The bytes that a percent-encoded message stands for.
pub open spec fn percent_decode(text: Seq<u8>) -> Seq<u8> {
    percent_decode_from(text, 0)
}

/// A status code with its optional message and details.
#[derive(Debug, Clone)]
pub struct GrpcStatus {
    /// The status code.
    pub code: GrpcStatusCode,
    /// Human-readable message, sent as `grpc-message`.
    pub message: Option<String>,
    /// Binary status details.
    pub details: Option<Vec<u8>>,
}

/// The trailers of a status: `grpc-status` with the decimal code, then
/// `grpc-message` with the percent-encoded message where there is one.
pub open spec fn spec_trailers(code: GrpcStatusCode, message: Option<Seq<char>>) -> Seq<
    (Seq<u8>, Seq<u8>),
> {
    let status = ("grpc-status".spec_bytes(), decimal_digits(code.number() as nat));
    match message {
        Some(m) => seq![status, ("grpc-message".spec_bytes(), vstd::utf8::encode_utf8(percent_encode(m)))],
        None => seq![status],
    }
}

fn hex_upper_char(d: u8) -> (r: char)
    requires
        d < 16,
    ensures
        r == hex_upper(d as nat),
{
    if d < 10 {
        (0x30 + d) as char
    } else {
        (0x41 + d - 10) as char
    }
}

fn byte_is_unreserved(b: u8) -> (r: bool)
    ensures
        r == is_unreserved(b),
{
    (0x61 <= b && b <= 0x7a) || (0x41 <= b && b <= 0x5a) || (0x30 <= b && b <= 0x39) || b == 0x2d || b
        == 0x5f || b == 0x2e || b == 0x7e
}

fn hex_value_of(c: u8) -> (r: Option<u8>)
    ensures
        match r {
            Some(v) => hex_value(c) == Some(v as nat) && v < 16,
            None => hex_value(c) is None,
        },
{
    if 0x30 <= c && c <= 0x39 {
        Some(c - 0x30)
    } else if 0x61 <= c && c <= 0x66 {
        Some(c - 0x61 + 10)
    } else if 0x41 <= c && c <= 0x46 {
        Some(c - 0x41 + 10)
    } else {
        None
    }
}

fn escape_value_of(a: u8, b: u8) -> (r: Option<u8>)
    ensures
        r == escape_value(a, b),
{
    match hex_value_of(b) {
        None => None,
        Some(y) => match hex_value_of(a) {
            Some(x) => Some(x * 16 + y),
            None => if a == 0x2b {
                Some(y)
            } else {
                None
            },
        },
    }
}

/// Percent-encodes a message: every byte of its UTF-8 form that is not
/// unreserved is written as `%` and two hexadecimal digits.
pub fn percent_encode_text(text: &str) -> (r: String)
    ensures
        r@ == percent_encode(text@),
{
    let bytes = text.as_bytes();
    let mut out: Vec<char> = Vec::new();
    let mut i: usize = 0;
    while i < bytes.len()
        invariant
            i <= bytes.len(),
            out@ == percent_encode_bytes(bytes@.subrange(0, i as int)),
        decreases bytes.len() - i,
    {
        let b: u8 = bytes[i];
        let ghost before = out@;
        proof {
            assert(bytes@.subrange(0, i + 1).drop_last() =~= bytes@.subrange(0, i as int));
        }
        if byte_is_unreserved(b) {
            out.push(b as char);
            assert(out@ =~= before + encode_byte(b));
        } else {
            out.push('%');
            out.push(hex_upper_char(b / 16));
            out.push(hex_upper_char(b % 16));
            assert(out@ =~= before + encode_byte(b));
        }
        i += 1;
    }
    assert(bytes@.subrange(0, bytes.len() as int) =~= bytes@);
    string_from_chars(out.as_slice())
}

/// The bytes that a percent-encoded message stands for.
pub fn percent_decode_bytes(text: &[u8]) -> (r: Vec<u8>)
    ensures
        r@ == percent_decode(text@),
{
    let mut out: Vec<u8> = Vec::new();
    let mut i: usize = 0;
    while i < text.len()
        invariant
            i <= text.len(),
            out@ + percent_decode_from(text@, i as int) == percent_decode(text@),
        decreases text.len() - i,
    {
        let c: u8 = text[i];
        let ghost before = out@;
        if c != 0x25 {
            out.push(c);
            assert(out@ + percent_decode_from(text@, i + 1) =~= before + percent_decode_from(
                text@,
                i as int,
            ));
            i += 1;
        } else if text.len() - i > 2 {
            match escape_value_of(text[i + 1], text[i + 2]) {
                Some(b) => {
                    out.push(b);
                    assert(out@ + percent_decode_from(text@, i + 3) =~= before + percent_decode_from(
                        text@,
                        i as int,
                    ));
                },
                None => {},
            }
            i += 3;
        } else {
            assert(percent_decode_from(text@, i as int) =~= Seq::<u8>::empty());
            assert(out@ =~= percent_decode(text@));
            return out;
        }
    }
    assert(percent_decode_from(text@, i as int) =~= Seq::<u8>::empty());
    assert(out@ =~= percent_decode(text@));
    out
}

impl GrpcStatus {
    /// The status of a successful call.
    pub fn ok() -> (r: Self)
        ensures
            r.code == GrpcStatusCode::Okay,
            r.message is None,
            r.details is None,
    {
        Self { code: GrpcStatusCode::Okay, message: None, details: None }
    }

    /// A status with a message.
    pub fn error(code: GrpcStatusCode, message: &str) -> (r: Self)
        ensures
            r.code == code,
            r.message matches Some(m) && m@ == message@,
            r.details is None,
    {
        Self { code, message: Some(message.to_owned()), details: None }
    }

    /// A status without a message.
    pub fn from_code(code: GrpcStatusCode) -> (r: Self)
        ensures
            r.code == code,
            r.message is None,
            r.details is None,
    {
        Self { code, message: None, details: None }
    }

    /// Whether the status reports success.
    pub fn is_ok(&self) -> (r: bool)
        ensures
            r == (self.code == GrpcStatusCode::Okay),
    {
        self.code.is_ok()
    }

    /// The message in the percent-encoded form that `grpc-message` carries.
    pub fn encoded_message(&self) -> (r: Option<String>)
        ensures
            match self.message {
                Some(m) => r matches Some(e) && e@ == percent_encode(m@),
                None => r is None,
            },
    {
        match &self.message {
            Some(m) => Some(percent_encode_text(m.as_str())),
            None => None,
        }
    }

    /// Decodes the value of a `grpc-message` trailer: the escapes are
    /// turned back into bytes, and the bytes are read as UTF-8. Escapes
    /// that denote no byte are dropped. `None` where the bytes are not
    /// valid UTF-8.
    pub fn decode_message(encoded: &[u8]) -> (r: Option<String>)
        ensures
            r is Some <==> valid_utf8(percent_decode(encoded@)),
            r matches Some(s) ==> s@ == decode_utf8(percent_decode(encoded@)),
    {
        let bytes = percent_decode_bytes(encoded);
        utf8_to_string(bytes.as_slice())
    }

    /// The trailers that end a response with this status.
    pub fn to_trailers(&self) -> (r: Vec<(Vec<u8>, Vec<u8>)>)
        ensures
            crate::text::header_list(r@) == spec_trailers(
                self.code,
                match self.message {
                    Some(m) => Some(m@),
                    None => None,
                },
            ),
    {
        let mut trailers: Vec<(Vec<u8>, Vec<u8>)> = Vec::new();
        trailers.push((vstd::slice::slice_to_vec("grpc-status".as_bytes()), self.code.to_bytes()));
        match self.encoded_message() {
            Some(msg) => {
                trailers.push(
                    (
                        vstd::slice::slice_to_vec("grpc-message".as_bytes()),
                        vstd::slice::slice_to_vec(msg.as_str().as_bytes()),
                    ),
                );
            },
            None => {},
        }
        assert(crate::text::header_list(trailers@) =~= spec_trailers(
            self.code,
            match self.message {
                Some(m) => Some(m@),
                None => None,
            },
        ));
        trailers
    }
}

impl GrpcStatus {
    /// The text of a status: the name of the code, the code in brackets,
    /// and the message, where there is one, after a colon.
    pub open spec fn text(&self) -> Seq<char> {
        self.code.name() + " ("@ + crate::text::ascii_chars(decimal_digits(self.code.number() as nat))
            + ")"@ + (match self.message {
            Some(m) => ": "@ + m@,
            None => Seq::empty(),
        })
    }

    /// The text of the status, for logs.
    pub fn to_string(&self) -> (r: String)
        ensures
            r@ == self.text(),
    {
        let mut out = self.code.description().to_owned();
        out.append(" (");
        out.append(self.code.to_string().as_str());
        out.append(")");
        match &self.message {
            Some(m) => {
                out.append(": ");
                out.append(m.as_str());
            },
            None => {},
        }
        assert(out@ =~= self.text());
        out
    }
}

impl Default for GrpcStatus {
    fn default() -> (r: Self)
        ensures
            r.code == GrpcStatusCode::Okay,
            r.message is None,
            r.details is None,
    {
        Self::ok()
    }
}

impl From<GrpcStatusCode> for GrpcStatus {
    fn from(code: GrpcStatusCode) -> (r: Self) {
        Self::from_code(code)
    }
}

impl vstd::std_specs::convert::FromSpecImpl<GrpcStatusCode> for GrpcStatus {
    open spec fn obeys_from_spec() -> bool {
        true
    }

    open spec fn from_spec(code: GrpcStatusCode) -> Self {
        GrpcStatus { code, message: None, details: None }
    }
}

} // verus!
