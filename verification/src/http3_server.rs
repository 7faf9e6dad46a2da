//! HTTP/3 requests: what is decided between a request's headers and the
//! response.
//!
//! The QUIC transport and the sockets belong to the embedder. It hands the
//! headers and the body of each request to the functions here, asks the
//! router and the security rules where they say so, and sends what they
//! return.

use vstd::prelude::*;
use vstd::string::{StringExecFns, StringSliceAdditionalSpecFns};
use vstd::utf8::{encode_utf8, valid_utf8};
use crate::text::{
    bytes_eq, bytes_eq_ignore_case, bytes_start_with, chars_or, chars_start_with, copy_chars,
    decimal_bytes, decimal_digits, eq_ignore_case, find_chars, first_match, has_prefix, has_suffix,
    header_list, parse_decimal, parse_unsigned, replaced, skip_end_char, skip_start_char,
    str_chars, str_replace, string_from_chars, text_or, trim_end_char, trim_start_char,
    utf8_to_string,
};

verus! {

/// Name that the server gives itself in the `server` header.
pub const SERVER_NAME: &'static str = "zerocopy-server/http3";

/// Path of the metrics endpoint.
pub const METRICS_PATH: &'static str = "/__metrics";

/// Settings of the HTTP/3 listener.
#[derive(Debug, Clone)]
pub struct Http3ServerConfig {
    /// Path of the TLS certificate.
    pub cert_path: String,
    /// Path of the TLS private key.
    pub key_path: String,
    /// Idle timeout in milliseconds.
    pub max_idle_timeout: u64,
    /// Largest UDP payload.
    pub max_udp_payload_size: u64,
    /// Initial flow-control limit of a connection.
    pub initial_max_data: u64,
    /// Initial flow-control limit of a bidirectional stream opened here.
    pub initial_max_stream_data_bidi_local: u64,
    /// Initial flow-control limit of a bidirectional stream opened by the peer.
    pub initial_max_stream_data_bidi_remote: u64,
    /// Initial flow-control limit of a unidirectional stream.
    pub initial_max_stream_data_uni: u64,
    /// Initial number of bidirectional streams.
    pub initial_max_streams_bidi: u64,
    /// Initial number of unidirectional streams.
    pub initial_max_streams_uni: u64,
}

impl Default for Http3ServerConfig {
    fn default() -> (r: Self)
        ensures
            r.cert_path@.len() == 0,
            r.key_path@.len() == 0,
            r.max_idle_timeout == 30000,
            r.max_udp_payload_size == 1350,
            r.initial_max_data == 10_000_000,
            r.initial_max_stream_data_bidi_local == 1_000_000,
            r.initial_max_stream_data_bidi_remote == 1_000_000,
            r.initial_max_stream_data_uni == 1_000_000,
            r.initial_max_streams_bidi == 100,
            r.initial_max_streams_uni == 100,
    {
        Self {
            cert_path: String::new(),
            key_path: String::new(),
            max_idle_timeout: 30000,
            max_udp_payload_size: 1350,
            initial_max_data: 10_000_000,
            initial_max_stream_data_bidi_local: 1_000_000,
            initial_max_stream_data_bidi_remote: 1_000_000,
            initial_max_stream_data_uni: 1_000_000,
            initial_max_streams_bidi: 100,
            initial_max_streams_uni: 100,
        }
    }
}

/// What the headers of a request say about it.
#[derive(Debug, Clone, PartialEq, Eq)]
pub struct RequestHead {
    /// The method; `GET` where the headers name none.
    pub method: Vec<u8>,
    /// The path; `/` where the headers name none.
    pub path: Vec<u8>,
    /// The authority; empty where the headers name none.
    pub authority: Vec<u8>,
    /// The declared length of the body; 0 where none is declared.
    pub content_length: usize,
}

/// Mathematical value of a request head, before the defaults are put in.
pub struct HeadModel {
    pub method: Option<Seq<u8>>,
    pub path: Option<Seq<u8>>,
    pub authority: Option<Seq<u8>>,
    pub content_length: nat,
}

/// What one header contributes to the head of a request. A
/// `content-length` that is valid UTF-8 sets the length, to 0 where it is
/// no number; one that is not valid UTF-8 is skipped.
pub open spec fn head_with(head: HeadModel, name: Seq<u8>, value: Seq<u8>) -> HeadModel {
    if name == ":method".spec_bytes() {
        HeadModel { method: Some(value), ..head }
    } else if name == ":path".spec_bytes() {
        HeadModel { path: Some(value), ..head }
    } else if name == ":authority".spec_bytes() {
        HeadModel { authority: Some(value), ..head }
    } else if name == "content-length".spec_bytes() && valid_utf8(value) {
        HeadModel {
            content_length: match parse_unsigned(value, usize::MAX as nat) {
                Some(n) => n,
                None => 0,
            },
            ..head
        }
    } else {
        head
    }
}

/// The head that a list of headers describes: each header is applied in
/// turn, so the last occurrence decides.
pub open spec fn spec_head(headers: Seq<(Seq<u8>, Seq<u8>)>) -> HeadModel
    decreases headers.len(),
{
    if headers.len() == 0 {
        HeadModel { method: None, path: None, authority: None, content_length: 0 }
    } else {
        head_with(spec_head(headers.drop_last()), headers.last().0, headers.last().1)
    }
}

/// The bytes of an optional header value, or of the default text.
pub open spec fn value_or(value: Option<Seq<u8>>, default: Seq<u8>) -> Seq<u8> {
    match value {
        Some(v) => v,
        None => default,
    }
}

/// Reads the head of a request from its headers.
pub fn parse_request_head(headers: &[(Vec<u8>, Vec<u8>)]) -> (r: RequestHead)
    ensures
        r.method@ == value_or(spec_head(header_list(headers@)).method, "GET".spec_bytes()),
        r.path@ == value_or(spec_head(header_list(headers@)).path, "/".spec_bytes()),
        r.authority@ == value_or(spec_head(header_list(headers@)).authority, Seq::empty()),
        r.content_length == spec_head(header_list(headers@)).content_length,
{
    let mut method: Option<Vec<u8>> = None;
    let mut path: Option<Vec<u8>> = None;
    let mut authority: Option<Vec<u8>> = None;
    let mut content_length: usize = 0;
    let ghost all = header_list(headers@);
    let mut i: usize = 0;
    assert(all.subrange(0, 0) =~= Seq::empty());
    while i < headers.len()
        invariant
            i <= headers.len(),
            all == header_list(headers@),
            spec_head(all.subrange(0, i as int)) == (HeadModel {
                method: match method {
                    Some(v) => Some(v@),
                    None => None,
                },
                path: match path {
                    Some(v) => Some(v@),
                    None => None,
                },
                authority: match authority {
                    Some(v) => Some(v@),
                    None => None,
                },
                content_length: content_length as nat,
            }),
        decreases headers.len() - i,
    {
        assert(all.subrange(0, i + 1).drop_last() =~= all.subrange(0, i as int));
        assert(all.subrange(0, i + 1).last() == all[i as int]);
        let name = headers[i].0.as_slice();
        let value = headers[i].1.as_slice();
        if bytes_eq(name, ":method".as_bytes()) {
            method = Some(vstd::slice::slice_to_vec(value));
        } else if bytes_eq(name, ":path".as_bytes()) {
            path = Some(vstd::slice::slice_to_vec(value));
        } else if bytes_eq(name, ":authority".as_bytes()) {
            authority = Some(vstd::slice::slice_to_vec(value));
        } else if bytes_eq(name, "content-length".as_bytes()) {
            match utf8_to_string(value) {
                Some(_) => {
                    content_length = match parse_decimal(value, usize::MAX as u64) {
                        Some(n) => n as usize,
                        None => 0,
                    };
                },
                None => {},
            }
        }
        i += 1;
    }
    assert(all.subrange(0, headers.len() as int) =~= all);
    RequestHead {
        method: match method {
            Some(v) => v,
            None => vstd::slice::slice_to_vec("GET".as_bytes()),
        },
        path: match path {
            Some(v) => v,
            None => vstd::slice::slice_to_vec("/".as_bytes()),
        },
        authority: match authority {
            Some(v) => v,
            None => Vec::new(),
        },
        content_length,
    }
}

/// Whether a request asks for the metrics: `GET /__metrics`.
pub fn is_metrics_request(method: &[u8], path: &[u8]) -> (r: bool)
    ensures
        r == (path@ == "/__metrics".spec_bytes() && method@ == "GET".spec_bytes()),
{
    bytes_eq(path, "/__metrics".as_bytes()) && bytes_eq(method, "GET".as_bytes())
}

/// What is done with a request.
#[derive(Debug, Clone, Copy, PartialEq, Eq, Structural)]
pub enum RequestPlan {
    /// The metrics page is sent.
    Metrics,
    /// No route takes the request: it is answered 400.
    NoRoute,
    /// The security rules of the route refuse the request: it is
    /// answered with this status.
    Refused(u16),
    /// The backend of the route answers.
    Serve,
}

/// Status of the answer to a request that no route takes.
pub const STATUS_NO_ROUTE: u16 = 400;

/// Status of the answer to a request for an upstream server: requests
/// that arrive over HTTP/3 are not carried to upstream servers.
pub const STATUS_NOT_CARRIED: u16 = 502;

/// Status of an answer that carries what was asked for.
pub const STATUS_OK: u16 = 200;

/// Status of the answer to a request for a path that leaves the root.
pub const STATUS_FORBIDDEN: u16 = 403;

/// Status of the answer to a request for a file that is not there.
pub const STATUS_NOT_FOUND: u16 = 404;

/// Decides what is done with a request, from its method and path,
/// whether a route takes it, and the status with which the security
/// rules of that route refuse it, if they do. The metrics page comes
/// first: it needs no route. Then a request without a route is turned
/// away; then one that the security rules refuse; what is left goes to
/// the backend.
pub fn request_plan(method: &[u8], path: &[u8], has_route: bool, refusal: Option<u16>) -> (r: RequestPlan)
    ensures
        r == if path@ == "/__metrics".spec_bytes() && method@ == "GET".spec_bytes() {
            RequestPlan::Metrics
        } else if !has_route {
            RequestPlan::NoRoute
        } else {
            match refusal {
                Some(status) => RequestPlan::Refused(status),
                None => RequestPlan::Serve,
            }
        },
{
    if is_metrics_request(method, path) {
        RequestPlan::Metrics
    } else if !has_route {
        RequestPlan::NoRoute
    } else {
        match refusal {
            Some(status) => RequestPlan::Refused(status),
            None => RequestPlan::Serve,
        }
    }
}

/// The headers given for a response, without any `:status` among them.
pub open spec fn without_status(headers: Seq<(Seq<u8>, Seq<u8>)>) -> Seq<(Seq<u8>, Seq<u8>)>
    decreases headers.len(),
{
    if headers.len() == 0 {
        Seq::empty()
    } else if headers.last().0 == ":status".spec_bytes() {
        without_status(headers.drop_last())
    } else {
        without_status(headers.drop_last()).push(headers.last())
    }
}

/// The header list of a response: `:status` with the decimal status, the
/// headers given, and `content-length` where there is a body.
pub open spec fn spec_response_headers(status: u16, headers: Seq<(Seq<u8>, Seq<u8>)>, body_len: Option<usize>) -> Seq<
    (Seq<u8>, Seq<u8>),
> {
    seq![(":status".spec_bytes(), decimal_digits(status as nat))] + without_status(headers) + (match body_len {
        Some(n) => seq![("content-length".spec_bytes(), decimal_digits(n as nat))],
        None => Seq::empty(),
    })
}

/// The header list of a response.
pub fn response_headers(status: u16, headers: &[(Vec<u8>, Vec<u8>)], body_len: Option<usize>) -> (r: Vec<
    (Vec<u8>, Vec<u8>),
>)
    ensures
        header_list(r@) == spec_response_headers(status, header_list(headers@), body_len),
{
    let mut list: Vec<(Vec<u8>, Vec<u8>)> = Vec::new();
    list.push((vstd::slice::slice_to_vec(":status".as_bytes()), decimal_bytes(status as u128)));
    let ghost head = header_list(list@);
    let ghost all = header_list(headers@);
    let mut i: usize = 0;
    assert(all.subrange(0, 0) =~= Seq::empty());
    assert(header_list(list@) =~= head + without_status(all.subrange(0, 0)));
    while i < headers.len()
        invariant
            i <= headers.len(),
            all == header_list(headers@),
            header_list(list@) == head + without_status(all.subrange(0, i as int)),
        decreases headers.len() - i,
    {
        assert(all.subrange(0, i + 1).drop_last() =~= all.subrange(0, i as int));
        let ghost before = header_list(list@);
        if !bytes_eq(headers[i].0.as_slice(), ":status".as_bytes()) {
            list.push(
                (
                    vstd::slice::slice_to_vec(headers[i].0.as_slice()),
                    vstd::slice::slice_to_vec(headers[i].1.as_slice()),
                ),
            );
            assert(header_list(list@) =~= before.push(all[i as int]));
        }
        assert(header_list(list@) =~= head + without_status(all.subrange(0, i + 1)));
        i += 1;
    }
    assert(all.subrange(0, headers.len() as int) =~= all);
    let ghost middle = header_list(list@);
    match body_len {
        Some(n) => {
            list.push((vstd::slice::slice_to_vec("content-length".as_bytes()), decimal_bytes(n as u128)));
            assert(header_list(list@) =~= middle.push(
                ("content-length".spec_bytes(), decimal_digits(n as nat)),
            ));
        },
        None => {},
    }
    assert(header_list(list@) =~= spec_response_headers(status, all, body_len));
    list
}

/// The headers of an error response: plain text from this server.
pub fn error_headers() -> (r: Vec<(Vec<u8>, Vec<u8>)>)
    ensures
        header_list(r@) == seq![
            ("content-type".spec_bytes(), "text/plain".spec_bytes()),
            ("server".spec_bytes(), "zerocopy-server/http3".spec_bytes()),
        ],
{
    let mut list: Vec<(Vec<u8>, Vec<u8>)> = Vec::new();
    list.push(
        (
            vstd::slice::slice_to_vec("content-type".as_bytes()),
            vstd::slice::slice_to_vec("text/plain".as_bytes()),
        ),
    );
    list.push(
        (
            vstd::slice::slice_to_vec("server".as_bytes()),
            vstd::slice::slice_to_vec("zerocopy-server/http3".as_bytes()),
        ),
    );
    assert(header_list(list@) =~= seq![
        ("content-type".spec_bytes(), "text/plain".spec_bytes()),
        ("server".spec_bytes(), "zerocopy-server/http3".spec_bytes()),
    ]);
    list
}

/// What is left of a path once the prefix of the matched route is taken
/// off: the path itself where the prefix is empty or does not match.
pub open spec fn below_prefix(path: Seq<char>, prefix: Seq<char>) -> Seq<char> {
    if prefix.len() > 0 && has_prefix(path, prefix) {
        path.skip(prefix.len() as int)
    } else {
        path
    }
}

/// Whether a request hits an in-memory file: nothing but slashes is left
/// of the path once the prefix of the route is taken off. A route with an
/// empty prefix is always hit.
pub open spec fn spec_memory_file_hit(path: Seq<char>, prefix: Seq<char>) -> bool {
    if prefix.len() > 0 && has_prefix(path, prefix) {
        trim_end_char(trim_start_char(path.skip(prefix.len() as int), '/'), '/').len() == 0
    } else {
        true
    }
}

/// Whether a request hits an in-memory file; otherwise the answer is 404.
/// A path or a prefix that is not valid UTF-8 counts as `/` or as empty.
pub fn memory_file_hit(path: &[u8], prefix: &[u8]) -> (r: bool)
    ensures
        r == spec_memory_file_hit(text_or(path@, "/"@), text_or(prefix@, ""@)),
{
    let path_chars = chars_or(path, "/");
    let prefix_chars = chars_or(prefix, "");
    if prefix_chars.len() > 0 && chars_start_with(path_chars.as_slice(), prefix_chars.as_slice()) {
        let from = prefix_chars.len();
        let to = path_chars.len();
        assert(path_chars@.subrange(from as int, to as int) =~= path_chars@.skip(from as int));
        let start = skip_start_char(path_chars.as_slice(), from, to, '/');
        let end = skip_end_char(path_chars.as_slice(), start, to, '/');
        end == start
    } else {
        true
    }
}

/// Where a request for a file leads.
#[derive(Debug, Clone, PartialEq, Eq)]
pub enum FilePlan {
    /// The path tries to leave the root: 403.
    Forbidden,
    /// The route serves one file and the request asks for more: 404.
    NotFound,
    /// The file of the route itself.
    Base,
    /// The index file of the directory of the route.
    Index,
    /// The path below the directory of the route; where it is a directory
    /// itself, its index file.
    Below(String),
}

impl FilePlan {
    /// The status with which the request is turned away, where the plan
    /// names no file.
    pub fn refusal(&self) -> (r: Option<u16>)
        ensures
            r == match self@ {
                FilePlanModel::Forbidden => Some(STATUS_FORBIDDEN),
                FilePlanModel::NotFound => Some(STATUS_NOT_FOUND),
                _ => None,
            },
    {
        match self {
            FilePlan::Forbidden => Some(STATUS_FORBIDDEN),
            FilePlan::NotFound => Some(STATUS_NOT_FOUND),
            _ => None,
        }
    }
}

/// The status of the answer from bytes held in memory: they are served
/// for the path of their route alone.
pub fn memory_file_status(path: &[u8], prefix: &[u8]) -> (r: u16)
    ensures
        r == if spec_memory_file_hit(text_or(path@, "/"@), text_or(prefix@, ""@)) {
            STATUS_OK
        } else {
            STATUS_NOT_FOUND
        },
{
    if memory_file_hit(path, prefix) {
        STATUS_OK
    } else {
        STATUS_NOT_FOUND
    }
}

/// Mathematical value of a file plan.
pub enum FilePlanModel {
    Forbidden,
    NotFound,
    Base,
    Index,
    Below(Seq<char>),
}

impl View for FilePlan {
    type V = FilePlanModel;

    open spec fn view(&self) -> FilePlanModel {
        match self {
            FilePlan::Forbidden => FilePlanModel::Forbidden,
            FilePlan::NotFound => FilePlanModel::NotFound,
            FilePlan::Base => FilePlanModel::Base,
            FilePlan::Index => FilePlanModel::Index,
            FilePlan::Below(s) => FilePlanModel::Below(s@),
        }
    }
}

/// Where a request for a file leads. The path below the prefix of the
/// route, without leading slashes, must not hold `..`. A route for a
/// directory serves its index file where nothing is left of the path, and
/// the path below it otherwise. A route for a single file serves that file
/// only where nothing is left of the path.
pub open spec fn spec_file_plan(path: Seq<char>, prefix: Seq<char>, is_dir: bool) -> FilePlanModel {
    let sub = trim_start_char(below_prefix(path, prefix), '/');
    if first_match(sub, ".."@) < sub.len() {
        FilePlanModel::Forbidden
    } else if is_dir {
        if sub.len() == 0 {
            FilePlanModel::Index
        } else {
            FilePlanModel::Below(sub)
        }
    } else if sub.len() > 0 {
        FilePlanModel::NotFound
    } else {
        FilePlanModel::Base
    }
}

/// Decides where a request for a file leads.
pub fn file_plan(path: &[u8], prefix: &[u8], is_dir: bool) -> (r: FilePlan)
    ensures
        r@ == spec_file_plan(text_or(path@, "/"@), text_or(prefix@, ""@), is_dir),
{
    let path_chars = chars_or(path, "/");
    let prefix_chars = chars_or(prefix, "");
    let to = path_chars.len();
    let from = if prefix_chars.len() > 0 && chars_start_with(path_chars.as_slice(), prefix_chars.as_slice()) {
        prefix_chars.len()
    } else {
        0
    };
    assert(path_chars@.subrange(from as int, to as int) =~= below_prefix(path_chars@, prefix_chars@));
    let start = skip_start_char(path_chars.as_slice(), from, to, '/');
    let sub = vstd::slice::slice_subrange(path_chars.as_slice(), start, to);
    let dots = str_chars("..");
    proof {
        reveal_strlit("..");
    }
    if find_chars(sub, dots.as_slice()) < sub.len() {
        return FilePlan::Forbidden;
    }
    if is_dir {
        if sub.len() == 0 {
            FilePlan::Index
        } else {
            FilePlan::Below(string_from_chars(sub))
        }
    } else if sub.len() > 0 {
        FilePlan::NotFound
    } else {
        FilePlan::Base
    }
}

/// What `mime_guess` takes the media type of a file to be, going by the
/// extension of its path; `application/octet-stream` where it knows none.
pub uninterp spec fn guessed_mime(path: Seq<char>) -> Seq<char>;

/// Wraps `mime_guess::from_path(..).first_or_octet_stream()`. The result
/// is named by [`guessed_mime`].
#[verifier::external_body]
fn guess_mime(path: &str) -> (r: String)
    ensures
        r@ == guessed_mime(path@),
{
    mime_guess::from_path(path).first_or_octet_stream().as_ref().to_string()
}

/// The texts of a list of headers, as bytes.
pub open spec fn encoded_pairs(pairs: Seq<(String, String)>) -> Seq<(Seq<u8>, Seq<u8>)> {
    Seq::new(pairs.len(), |i: int| (encode_utf8(pairs[i].0@), encode_utf8(pairs[i].1@)))
}

/// The headers of a response that serves content of the media type
/// `content_type`: the content type, the server, and the headers that the
/// security rules of the route add.
pub open spec fn spec_content_headers(content_type: Seq<char>, extra: Seq<(String, String)>) -> Seq<
    (Seq<u8>, Seq<u8>),
> {
    seq![
        ("content-type".spec_bytes(), encode_utf8(content_type)),
        ("server".spec_bytes(), "zerocopy-server/http3".spec_bytes()),
    ] + encoded_pairs(extra)
}

/// The headers of a response that serves content of a given media type.
pub fn content_headers(content_type: &str, extra: &[(String, String)]) -> (r: Vec<(Vec<u8>, Vec<u8>)>)
    ensures
        header_list(r@) == spec_content_headers(content_type@, extra@),
{
    let mut list: Vec<(Vec<u8>, Vec<u8>)> = Vec::new();
    list.push(
        (
            vstd::slice::slice_to_vec("content-type".as_bytes()),
            vstd::slice::slice_to_vec(content_type.as_bytes()),
        ),
    );
    list.push(
        (
            vstd::slice::slice_to_vec("server".as_bytes()),
            vstd::slice::slice_to_vec("zerocopy-server/http3".as_bytes()),
        ),
    );
    let ghost head = header_list(list@);
    let mut i: usize = 0;
    assert(header_list(list@) =~= head + encoded_pairs(extra@).subrange(0, 0));
    while i < extra.len()
        invariant
            i <= extra.len(),
            header_list(list@) == head + encoded_pairs(extra@).subrange(0, i as int),
        decreases extra.len() - i,
    {
        let ghost before = header_list(list@);
        list.push(
            (
                vstd::slice::slice_to_vec(extra[i].0.as_str().as_bytes()),
                vstd::slice::slice_to_vec(extra[i].1.as_str().as_bytes()),
            ),
        );
        assert(header_list(list@) =~= before.push(encoded_pairs(extra@)[i as int]));
        assert(header_list(list@) =~= head + encoded_pairs(extra@).subrange(0, i + 1));
        i += 1;
    }
    assert(encoded_pairs(extra@).subrange(0, extra.len() as int) =~= encoded_pairs(extra@));
    list
}

/// The headers of a response that serves the file at `file_path`; its
/// media type is guessed from the extension.
pub fn file_headers(file_path: &str, extra: &[(String, String)]) -> (r: Vec<(Vec<u8>, Vec<u8>)>)
    ensures
        header_list(r@) == spec_content_headers(guessed_mime(file_path@), extra@),
{
    let mime = guess_mime(file_path);
    content_headers(mime.as_str(), extra)
}

/// The target of a redirect. `$request_uri` in the template stands for
/// the path of the request, `$path` for what is left of it below the
/// prefix of the route. Where the path is to be preserved, what is left
/// of it is appended as well, with exactly one slash at the joint.
pub open spec fn spec_redirect_location(template: Seq<char>, preserve_path: bool, path: Seq<char>, prefix: Seq<char>) -> Seq<
    char,
> {
    let sub = below_prefix(path, prefix);
    let url = replaced(replaced(template, "$request_uri"@, path), "$path"@, sub);
    if preserve_path && sub.len() > 0 {
        if has_suffix(url, "/"@) && has_prefix(sub, "/"@) {
            url + sub.skip(1)
        } else if !has_suffix(url, "/"@) && !has_prefix(sub, "/"@) {
            url + "/"@ + sub
        } else {
            url + sub
        }
    } else {
        url
    }
}

/// Builds the target of a redirect.
pub fn redirect_location(template: &str, preserve_path: bool, path: &[u8], prefix: &[u8]) -> (r: String)
    ensures
        r@ == spec_redirect_location(template@, preserve_path, text_or(path@, "/"@), text_or(prefix@, ""@)),
{
    let path_chars = chars_or(path, "/");
    let prefix_chars = chars_or(prefix, "");
    let to = path_chars.len();
    let from = if prefix_chars.len() > 0 && chars_start_with(path_chars.as_slice(), prefix_chars.as_slice()) {
        prefix_chars.len()
    } else {
        0
    };
    let sub_chars = vstd::slice::slice_subrange(path_chars.as_slice(), from, to);
    assert(sub_chars@ =~= below_prefix(path_chars@, prefix_chars@));
    let path_text = string_from_chars(path_chars.as_slice());
    let sub_text = string_from_chars(sub_chars);
    let first = str_replace(template, "$request_uri", path_text.as_str());
    let mut url = str_replace(first.as_str(), "$path", sub_text.as_str());
    if preserve_path && sub_chars.len() > 0 {
        let url_chars = str_chars(url.as_str());
        proof {
            reveal_strlit("/");
        }
        let url_slash = url_chars.len() > 0 && url_chars[url_chars.len() - 1] == '/';
        let sub_slash = sub_chars[0] == '/';
        assert(url_slash == has_suffix(url@, "/"@)) by {
            if url_chars.len() > 0 {
                let n = url_chars.len() as int;
                assert(url@.subrange(n - 1, n)[0] == url@[n - 1]);
                if url_slash {
                    assert(url@.subrange(n - 1, n) =~= "/"@);
                }
            }
        }
        assert(sub_slash == has_prefix(sub_chars@, "/"@)) by {
            assert(sub_chars@.subrange(0, 1)[0] == sub_chars@[0]);
            if sub_slash {
                assert(sub_chars@.subrange(0, 1) =~= "/"@);
            }
        }
        if url_slash && sub_slash {
            let rest = string_from_chars(vstd::slice::slice_subrange(sub_chars, 1, sub_chars.len()));
            assert(rest@ =~= sub_chars@.skip(1));
            url.append(rest.as_str());
        } else if !url_slash && !sub_slash {
            url.append("/");
            url.append(sub_text.as_str());
        } else {
            url.append(sub_text.as_str());
        }
    }
    url
}

/// The headers of a redirect to `location`.
pub fn redirect_headers(location: &str) -> (r: Vec<(Vec<u8>, Vec<u8>)>)
    ensures
        header_list(r@) == seq![
            ("location".spec_bytes(), encode_utf8(location@)),
            ("server".spec_bytes(), "zerocopy-server/http3".spec_bytes()),
        ],
{
    let mut list: Vec<(Vec<u8>, Vec<u8>)> = Vec::new();
    list.push(
        (vstd::slice::slice_to_vec("location".as_bytes()), vstd::slice::slice_to_vec(location.as_bytes())),
    );
    list.push(
        (
            vstd::slice::slice_to_vec("server".as_bytes()),
            vstd::slice::slice_to_vec("zerocopy-server/http3".as_bytes()),
        ),
    );
    assert(header_list(list@) =~= seq![
        ("location".spec_bytes(), encode_utf8(location@)),
        ("server".spec_bytes(), "zerocopy-server/http3".spec_bytes()),
    ]);
    list
}

/// Wraps `itoa::Buffer::format`: the decimal numeral of a number, as
/// bytes.
#[verifier::external_body]
fn itoa_bytes(n: u64) -> (r: Vec<u8>)
    ensures
        r@ == decimal_digits(n as nat),
{
    let mut buffer = itoa::Buffer::new();
    buffer.format(n).as_bytes().to_vec()
}

/// The path to ask the upstream for. Without a route prefix, or where the
/// prefix does not start the path, it is the path of the request.
/// Otherwise what is left of the path below the prefix is put below the
/// path prefix of the upstream target, with exactly one slash at the
/// joint. An empty result becomes `/`.
pub open spec fn spec_upstream_path(path: Seq<char>, has_route_prefix: bool, prefix: Seq<char>, target_prefix: Seq<char>) -> Seq<
    char,
> {
    let base = trim_end_char(target_prefix, '/');
    let joined = if !has_route_prefix || !has_prefix(path, prefix) {
        path
    } else {
        let remaining = path.skip(prefix.len() as int);
        if remaining.len() == 0 {
            base + "/"@
        } else if remaining[0] == '/' {
            base + remaining
        } else {
            base + "/"@ + remaining
        }
    };
    if joined.len() == 0 {
        "/"@
    } else {
        joined
    }
}

/// The path to ask the upstream for.
pub fn upstream_path(path: &[u8], prefix: &[u8], target_prefix: &str) -> (r: String)
    ensures
        r@ == spec_upstream_path(
            text_or(path@, "/"@),
            prefix@.len() > 0,
            text_or(prefix@, ""@),
            target_prefix@,
        ),
{
    let path_chars = chars_or(path, "/");
    let prefix_chars = chars_or(prefix, "");
    let target_chars = str_chars(target_prefix);
    let base_end = skip_end_char(target_chars.as_slice(), 0, target_chars.len(), '/');
    assert(target_chars@.subrange(0, target_chars.len() as int) =~= target_chars@);
    let mut out: Vec<char> = Vec::new();
    proof {
        reveal_strlit("/");
    }
    if prefix.len() == 0 || !chars_start_with(path_chars.as_slice(), prefix_chars.as_slice()) {
        out = copy_chars(path_chars.as_slice(), 0, path_chars.len());
        assert(out@ =~= path_chars@);
    } else {
        let base = copy_chars(target_chars.as_slice(), 0, base_end);
        out = base;
        let from = prefix_chars.len();
        let to = path_chars.len();
        let ghost remaining = path_chars@.skip(from as int);
        let ghost base_text = out@;
        if from == to {
            out.push('/');
            assert(out@ =~= base_text + "/"@);
        } else {
            if path_chars[from] != '/' {
                out.push('/');
            }
            let mut i: usize = from;
            let ghost start = out@;
            while i < to
                invariant
                    from <= i <= to,
                    to == path_chars.len(),
                    out@ == start + path_chars@.subrange(from as int, i as int),
                decreases to - i,
            {
                out.push(path_chars[i]);
                assert(out@ =~= start + path_chars@.subrange(from as int, i + 1));
                i += 1;
            }
            assert(path_chars@.subrange(from as int, to as int) =~= remaining);
            assert(remaining[0] == path_chars@[from as int]);
            assert(out@ =~= if remaining[0] == '/' {
                base_text + remaining
            } else {
                base_text + "/"@ + remaining
            });
        }
    }
    if out.len() == 0 {
        out.push('/');
        assert(out@ =~= "/"@);
    }
    string_from_chars(out.as_slice())
}

/// Whether a header of an HTTP/3 request stays out of the HTTP/1.1
/// request to the upstream: pseudo-headers, `connection` and
/// `keep-alive`.
pub open spec fn stays_out(name: Seq<u8>) -> bool {
    ||| has_prefix(name, ":".spec_bytes())
    ||| eq_ignore_case(name, "connection".spec_bytes())
    ||| eq_ignore_case(name, "keep-alive".spec_bytes())
}

/// The header lines of the request to the upstream.
pub open spec fn forwarded_lines(headers: Seq<(Seq<u8>, Seq<u8>)>) -> Seq<u8>
    decreases headers.len(),
{
    if headers.len() == 0 {
        Seq::empty()
    } else if stays_out(headers.last().0) {
        forwarded_lines(headers.drop_last())
    } else {
        forwarded_lines(headers.drop_last()) + headers.last().0 + ": ".spec_bytes() + headers.last().1
            + "\r\n".spec_bytes()
    }
}

/// The HTTP/1.1 request that carries an HTTP/3 request to the upstream:
/// the request line, the `Host` header (with the port where it is not the
/// default one), the headers that are passed on, a `Content-Length` where
/// there is a body, `Connection: close`, an empty line, and the body.
pub open spec fn spec_proxy_request(
    method: Seq<u8>,
    path: Seq<u8>,
    host: Seq<u8>,
    port: Option<u16>,
    headers: Seq<(Seq<u8>, Seq<u8>)>,
    body: Seq<u8>,
) -> Seq<u8> {
    method + " ".spec_bytes() + path + " HTTP/1.1\r\nHost: ".spec_bytes() + host + (match port {
        Some(p) => ":".spec_bytes() + decimal_digits(p as nat),
        None => Seq::empty(),
    }) + "\r\n".spec_bytes() + forwarded_lines(headers) + (if body.len() > 0 {
        "Content-Length: ".spec_bytes() + decimal_digits(body.len()) + "\r\n".spec_bytes()
    } else {
        Seq::empty()
    }) + "Connection: close\r\n\r\n".spec_bytes() + body
}

/// Builds the HTTP/1.1 request to the upstream. `port` is given where the
/// target does not listen on the default port of its scheme.
pub fn build_proxy_request(
    method: &[u8],
    path: &[u8],
    host: &[u8],
    port: Option<u16>,
    headers: &[(Vec<u8>, Vec<u8>)],
    body: &[u8],
) -> (r: Vec<u8>)
    ensures
        r@ == spec_proxy_request(method@, path@, host@, port, header_list(headers@), body@),
{
    let mut request: Vec<u8> = Vec::new();
    request.extend_from_slice(method);
    request.extend_from_slice(" ".as_bytes());
    request.extend_from_slice(path);
    request.extend_from_slice(" HTTP/1.1\r\nHost: ".as_bytes());
    request.extend_from_slice(host);
    match port {
        Some(p) => {
            request.extend_from_slice(":".as_bytes());
            let digits = itoa_bytes(p as u64);
            request.extend_from_slice(digits.as_slice());
        },
        None => {},
    }
    request.extend_from_slice("\r\n".as_bytes());
    let ghost head = request@;
    assert(head =~= method@ + " ".spec_bytes() + path@ + " HTTP/1.1\r\nHost: ".spec_bytes() + host@ + (match port {
        Some(p) => ":".spec_bytes() + decimal_digits(p as nat),
        None => Seq::empty(),
    }) + "\r\n".spec_bytes());
    let ghost all = header_list(headers@);
    let mut i: usize = 0;
    assert(all.subrange(0, 0) =~= Seq::empty());
    assert(request@ =~= head + forwarded_lines(all.subrange(0, 0)));
    while i < headers.len()
        invariant
            i <= headers.len(),
            all == header_list(headers@),
            request@ == head + forwarded_lines(all.subrange(0, i as int)),
        decreases headers.len() - i,
    {
        assert(all.subrange(0, i + 1).drop_last() =~= all.subrange(0, i as int));
        let name = headers[i].0.as_slice();
        let ghost before = request@;
        let out = bytes_start_with(name, ":".as_bytes()) || bytes_eq_ignore_case(
            name,
            "connection".as_bytes(),
        ) || bytes_eq_ignore_case(name, "keep-alive".as_bytes());
        if !out {
            request.extend_from_slice(name);
            request.extend_from_slice(": ".as_bytes());
            request.extend_from_slice(headers[i].1.as_slice());
            request.extend_from_slice("\r\n".as_bytes());
            assert(request@ =~= before + all[i as int].0 + ": ".spec_bytes() + all[i as int].1
                + "\r\n".spec_bytes());
        }
        assert(request@ =~= head + forwarded_lines(all.subrange(0, i + 1)));
        i += 1;
    }
    assert(all.subrange(0, headers.len() as int) =~= all);
    if body.len() > 0 {
        request.extend_from_slice("Content-Length: ".as_bytes());
        let digits = itoa_bytes(body.len() as u64);
        request.extend_from_slice(digits.as_slice());
        request.extend_from_slice("\r\n".as_bytes());
    }
    request.extend_from_slice("Connection: close\r\n\r\n".as_bytes());
    request.extend_from_slice(body);
    assert(request@ =~= spec_proxy_request(method@, path@, host@, port, all, body@));
    request
}

/// A response body that the transport has taken only in part.
#[derive(Debug, Clone)]
pub struct PartialResponse {
    body: Vec<u8>,
    written: usize,
}

/// What became of an attempt to send a piece of a body.
#[derive(Debug, Clone, Copy, PartialEq, Eq, Structural)]
pub enum SendOutcome {
    /// The transport took this many bytes.
    Sent(usize),
    /// The transport takes nothing right now.
    Blocked,
    /// The transport failed.
    Failed,
}

impl PartialResponse {
    /// The whole body.
    pub closed spec fn body(&self) -> Seq<u8> {
        self.body@
    }

    /// The number of bytes that the transport has taken.
    pub closed spec fn written(&self) -> nat {
        self.written as nat
    }

    /// Whether no more than the body was sent.
    pub closed spec fn wf(&self) -> bool {
        self.written <= self.body@.len()
    }

    /// A body of which nothing was sent yet.
    pub fn new(body: Vec<u8>) -> (r: Self)
        ensures
            r.wf(),
            r.body() == body@,
            r.written() == 0,
    {
        Self { body, written: 0 }
    }

    /// What is still to be sent: the body from where the transport
    /// stopped.
    pub fn remaining(&self) -> (r: &[u8])
        requires
            self.wf(),
        ensures
            r@ == self.body().skip(self.written() as int),
    {
        vstd::slice::slice_subrange(self.body.as_slice(), self.written, self.body.len())
    }

    /// Takes account of an attempt to send what remains, and tells whether
    /// the response is done with: the body was sent in full, or the
    /// transport failed. What was sent so far is always the start of the
    /// body.
    pub fn on_sent(&mut self, outcome: SendOutcome) -> (done: bool)
        requires
            old(self).wf(),
        ensures
            final(self).wf(),
            final(self).body() == old(self).body(),
            final(self).written() == match outcome {
                SendOutcome::Sent(n) => if n <= old(self).body().len() - old(self).written() {
                    (old(self).written() + n) as nat
                } else {
                    old(self).body().len()
                },
                _ => old(self).written(),
            },
            done == (outcome == SendOutcome::Failed || final(self).written() >= final(self).body().len()),
    {
        match outcome {
            SendOutcome::Sent(n) => {
                if n <= self.body.len() - self.written {
                    self.written += n;
                } else {
                    self.written = self.body.len();
                }
                self.written >= self.body.len()
            },
            SendOutcome::Blocked => self.written >= self.body.len(),
            SendOutcome::Failed => true,
        }
    }
}

} // verus!
