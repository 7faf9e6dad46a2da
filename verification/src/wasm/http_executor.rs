//! HTTP calls on behalf of modules: building the request and reading the
//! answer.
//!
//! A call is sent as an HTTP/1.1 request with `Connection: close`. The
//! connection itself belongs to the embedder; what stands here is the text
//! that goes out and the meaning of the bytes that come back.

use vstd::prelude::*;
use vstd::string::StringExecFns;
use crate::text::{
    ascii_bytes, ascii_chars, ascii_to_chars, char_code, decimal_bytes, decimal_digits, find_char,
    find_chars, first_index, first_match, has_prefix, line_bounds, lines, lowercase, parse_decimal,
    parse_unsigned, str_chars, str_eq, string_from_chars, to_lowercase, trim, trim_bounds,
    utf8_len, utf8_len_of, utf8_lossy, utf8_lossy_string, chars_start_with, find_bytes,
};
use crate::wasm::host::http_call::Pairs;
use crate::wasm::types::{pairs_view, GlobalPendingCall, HttpCallResponse};

verus! {

/// The value of the first header named `name`; `default` where there is
/// none.
pub open spec fn header_or(headers: Pairs, name: Seq<char>, default: Seq<char>) -> Seq<char>
    decreases headers.len(),
{
    if headers.len() == 0 {
        default
    } else if headers[0].0 == name {
        headers[0].1
    } else {
        header_or(headers.drop_first(), name, default)
    }
}

/// The header lines of a request: every header whose name does not start
/// with a colon, as `name: value\r\n`.
pub open spec fn header_lines(headers: Pairs) -> Seq<char>
    decreases headers.len(),
{
    if headers.len() == 0 {
        Seq::empty()
    } else {
        header_lines(headers.drop_last()) + (if has_prefix(headers.last().0, ":"@) {
            Seq::empty()
        } else {
            headers.last().0 + ": "@ + headers.last().1 + "\r\n"@
        })
    }
}

/// The HTTP/1.1 request for a call: the request line from the
/// pseudo-headers `:method` and `:path` (`GET` and `/` where they are
/// missing), the `Host` header, the other headers, a `Content-Length`
/// where there is a body, `Connection: close`, an empty line, and the
/// body read as text.
pub open spec fn spec_build_request(host: Seq<char>, headers: Pairs, body: Seq<u8>) -> Seq<char> {
    header_or(headers, ":method"@, "GET"@) + " "@ + header_or(headers, ":path"@, "/"@) + " HTTP/1.1\r\n"@
        + "Host: "@ + host + "\r\n"@ + header_lines(headers) + (if body.len() > 0 {
        "Content-Length: "@ + ascii_chars(decimal_digits(body.len())) + "\r\n"@
    } else {
        Seq::empty()
    }) + "Connection: close\r\n"@ + "\r\n"@ + (if body.len() > 0 {
        utf8_lossy(body)
    } else {
        Seq::empty()
    })
}

fn header_value<'a>(headers: &'a Vec<(String, String)>, name: &str, default: &'a str) -> (r: &'a str)
    ensures
        r@ == header_or(pairs_view(headers@), name@, default@),
{
    let mut i: usize = 0;
    assert(pairs_view(headers@).skip(0) =~= pairs_view(headers@));
    while i < headers.len()
        invariant
            i <= headers.len(),
            header_or(pairs_view(headers@).skip(i as int), name@, default@) == header_or(
                pairs_view(headers@),
                name@,
                default@,
            ),
        decreases headers.len() - i,
    {
        if str_eq(headers[i].0.as_str(), name) {
            return headers[i].1.as_str();
        }
        assert(pairs_view(headers@).skip(i as int).drop_first() =~= pairs_view(headers@).skip(i + 1));
        i += 1;
    }
    default
}

/// Builds the HTTP/1.1 request for a pending call to `host`.
pub fn build_http_request(host: &str, pending: &GlobalPendingCall) -> (r: Result<String, String>)
    ensures
        r matches Ok(request) && request@ == spec_build_request(
            host@,
            pairs_view(pending.call.headers@),
            pending.call.body@,
        ),
{
    let headers = &pending.call.headers;
    let method = header_value(headers, ":method", "GET");
    let path = header_value(headers, ":path", "/");
    let mut request = String::new();
    request.append(method);
    request.append(" ");
    request.append(path);
    request.append(" HTTP/1.1\r\n");
    request.append("Host: ");
    request.append(host);
    request.append("\r\n");
    let ghost head = request@;
    let mut i: usize = 0;
    assert(pairs_view(headers@).subrange(0, 0) =~= Seq::empty());
    assert(request@ =~= head + header_lines(pairs_view(headers@).subrange(0, 0)));
    while i < headers.len()
        invariant
            i <= headers.len(),
            request@ == head + header_lines(pairs_view(headers@).subrange(0, i as int)),
        decreases headers.len() - i,
    {
        let ghost all = pairs_view(headers@);
        assert(all.subrange(0, i + 1).drop_last() =~= all.subrange(0, i as int));
        let key = headers[i].0.as_str();
        let key_chars = str_chars(key);
        proof {
            reveal_strlit(":");
        }
        let ghost before = request@;
        if key_chars.len() > 0 && key_chars[0] == ':' {
            assert(key@.subrange(0, 1) =~= ":"@);
        } else {
            assert(!has_prefix(key@, ":"@)) by {
                if has_prefix(key@, ":"@) {
                    assert(key@.subrange(0, 1)[0] == ':');
                }
            }
            request.append(key);
            request.append(": ");
            request.append(headers[i].1.as_str());
            request.append("\r\n");
            assert(request@ =~= before + (all[i as int].0 + ": "@ + all[i as int].1 + "\r\n"@));
        }
        assert(request@ =~= head + header_lines(all.subrange(0, i + 1)));
        i += 1;
    }
    assert(pairs_view(headers@).subrange(0, headers.len() as int) =~= pairs_view(headers@));
    let ghost with_headers = request@;
    if pending.call.body.len() > 0 {
        request.append("Content-Length: ");
        let digits = decimal_bytes(pending.call.body.len() as u128);
        let digit_chars = ascii_to_chars(digits.as_slice());
        let digit_text = string_from_chars(digit_chars.as_slice());
        request.append(digit_text.as_str());
        request.append("\r\n");
    }
    request.append("Connection: close\r\n");
    request.append("\r\n");
    if pending.call.body.len() > 0 {
        let body_text = utf8_lossy_string(pending.call.body.as_slice());
        request.append(body_text.as_str());
    }
    assert(request@ =~= spec_build_request(host@, pairs_view(headers@), pending.call.body@));
    Ok(request)
}

/// Mathematical value of an answer.
pub struct ResponseModel {
    pub status_code: u16,
    pub headers: Pairs,
    pub body: Seq<u8>,
    pub trailers: Pairs,
}

impl View for HttpCallResponse {
    type V = ResponseModel;

    open spec fn view(&self) -> ResponseModel {
        ResponseModel {
            status_code: self.status_code,
            headers: pairs_view(self.headers@),
            body: self.body@,
            trailers: pairs_view(self.trailers@),
        }
    }
}

/// The headers that a list of lines holds: of each line with a colon, what
/// stands before the first colon and what stands after it, both without
/// surrounding white space. Lines without a colon are skipped.
pub open spec fn parsed_headers(list: Seq<Seq<char>>) -> Pairs
    decreases list.len(),
{
    if list.len() == 0 {
        Seq::empty()
    } else {
        let line = list.last();
        let c = first_index(line, ':');
        parsed_headers(list.drop_last()) + (if 0 <= c < line.len() {
            seq![(trim(line.take(c)), trim(line.skip(c + 1)))]
        } else {
            Seq::empty()
        })
    }
}

/// The number that a text denotes as an unsigned decimal numeral of at
/// most `max`.
pub open spec fn number_in(text: Seq<char>, max: nat) -> Option<nat> {
    if forall|i: int| 0 <= i < text.len() ==> (#[trigger] text[i] as int) < 0x80 {
        parse_unsigned(ascii_bytes(text), max)
    } else {
        None
    }
}

/// The status code of a status line: what stands between the first space
/// and the next one (or the end of the line), read as a number that fits
/// 16 bits.
pub open spec fn status_of(line: Seq<char>) -> Result<u16, Seq<char>> {
    let sp = first_index(line, ' ');
    if !(0 <= sp < line.len()) {
        Err("Invalid status line"@)
    } else {
        let rest = line.skip(sp + 1);
        match number_in(rest.take(first_index(rest, ' ')), 65535) {
            Some(n) => Ok(n as u16),
            None => Err("Invalid status code"@),
        }
    }
}

/// The answer that the bytes of an HTTP/1.1 response denote, or the
/// reason why they denote none. The bytes are read as text the way
/// `String::from_utf8_lossy` reads them. The head ends before the first
/// empty line; its first line is the status line, the others are headers.
/// The body is what follows the empty line in the bytes, the position
/// being counted in the UTF-8 form of the text.
pub open spec fn spec_parse_response(data: Seq<u8>) -> Result<ResponseModel, Seq<char>> {
    let text = utf8_lossy(data);
    let k = first_match(text, "\r\n\r\n"@);
    let head = lines(text.take(k));
    if data.len() == 0 {
        Err("Empty response"@)
    } else if !(0 <= k < text.len()) {
        Err("Invalid response: no header/body boundary"@)
    } else if head.len() == 0 {
        Err("Invalid response: no status line"@)
    } else {
        match status_of(head[0]) {
            Err(e) => Err(e),
            Ok(status_code) => Ok(
                ResponseModel {
                    status_code,
                    headers: parsed_headers(head.skip(1)),
                    body: if utf8_len(text.take(k)) + 4 < data.len() {
                        data.skip((utf8_len(text.take(k)) + 4) as int)
                    } else {
                        Seq::empty()
                    },
                    trailers: Seq::empty(),
                },
            ),
        }
    }
}

fn number_of(text: &[char], max: u64) -> (r: Option<u64>)
    ensures
        match r {
            Some(n) => number_in(text@, max as nat) == Some(n as nat),
            None => number_in(text@, max as nat) is None,
        },
{
    let mut bytes: Vec<u8> = Vec::new();
    let mut i: usize = 0;
    while i < text.len()
        invariant
            i <= text.len(),
            bytes@.len() == i,
            forall|j: int| 0 <= j < i ==> (#[trigger] text@[j] as int) < 0x80,
            forall|j: int| 0 <= j < i ==> bytes@[j] == text@[j] as u8,
        decreases text.len() - i,
    {
        let code = char_code(text[i]);
        if code >= 0x80 {
            return None;
        }
        bytes.push(code as u8);
        i += 1;
    }
    assert(bytes@ =~= ascii_bytes(text@));
    parse_decimal(bytes.as_slice(), max)
}

fn status_code_of(line: &[char]) -> (r: Result<u16, String>)
    ensures
        match r {
            Ok(code) => status_of(line@) == Ok::<u16, Seq<char>>(code),
            Err(e) => status_of(line@) == Err::<u16, Seq<char>>(e@),
        },
{
    let sp = find_char(line, 0, ' ');
    assert(line@.skip(0) =~= line@);
    if sp >= line.len() {
        return Err("Invalid status line".to_owned());
    }
    let rest = vstd::slice::slice_subrange(line, sp + 1, line.len());
    assert(rest@ =~= line@.skip(sp + 1));
    let end = find_char(rest, 0, ' ');
    assert(rest@.skip(0) =~= rest@);
    let code_text = vstd::slice::slice_subrange(rest, 0, end);
    assert(code_text@ =~= rest@.take(end as int));
    match number_of(code_text, 65535) {
        Some(n) => Ok(n as u16),
        None => Err("Invalid status code".to_owned()),
    }
}

/// Reads the bytes of an HTTP/1.1 response.
pub fn parse_http_response_from_bytes(data: &[u8]) -> (r: Result<HttpCallResponse, String>)
    ensures
        match r {
            Ok(response) => spec_parse_response(data@) == Ok::<ResponseModel, Seq<char>>(response@),
            Err(e) => spec_parse_response(data@) == Err::<ResponseModel, Seq<char>>(e@),
        },
{
    if data.len() == 0 {
        return Err("Empty response".to_owned());
    }
    let text = utf8_lossy_string(data);
    let chars = str_chars(text.as_str());
    let boundary = str_chars("\r\n\r\n");
    proof {
        reveal_strlit("\r\n\r\n");
    }
    let k = find_chars(chars.as_slice(), boundary.as_slice());
    if k >= chars.len() {
        return Err("Invalid response: no header/body boundary".to_owned());
    }
    let bounds = line_bounds(chars.as_slice(), 0, k);
    let ghost head = lines(chars@.take(k as int));
    assert(chars@.subrange(0, k as int) =~= chars@.take(k as int));
    if bounds.len() == 0 {
        return Err("Invalid response: no status line".to_owned());
    }
    let status_line = vstd::slice::slice_subrange(chars.as_slice(), bounds[0].0, bounds[0].1);
    let status_code = match status_code_of(status_line) {
        Ok(code) => code,
        Err(e) => { return Err(e); },
    };
    let mut headers: Vec<(String, String)> = Vec::new();
    let mut i: usize = 1;
    assert(head.skip(1).subrange(0, 0) =~= Seq::empty());
    assert(pairs_view(headers@) =~= Seq::empty());
    while i < bounds.len()
        invariant
            1 <= i <= bounds.len(),
            k < chars.len(),
            head == lines(chars@.subrange(0, k as int)),
            bounds@.len() == head.len(),
            forall|j: int|
                0 <= j < bounds@.len() ==> 0 <= (#[trigger] bounds@[j]).0 <= bounds@[j].1 <= k
                    && chars@.subrange(bounds@[j].0 as int, bounds@[j].1 as int) == head[j],
            pairs_view(headers@) == parsed_headers(head.skip(1).subrange(0, i - 1)),
        decreases bounds.len() - i,
    {
        let ghost rest = head.skip(1);
        assert(rest.subrange(0, i as int).drop_last() =~= rest.subrange(0, i - 1));
        assert(rest.subrange(0, i as int).last() == head[i as int]);
        let (from, to) = bounds[i];
        let line = vstd::slice::slice_subrange(chars.as_slice(), from, to);
        let c = find_char(line, 0, ':');
        assert(line@.skip(0) =~= line@);
        let ghost before = pairs_view(headers@);
        if c < line.len() {
            let (k0, k1) = trim_bounds(line, 0, c);
            let (v0, v1) = trim_bounds(line, c + 1, line.len());
            assert(line@.subrange(0, c as int) =~= line@.take(c as int));
            assert(line@.subrange(c + 1, line.len() as int) =~= line@.skip(c + 1));
            let key = string_from_chars(vstd::slice::slice_subrange(line, k0, k1));
            let value = string_from_chars(vstd::slice::slice_subrange(line, v0, v1));
            headers.push((key, value));
            assert(pairs_view(headers@) =~= before + seq![
                (trim(line@.take(c as int)), trim(line@.skip(c + 1))),
            ]);
        }
        assert(pairs_view(headers@) =~= parsed_headers(rest.subrange(0, i as int)));
        i += 1;
    }
    assert(head.skip(1).subrange(0, bounds.len() - 1) =~= head.skip(1));
    let body = match utf8_len_of(chars.as_slice(), k, data.len()) {
        Some(n) => if data.len() - n > 4 {
            vstd::slice::slice_to_vec(vstd::slice::slice_subrange(data, n + 4, data.len()))
        } else {
            Vec::new()
        },
        None => Vec::new(),
    };
    assert(body@ =~= spec_parse_response(data@)->Ok_0.body);
    let trailers: Vec<(String, String)> = Vec::new();
    assert(pairs_view(trailers@) =~= Seq::empty());
    Ok(HttpCallResponse { status_code, headers, body, trailers })
}

/// The answer handed to a module for a call that failed: status 504, the
/// header `x-wasm-error: http_call_failed`, and the reason as the body.
pub open spec fn failure_response(reason: Seq<char>) -> ResponseModel {
    ResponseModel {
        status_code: 504,
        headers: seq![("x-wasm-error"@, "http_call_failed"@)],
        body: vstd::utf8::encode_utf8("HTTP call failed: "@ + reason),
        trailers: Seq::empty(),
    }
}

/// Turns the outcome of a call into the answer for the module, so that the
/// module hears of every call: a failure becomes a synthetic 504 answer.
pub fn http_call_result(outcome: Result<HttpCallResponse, String>) -> (r: HttpCallResponse)
    ensures
        match outcome {
            Ok(response) => r == response,
            Err(reason) => r@ == failure_response(reason@),
        },
{
    match outcome {
        Ok(response) => response,
        Err(reason) => {
            let mut headers: Vec<(String, String)> = Vec::new();
            headers.push(("x-wasm-error".to_owned(), "http_call_failed".to_owned()));
            let mut text = "HTTP call failed: ".to_owned();
            text.append(reason.as_str());
            let body = vstd::slice::slice_to_vec(text.as_str().as_bytes());
            let trailers: Vec<(String, String)> = Vec::new();
            assert(pairs_view(headers@) =~= seq![("x-wasm-error"@, "http_call_failed"@)]);
            assert(pairs_view(trailers@) =~= Seq::empty());
            HttpCallResponse { status_code: 504, headers, body, trailers }
        },
    }
}

/// Where the first line stands whose lower-cased form starts with
/// `content-length:`; the number of lines where there is none.
pub open spec fn length_line(list: Seq<Seq<char>>) -> int
    decreases list.len(),
{
    if list.len() == 0 {
        0
    } else if has_prefix(lowercase(list[0]), "content-length:"@) {
        0
    } else {
        1 + length_line(list.drop_first())
    }
}

/// What a `Content-Length` line declares: what follows its first fifteen
/// characters.
pub open spec fn declared_length(line: Seq<char>) -> Seq<char> {
    if line.len() < 15 {
        Seq::empty()
    } else {
        line.skip(15)
    }
}

/// Whether the bytes read so far hold a whole response, so that reading
/// can stop. That takes more than twelve bytes and an empty line. With a
/// `Content-Length` header the body must have reached the declared
/// length; a declared length that is no number never counts as reached.
/// Without that header the response counts as whole unless the head
/// announces `transfer-encoding: chunked`.
pub open spec fn spec_response_complete(data: Seq<u8>) -> bool {
    let text = utf8_lossy(data);
    let k = first_match(text, "\r\n\r\n"@);
    let head = text.take(k);
    let list = lines(head);
    let at = length_line(list);
    &&& data.len() > 12
    &&& first_match(data, "\r\n\r\n"@.map_values(|c: char| c as u8)) < data.len()
    &&& 0 <= k < text.len()
    &&& if 0 <= at < list.len() {
        match number_in(trim(declared_length(list[at])), usize::MAX as nat) {
            Some(n) => data.len() - utf8_len(head) - 4 >= n,
            None => false,
        }
    } else {
        !(first_match(lowercase(head), "transfer-encoding: chunked"@) < lowercase(head).len())
    }
}

proof fn lemma_length_line(list: Seq<Seq<char>>, k: int)
    requires
        0 <= k <= list.len(),
        forall|j: int| 0 <= j < k ==> !has_prefix(lowercase(#[trigger] list[j]), "content-length:"@),
        k < list.len() ==> has_prefix(lowercase(list[k]), "content-length:"@),
    ensures
        length_line(list) == k,
    decreases list.len(),
{
    if list.len() > 0 && k > 0 {
        assert(!has_prefix(lowercase(list[0]), "content-length:"@));
        let rest = list.drop_first();
        assert forall|j: int| 0 <= j < k - 1 implies !has_prefix(
            lowercase(#[trigger] rest[j]),
            "content-length:"@,
        ) by {
            assert(rest[j] == list[j + 1]);
        }
        lemma_length_line(rest, k - 1);
    }
}

/// Whether the bytes read so far hold a whole response.
pub fn response_is_complete(data: &[u8]) -> (r: bool)
    ensures
        r == spec_response_complete(data@),
{
    if data.len() <= 12 {
        return false;
    }
    let mark: [u8; 4] = [0x0d, 0x0a, 0x0d, 0x0a];
    proof {
        reveal_strlit("\r\n\r\n");
        assert(mark@ =~= "\r\n\r\n"@.map_values(|c: char| c as u8));
    }
    if find_bytes(data, mark.as_slice()) >= data.len() {
        return false;
    }
    let text = utf8_lossy_string(data);
    let chars = str_chars(text.as_str());
    let boundary = str_chars("\r\n\r\n");
    let k = find_chars(chars.as_slice(), boundary.as_slice());
    if k >= chars.len() {
        return false;
    }
    assert(chars@.subrange(0, k as int) =~= chars@.take(k as int));
    let ghost head = chars@.take(k as int);
    let ghost list = lines(head);
    let bounds = line_bounds(chars.as_slice(), 0, k);
    let prefix = str_chars("content-length:");
    let mut i: usize = 0;
    while i < bounds.len()
        invariant
            i <= bounds.len(),
            k < chars.len(),
            head == chars@.take(k as int),
            list == lines(chars@.subrange(0, k as int)),
            bounds@.len() == list.len(),
            prefix@ == "content-length:"@,
            data@.len() > 12,
            chars@ == utf8_lossy(data@),
            k == first_match(chars@, "\r\n\r\n"@),
            first_match(data@, "\r\n\r\n"@.map_values(|c: char| c as u8)) < data@.len(),
            forall|j: int|
                0 <= j < bounds@.len() ==> 0 <= (#[trigger] bounds@[j]).0 <= bounds@[j].1 <= k
                    && chars@.subrange(bounds@[j].0 as int, bounds@[j].1 as int) == list[j],
            forall|j: int| 0 <= j < i ==> !has_prefix(lowercase(#[trigger] list[j]), "content-length:"@),
        decreases bounds.len() - i,
    {
        let (from, to) = bounds[i];
        let line = vstd::slice::slice_subrange(chars.as_slice(), from, to);
        let line_text = string_from_chars(line);
        let lower = to_lowercase(line_text.as_str());
        let lower_chars = str_chars(lower.as_str());
        if chars_start_with(lower_chars.as_slice(), prefix.as_slice()) {
            proof {
                lemma_length_line(list, i as int);
            }
            let start: usize = if line.len() < 15 {
                line.len()
            } else {
                15
            };
            assert(line@.subrange(start as int, line.len() as int) =~= declared_length(line@));
            let (v0, v1) = trim_bounds(line, start, line.len());
            let declared = number_of(vstd::slice::slice_subrange(line, v0, v1), usize::MAX as u64);
            return match declared {
                Some(n) => match utf8_len_of(chars.as_slice(), k, data.len()) {
                    Some(m) => data.len() - m >= 4 && (data.len() - m - 4) as u64 >= n,
                    None => false,
                },
                None => false,
            };
        }
        i += 1;
    }
    proof {
        lemma_length_line(list, list.len() as int);
    }
    let head_text = string_from_chars(vstd::slice::slice_subrange(chars.as_slice(), 0, k));
    let lower = to_lowercase(head_text.as_str());
    let lower_chars = str_chars(lower.as_str());
    let chunked = str_chars("transfer-encoding: chunked");
    proof {
        reveal_strlit("transfer-encoding: chunked");
    }
    !(find_chars(lower_chars.as_slice(), chunked.as_slice()) < lower_chars.len())
}

} // verus!
