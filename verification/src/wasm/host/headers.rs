//! Header maps: the host functions that read and change the headers and
//! trailers of the request and of the response.
//!
//! Every access is gated by a capability of the module: reading needs the
//! read capability of the message, changing it the write capability. A
//! change marks the headers of the message as modified, so that the
//! message is rewritten before it is passed on. The headers and trailers of
//! the answer to an HTTP call can be read by a module that may make HTTP
//! calls; they cannot be changed.

use vstd::prelude::*;
use vstd::utf8::encode_utf8;
use crate::text::{bytes_eq_ignore_case, eq_ignore_case};
use crate::wasm::constants::{
    HTTP_CALL_RESPONSE_HEADERS, HTTP_CALL_RESPONSE_TRAILERS, HTTP_REQUEST_HEADERS,
    HTTP_REQUEST_TRAILERS, HTTP_RESPONSE_HEADERS, HTTP_RESPONSE_TRAILERS,
    PROXY_RESULT_BAD_ARGUMENT, PROXY_RESULT_NOT_ALLOWED, PROXY_RESULT_NOT_FOUND, PROXY_RESULT_OK,
};
use crate::wasm::context::HttpContext;
use crate::wasm::host::http_call::Pairs;
use crate::wasm::types::pairs_view;

verus! {

/// Whether two header names are the same: they are equal up to ASCII
/// letter case.
pub open spec fn same_name(a: Seq<char>, b: Seq<char>) -> bool {
    eq_ignore_case(encode_utf8(a), encode_utf8(b))
}

/// The value of the first header named `key`.
pub open spec fn header_value(pairs: Pairs, key: Seq<char>) -> Option<Seq<char>>
    decreases pairs.len(),
{
    if pairs.len() == 0 {
        None
    } else if same_name(pairs[0].0, key) {
        Some(pairs[0].1)
    } else {
        header_value(pairs.drop_first(), key)
    }
}

/// A header list without the headers named `key`.
pub open spec fn without_header(pairs: Pairs, key: Seq<char>) -> Pairs
    decreases pairs.len(),
{
    if pairs.len() == 0 {
        Seq::empty()
    } else if same_name(pairs.last().0, key) {
        without_header(pairs.drop_last(), key)
    } else {
        without_header(pairs.drop_last(), key).push(pairs.last())
    }
}

/// Whether a map type names a map of the request.
pub open spec fn is_request_map(map_type: i32) -> bool {
    map_type == HTTP_REQUEST_HEADERS || map_type == HTTP_REQUEST_TRAILERS
}

/// Whether a map type names a map of the response.
pub open spec fn is_response_map(map_type: i32) -> bool {
    map_type == HTTP_RESPONSE_HEADERS || map_type == HTTP_RESPONSE_TRAILERS
}

/// Whether a map type names a map of the answer to an HTTP call.
pub open spec fn is_call_map(map_type: i32) -> bool {
    map_type == HTTP_CALL_RESPONSE_HEADERS || map_type == HTTP_CALL_RESPONSE_TRAILERS
}

/// Whether the module may read a map.
pub open spec fn may_read(ctx: &HttpContext, map_type: i32) -> bool {
    if is_request_map(map_type) {
        ctx.capabilities.allow_request_headers_read
    } else if is_response_map(map_type) {
        ctx.capabilities.allow_response_headers_read
    } else if is_call_map(map_type) {
        ctx.capabilities.allow_http_calls
    } else {
        true
    }
}

/// Whether the capabilities of the module let it ask for a change of a
/// map. The maps of the answer to an HTTP call are gated by the
/// capability for HTTP calls, for changes as for reads.
pub open spec fn may_write(ctx: &HttpContext, map_type: i32) -> bool {
    if is_request_map(map_type) {
        ctx.capabilities.allow_request_headers_write
    } else if is_response_map(map_type) {
        ctx.capabilities.allow_response_headers_write
    } else {
        ctx.capabilities.allow_http_calls
    }
}

/// The content of a map of the request or of the response.
pub open spec fn map_of(ctx: &HttpContext, map_type: i32) -> Pairs {
    if map_type == HTTP_REQUEST_HEADERS {
        pairs_view(ctx.request_headers@)
    } else if map_type == HTTP_REQUEST_TRAILERS {
        pairs_view(ctx.request_trailers@)
    } else if map_type == HTTP_RESPONSE_HEADERS {
        pairs_view(ctx.response_headers@)
    } else {
        pairs_view(ctx.response_trailers@)
    }
}

/// The content of a map of the answer to the HTTP call that is being
/// delivered; empty where none is.
pub open spec fn call_map_of(ctx: &HttpContext, map_type: i32) -> Pairs {
    match ctx.current_http_call_token {
        Some(token) => if ctx.http_call_responses@.dom().contains(token) {
            if map_type == HTTP_CALL_RESPONSE_HEADERS {
                pairs_view(ctx.http_call_responses@[token].headers@)
            } else {
                pairs_view(ctx.http_call_responses@[token].trailers@)
            }
        } else {
            Seq::empty()
        },
        None => Seq::empty(),
    }
}

/// The content of a map that can be read.
pub open spec fn readable_map(ctx: &HttpContext, map_type: i32) -> Pairs {
    if is_call_map(map_type) {
        call_map_of(ctx, map_type)
    } else {
        map_of(ctx, map_type)
    }
}

impl HttpContext {
    /// Whether everything but the headers and trailers of the request and
    /// of the response, and the marks that they were modified, is as in
    /// `other`.
    pub open spec fn same_but_headers(&self, other: &Self) -> bool {
        &&& self.context_id == other.context_id
        &&& self.root_context_id == other.root_context_id
        &&& self.request_body == other.request_body
        &&& self.request_path == other.request_path
        &&& self.request_method == other.request_method
        &&& self.request_query == other.request_query
        &&& self.request_body_complete == other.request_body_complete
        &&& self.response_status == other.response_status
        &&& self.response_body == other.response_body
        &&& self.response_body_complete == other.response_body_complete
        &&& self.client_ip == other.client_ip
        &&& self.plugin_name == other.plugin_name
        &&& self.plugin_configuration == other.plugin_configuration
        &&& self.vm_configuration == other.vm_configuration
        &&& self.request_body_modified == other.request_body_modified
        &&& self.response_body_modified == other.response_body_modified
        &&& self.local_response == other.local_response
        &&& self.pending_http_calls == other.pending_http_calls
        &&& self.next_http_call_token == other.next_http_call_token
        &&& self.http_call_responses == other.http_call_responses
        &&& self.current_http_call_token == other.current_http_call_token
        &&& self.metrics == other.metrics
        &&& self.next_metric_id == other.next_metric_id
        &&& self.shared_data_cas == other.shared_data_cas
        &&& self.capabilities == other.capabilities
        &&& self.tick_period_ms == other.tick_period_ms
    }

    /// The context after a map of the request or of the response is
    /// changed to `pairs`: the map has the new content, the headers of the
    /// message are marked as modified, and all else is as before.
    pub open spec fn with_map(&self, old_ctx: &Self, map_type: i32, pairs: Pairs) -> bool {
        &&& self.same_but_headers(old_ctx)
        &&& map_of(self, map_type) == pairs
        &&& forall|t: i32|
            t != map_type && (is_request_map(t) || is_response_map(t)) ==> #[trigger] map_of(self, t)
                == map_of(old_ctx, t)
        &&& self.request_headers_modified == (old_ctx.request_headers_modified || is_request_map(map_type))
        &&& self.response_headers_modified == (old_ctx.response_headers_modified || is_response_map(
            map_type,
        ))
    }
}

fn names_match(a: &str, b: &str) -> (r: bool)
    ensures
        r == same_name(a@, b@),
{
    bytes_eq_ignore_case(a.as_bytes(), b.as_bytes())
}

fn copy_list(list: &Vec<(String, String)>) -> (r: Vec<(String, String)>)
    ensures
        pairs_view(r@) == pairs_view(list@),
{
    let mut out: Vec<(String, String)> = Vec::new();
    let mut i: usize = 0;
    while i < list.len()
        invariant
            i <= list.len(),
            pairs_view(out@) == pairs_view(list@).subrange(0, i as int),
        decreases list.len() - i,
    {
        let ghost before = pairs_view(out@);
        let key = list[i].0.clone();
        let value = list[i].1.clone();
        assert(key@ == list@[i as int].0@ && value@ == list@[i as int].1@);
        out.push((key, value));
        assert(pairs_view(out@) =~= before.push((list@[i as int].0@, list@[i as int].1@)));
        assert(pairs_view(out@) =~= pairs_view(list@).subrange(0, i + 1));
        i += 1;
    }
    assert(pairs_view(list@).subrange(0, list.len() as int) =~= pairs_view(list@));
    out
}

fn find_value(list: &Vec<(String, String)>, key: &str) -> (r: Option<String>)
    ensures
        match r {
            Some(v) => header_value(pairs_view(list@), key@) == Some(v@),
            None => header_value(pairs_view(list@), key@) is None,
        },
{
    let mut i: usize = 0;
    assert(pairs_view(list@).skip(0) =~= pairs_view(list@));
    while i < list.len()
        invariant
            i <= list.len(),
            header_value(pairs_view(list@).skip(i as int), key@) == header_value(pairs_view(list@), key@),
        decreases list.len() - i,
    {
        if names_match(list[i].0.as_str(), key) {
            let v = list[i].1.clone();
            return Some(v);
        }
        assert(pairs_view(list@).skip(i as int).drop_first() =~= pairs_view(list@).skip(i + 1));
        i += 1;
    }
    None
}

fn remove_named(list: &Vec<(String, String)>, key: &str) -> (r: Vec<(String, String)>)
    ensures
        pairs_view(r@) == without_header(pairs_view(list@), key@),
{
    let mut out: Vec<(String, String)> = Vec::new();
    let mut i: usize = 0;
    let ghost all = pairs_view(list@);
    assert(all.subrange(0, 0) =~= Seq::empty());
    assert(pairs_view(out@) =~= Seq::empty());
    while i < list.len()
        invariant
            i <= list.len(),
            all == pairs_view(list@),
            pairs_view(out@) == without_header(all.subrange(0, i as int), key@),
        decreases list.len() - i,
    {
        assert(all.subrange(0, i + 1).drop_last() =~= all.subrange(0, i as int));
        let ghost before = pairs_view(out@);
        if !names_match(list[i].0.as_str(), key) {
            let k = list[i].0.clone();
            let v = list[i].1.clone();
            assert(k@ == list@[i as int].0@ && v@ == list@[i as int].1@);
            out.push((k, v));
            assert(pairs_view(out@) =~= before.push(all[i as int]));
        }
        i += 1;
    }
    assert(all.subrange(0, list.len() as int) =~= all);
    out
}

fn read_map(ctx: &HttpContext, map_type: i32) -> (r: Vec<(String, String)>)
    requires
        is_request_map(map_type) || is_response_map(map_type) || is_call_map(map_type),
    ensures
        pairs_view(r@) == readable_map(ctx, map_type),
{
    broadcast use vstd::std_specs::hash::group_hash_axioms;

    if map_type == HTTP_REQUEST_HEADERS {
        copy_list(&ctx.request_headers)
    } else if map_type == HTTP_REQUEST_TRAILERS {
        copy_list(&ctx.request_trailers)
    } else if map_type == HTTP_RESPONSE_HEADERS {
        copy_list(&ctx.response_headers)
    } else if map_type == HTTP_RESPONSE_TRAILERS {
        copy_list(&ctx.response_trailers)
    } else {
        let empty: Vec<(String, String)> = Vec::new();
        assert(pairs_view(empty@) =~= Seq::empty());
        match ctx.current_http_call_token {
            None => empty,
            Some(token) => match ctx.http_call_responses.get(&token) {
                None => empty,
                Some(response) => if map_type == HTTP_CALL_RESPONSE_HEADERS {
                    copy_list(&response.headers)
                } else {
                    copy_list(&response.trailers)
                },
            },
        }
    }
}

fn write_map(ctx: &mut HttpContext, map_type: i32, pairs: Vec<(String, String)>)
    requires
        is_request_map(map_type) || is_response_map(map_type),
    ensures
        final(ctx).with_map(old(ctx), map_type, pairs_view(pairs@)),
{
    if map_type == HTTP_REQUEST_HEADERS {
        ctx.request_headers = pairs;
        ctx.request_headers_modified = true;
    } else if map_type == HTTP_REQUEST_TRAILERS {
        ctx.request_trailers = pairs;
        ctx.request_headers_modified = true;
    } else if map_type == HTTP_RESPONSE_HEADERS {
        ctx.response_headers = pairs;
        ctx.response_headers_modified = true;
    } else {
        ctx.response_trailers = pairs;
        ctx.response_headers_modified = true;
    }
}

/// The status of an access to a map: bad argument for a map type that the
/// host does not know; not allowed where the module lacks the capability;
/// bad argument for a change to a map of the answer to an HTTP call,
/// which are read-only: they hold what the upstream sent.
pub open spec fn access_status(ctx: &HttpContext, map_type: i32, write: bool) -> i32 {
    if !(is_request_map(map_type) || is_response_map(map_type) || is_call_map(map_type)) {
        PROXY_RESULT_BAD_ARGUMENT
    } else if write && !may_write(ctx, map_type) {
        PROXY_RESULT_NOT_ALLOWED
    } else if !write && !may_read(ctx, map_type) {
        PROXY_RESULT_NOT_ALLOWED
    } else if write && is_call_map(map_type) {
        PROXY_RESULT_BAD_ARGUMENT
    } else {
        PROXY_RESULT_OK
    }
}

/// The status of an access to a map.
pub fn check_access(ctx: &HttpContext, map_type: i32, write: bool) -> (status: i32)
    ensures
        status == access_status(ctx, map_type, write),
{
    let request = map_type == HTTP_REQUEST_HEADERS || map_type == HTTP_REQUEST_TRAILERS;
    let response = map_type == HTTP_RESPONSE_HEADERS || map_type == HTTP_RESPONSE_TRAILERS;
    let call = map_type == HTTP_CALL_RESPONSE_HEADERS || map_type == HTTP_CALL_RESPONSE_TRAILERS;
    if !(request || response || call) {
        return PROXY_RESULT_BAD_ARGUMENT;
    }
    let allowed = if write {
        if request {
            ctx.capabilities.allow_request_headers_write
        } else if response {
            ctx.capabilities.allow_response_headers_write
        } else {
            ctx.capabilities.allow_http_calls
        }
    } else if request {
        ctx.capabilities.allow_request_headers_read
    } else if response {
        ctx.capabilities.allow_response_headers_read
    } else {
        ctx.capabilities.allow_http_calls
    };
    if !allowed {
        PROXY_RESULT_NOT_ALLOWED
    } else if write && call {
        PROXY_RESULT_BAD_ARGUMENT
    } else {
        PROXY_RESULT_OK
    }
}

/// `proxy_get_header_map_pairs`: all headers of a map.
pub fn proxy_get_header_map_pairs(ctx: &HttpContext, map_type: i32) -> (r: (i32, Vec<(String, String)>))
    ensures
        r.0 == access_status(ctx, map_type, false),
        pairs_view(r.1@) == if r.0 == PROXY_RESULT_OK {
            readable_map(ctx, map_type)
        } else {
            Seq::empty()
        },
{
    let status = check_access(ctx, map_type, false);
    if status != PROXY_RESULT_OK {
        let empty: Vec<(String, String)> = Vec::new();
        assert(pairs_view(empty@) =~= Seq::empty());
        return (status, empty);
    }
    (PROXY_RESULT_OK, read_map(ctx, map_type))
}

/// `proxy_get_header_map_value`: the value of the first header with a
/// name; not found where there is none.
pub fn proxy_get_header_map_value(ctx: &HttpContext, map_type: i32, key: &str) -> (r: (i32, Option<String>))
    ensures
        access_status(ctx, map_type, false) != PROXY_RESULT_OK ==> r.0 == access_status(
            ctx,
            map_type,
            false,
        ) && r.1 is None,
        access_status(ctx, map_type, false) == PROXY_RESULT_OK ==> match header_value(
            readable_map(ctx, map_type),
            key@,
        ) {
            Some(v) => {
                &&& r.0 == PROXY_RESULT_OK
                &&& r.1 matches Some(s)
                &&& s@ == v
            },
            None => r.0 == PROXY_RESULT_NOT_FOUND && r.1 is None,
        },
{
    let status = check_access(ctx, map_type, false);
    if status != PROXY_RESULT_OK {
        return (status, None);
    }
    let map = read_map(ctx, map_type);
    match find_value(&map, key) {
        Some(v) => (PROXY_RESULT_OK, Some(v)),
        None => (PROXY_RESULT_NOT_FOUND, None),
    }
}

/// `proxy_add_header_map_value`: appends a header. A module without the
/// write capability is answered `NOT_ALLOWED`, and nothing changes.
pub fn proxy_add_header_map_value(ctx: &mut HttpContext, map_type: i32, key: &str, value: &str) -> (status:
    i32)
    ensures
        status == access_status(old(ctx), map_type, true),
        status != PROXY_RESULT_OK ==> *final(ctx) == *old(ctx),
        status == PROXY_RESULT_OK ==> final(ctx).with_map(
            old(ctx),
            map_type,
            map_of(old(ctx), map_type).push((key@, value@)),
        ),
{
    let status = check_access(ctx, map_type, true);
    if status != PROXY_RESULT_OK {
        return status;
    }
    let mut map = read_map(ctx, map_type);
    let ghost before = pairs_view(map@);
    map.push((key.to_owned(), value.to_owned()));
    assert(pairs_view(map@) =~= before.push((key@, value@)));
    write_map(ctx, map_type, map);
    PROXY_RESULT_OK
}

/// `proxy_replace_header_map_value`: sets a header: the headers of that
/// name are removed, and the new one is appended. A module without the
/// write capability is answered `NOT_ALLOWED`, and nothing changes.
pub fn proxy_replace_header_map_value(ctx: &mut HttpContext, map_type: i32, key: &str, value: &str) -> (status:
    i32)
    ensures
        status == access_status(old(ctx), map_type, true),
        status != PROXY_RESULT_OK ==> *final(ctx) == *old(ctx),
        status == PROXY_RESULT_OK ==> final(ctx).with_map(
            old(ctx),
            map_type,
            without_header(map_of(old(ctx), map_type), key@).push((key@, value@)),
        ),
{
    let status = check_access(ctx, map_type, true);
    if status != PROXY_RESULT_OK {
        return status;
    }
    let map = read_map(ctx, map_type);
    let mut kept = remove_named(&map, key);
    let ghost before = pairs_view(kept@);
    kept.push((key.to_owned(), value.to_owned()));
    assert(pairs_view(kept@) =~= before.push((key@, value@)));
    write_map(ctx, map_type, kept);
    PROXY_RESULT_OK
}

/// `proxy_remove_header_map_value`: removes the headers of a name. A
/// module without the write capability is answered `NOT_ALLOWED`, and
/// nothing changes.
pub fn proxy_remove_header_map_value(ctx: &mut HttpContext, map_type: i32, key: &str) -> (status: i32)
    ensures
        status == access_status(old(ctx), map_type, true),
        status != PROXY_RESULT_OK ==> *final(ctx) == *old(ctx),
        status == PROXY_RESULT_OK ==> final(ctx).with_map(
            old(ctx),
            map_type,
            without_header(map_of(old(ctx), map_type), key@),
        ),
{
    let status = check_access(ctx, map_type, true);
    if status != PROXY_RESULT_OK {
        return status;
    }
    let map = read_map(ctx, map_type);
    let kept = remove_named(&map, key);
    write_map(ctx, map_type, kept);
    PROXY_RESULT_OK
}

/// `proxy_set_header_map_pairs`: replaces a whole map. A module without
/// the write capability is answered `NOT_ALLOWED`, and nothing changes.
pub fn proxy_set_header_map_pairs(ctx: &mut HttpContext, map_type: i32, pairs: Vec<(String, String)>) -> (status:
    i32)
    ensures
        status == access_status(old(ctx), map_type, true),
        status != PROXY_RESULT_OK ==> *final(ctx) == *old(ctx),
        status == PROXY_RESULT_OK ==> final(ctx).with_map(old(ctx), map_type, pairs_view(pairs@)),
{
    let status = check_access(ctx, map_type, true);
    if status != PROXY_RESULT_OK {
        return status;
    }
    write_map(ctx, map_type, pairs);
    PROXY_RESULT_OK
}

/// A header that was set is found, and a header that was removed is
/// gone.
pub proof fn lemma_replace_then_get(pairs: Pairs, key: Seq<char>, value: Seq<char>)
    ensures
        header_value(without_header(pairs, key).push((key, value)), key) == Some(value),
        header_value(without_header(pairs, key), key) is None,
{
    lemma_without_header(pairs, key);
    lemma_header_value_push(without_header(pairs, key), key, value);
}

proof fn lemma_without_header(pairs: Pairs, key: Seq<char>)
    ensures
        header_value(without_header(pairs, key), key) is None,
        forall|i: int|
            0 <= i < without_header(pairs, key).len() ==> !same_name(
                (#[trigger] without_header(pairs, key)[i]).0,
                key,
            ),
    decreases pairs.len(),
{
    if pairs.len() > 0 {
        lemma_without_header(pairs.drop_last(), key);
    }
    lemma_no_match(without_header(pairs, key), key);
}

proof fn lemma_no_match(pairs: Pairs, key: Seq<char>)
    requires
        forall|i: int| 0 <= i < pairs.len() ==> !same_name((#[trigger] pairs[i]).0, key),
    ensures
        header_value(pairs, key) is None,
    decreases pairs.len(),
{
    if pairs.len() > 0 {
        assert(!same_name(pairs[0].0, key));
        let rest = pairs.drop_first();
        assert forall|i: int| 0 <= i < rest.len() implies !same_name((#[trigger] rest[i]).0, key) by {
            assert(rest[i] == pairs[i + 1]);
        }
        lemma_no_match(rest, key);
    }
}

proof fn lemma_header_value_push(pairs: Pairs, key: Seq<char>, value: Seq<char>)
    requires
        header_value(pairs, key) is None,
    ensures
        header_value(pairs.push((key, value)), key) == Some(value),
    decreases pairs.len(),
{
    let all = pairs.push((key, value));
    assert(same_name(key, key));
    if pairs.len() == 0 {
        assert(all[0] == (key, value));
    } else {
        assert(all[0] == pairs[0]);
        assert(all.drop_first() =~= pairs.drop_first().push((key, value)));
        lemma_header_value_push(pairs.drop_first(), key, value);
    }
}

} // verus!
