//! Buffers: the host functions that read and change the bodies of the
//! request and of the response, and read the body of the answer to an
//! HTTP call and the configurations.

use vstd::prelude::*;
use crate::wasm::constants::{
    HTTP_CALL_RESPONSE_BODY, HTTP_REQUEST_BODY, HTTP_RESPONSE_BODY, PLUGIN_CONFIGURATION,
    PROXY_RESULT_BAD_ARGUMENT, PROXY_RESULT_NOT_ALLOWED, PROXY_RESULT_OK, VM_CONFIGURATION,
};
use crate::wasm::context::HttpContext;

verus! {

/// Whether the host knows a buffer type.
pub open spec fn is_buffer(buffer_type: i32) -> bool {
    buffer_type == HTTP_REQUEST_BODY || buffer_type == HTTP_RESPONSE_BODY || buffer_type
        == HTTP_CALL_RESPONSE_BODY || buffer_type == PLUGIN_CONFIGURATION || buffer_type
        == VM_CONFIGURATION
}

/// Whether the module may read a buffer. The configurations can always be
/// read.
pub open spec fn may_read_buffer(ctx: &HttpContext, buffer_type: i32) -> bool {
    if buffer_type == HTTP_REQUEST_BODY {
        ctx.capabilities.allow_request_body_read
    } else if buffer_type == HTTP_RESPONSE_BODY {
        ctx.capabilities.allow_response_body_read
    } else if buffer_type == HTTP_CALL_RESPONSE_BODY {
        ctx.capabilities.allow_http_calls
    } else {
        true
    }
}

/// The content of a buffer.
pub open spec fn buffer_of(ctx: &HttpContext, buffer_type: i32) -> Seq<u8> {
    if buffer_type == HTTP_REQUEST_BODY {
        ctx.request_body@
    } else if buffer_type == HTTP_RESPONSE_BODY {
        ctx.response_body@
    } else if buffer_type == PLUGIN_CONFIGURATION {
        ctx.plugin_configuration@
    } else if buffer_type == VM_CONFIGURATION {
        ctx.vm_configuration@
    } else {
        match ctx.current_http_call_token {
            Some(token) => if ctx.http_call_responses@.dom().contains(token) {
                ctx.http_call_responses@[token].body@
            } else {
                Seq::empty()
            },
            None => Seq::empty(),
        }
    }
}

/// The status of reading a buffer.
pub open spec fn read_status(ctx: &HttpContext, buffer_type: i32) -> i32 {
    if !is_buffer(buffer_type) {
        PROXY_RESULT_BAD_ARGUMENT
    } else if !may_read_buffer(ctx, buffer_type) {
        PROXY_RESULT_NOT_ALLOWED
    } else {
        PROXY_RESULT_OK
    }
}

/// The status of changing a buffer: only the bodies of the request and of
/// the response can be changed, each with its write capability. The body
/// of the answer to an HTTP call is read-only, for it holds what the
/// upstream sent: a module without the capability for HTTP calls is
/// answered not allowed, any other bad argument. So are changes to the
/// configurations.
pub open spec fn write_status(ctx: &HttpContext, buffer_type: i32) -> i32 {
    if !is_buffer(buffer_type) {
        PROXY_RESULT_BAD_ARGUMENT
    } else if buffer_type == HTTP_REQUEST_BODY {
        if ctx.capabilities.allow_request_body_write {
            PROXY_RESULT_OK
        } else {
            PROXY_RESULT_NOT_ALLOWED
        }
    } else if buffer_type == HTTP_RESPONSE_BODY {
        if ctx.capabilities.allow_response_body_write {
            PROXY_RESULT_OK
        } else {
            PROXY_RESULT_NOT_ALLOWED
        }
    } else if buffer_type == HTTP_CALL_RESPONSE_BODY && !ctx.capabilities.allow_http_calls {
        PROXY_RESULT_NOT_ALLOWED
    } else {
        PROXY_RESULT_BAD_ARGUMENT
    }
}

/// The part of a buffer from `start` on, at most `max_size` bytes; empty
/// where `start` lies beyond the buffer.
pub open spec fn portion(buffer: Seq<u8>, start: nat, max_size: nat) -> Seq<u8> {
    if start >= buffer.len() {
        Seq::empty()
    } else if max_size <= buffer.len() - start {
        buffer.subrange(start as int, (start + max_size) as int)
    } else {
        buffer.skip(start as int)
    }
}

/// A buffer after the `size` bytes from `start` on are replaced by `data`.
/// A start beyond the end appends; a size beyond the end replaces up to
/// the end.
pub open spec fn spliced(buffer: Seq<u8>, start: nat, size: nat, data: Seq<u8>) -> Seq<u8> {
    let from = if start <= buffer.len() {
        start
    } else {
        buffer.len()
    };
    let to: int = if size <= buffer.len() - from {
        (from + size) as int
    } else {
        buffer.len() as int
    };
    buffer.take(from as int) + data + buffer.skip(to)
}

fn portion_of(buffer: &[u8], start: usize, max_size: usize) -> (r: Vec<u8>)
    ensures
        r@ == portion(buffer@, start as nat, max_size as nat),
{
    if start >= buffer.len() {
        return Vec::new();
    }
    let end = if max_size <= buffer.len() - start {
        start + max_size
    } else {
        buffer.len()
    };
    let r = vstd::slice::slice_to_vec(vstd::slice::slice_subrange(buffer, start, end));
    assert(buffer@.subrange(start as int, buffer.len() as int) =~= buffer@.skip(start as int));
    r
}

fn splice(buffer: &Vec<u8>, start: usize, size: usize, data: &[u8]) -> (r: Vec<u8>)
    ensures
        r@ == spliced(buffer@, start as nat, size as nat, data@),
{
    let from = if start <= buffer.len() {
        start
    } else {
        buffer.len()
    };
    let to = if size <= buffer.len() - from {
        from + size
    } else {
        buffer.len()
    };
    let mut out: Vec<u8> = Vec::new();
    out.extend_from_slice(vstd::slice::slice_subrange(buffer.as_slice(), 0, from));
    out.extend_from_slice(data);
    out.extend_from_slice(vstd::slice::slice_subrange(buffer.as_slice(), to, buffer.len()));
    assert(out@ =~= spliced(buffer@, start as nat, size as nat, data@));
    out
}

/// `proxy_get_buffer_bytes`: a portion of a buffer. A module without the
/// read capability is answered `NOT_ALLOWED`.
pub fn proxy_get_buffer_bytes(ctx: &HttpContext, buffer_type: i32, start: usize, max_size: usize) -> (r: (
    i32,
    Vec<u8>,
))
    ensures
        r.0 == read_status(ctx, buffer_type),
        r.1@ == if r.0 == PROXY_RESULT_OK {
            portion(buffer_of(ctx, buffer_type), start as nat, max_size as nat)
        } else {
            Seq::empty()
        },
{
    broadcast use vstd::std_specs::hash::group_hash_axioms;

    let known = buffer_type == HTTP_REQUEST_BODY || buffer_type == HTTP_RESPONSE_BODY || buffer_type
        == HTTP_CALL_RESPONSE_BODY || buffer_type == PLUGIN_CONFIGURATION || buffer_type
        == VM_CONFIGURATION;
    if !known {
        return (PROXY_RESULT_BAD_ARGUMENT, Vec::new());
    }
    if buffer_type == HTTP_REQUEST_BODY {
        if !ctx.capabilities.allow_request_body_read {
            return (PROXY_RESULT_NOT_ALLOWED, Vec::new());
        }
        (PROXY_RESULT_OK, portion_of(ctx.request_body.as_slice(), start, max_size))
    } else if buffer_type == HTTP_RESPONSE_BODY {
        if !ctx.capabilities.allow_response_body_read {
            return (PROXY_RESULT_NOT_ALLOWED, Vec::new());
        }
        (PROXY_RESULT_OK, portion_of(ctx.response_body.as_slice(), start, max_size))
    } else if buffer_type == PLUGIN_CONFIGURATION {
        (PROXY_RESULT_OK, portion_of(ctx.plugin_configuration.as_slice(), start, max_size))
    } else if buffer_type == VM_CONFIGURATION {
        (PROXY_RESULT_OK, portion_of(ctx.vm_configuration.as_slice(), start, max_size))
    } else {
        if !ctx.capabilities.allow_http_calls {
            return (PROXY_RESULT_NOT_ALLOWED, Vec::new());
        }
        match ctx.current_http_call_token {
            None => (PROXY_RESULT_OK, Vec::new()),
            Some(token) => match ctx.http_call_responses.get(&token) {
                None => (PROXY_RESULT_OK, Vec::new()),
                Some(response) => (PROXY_RESULT_OK, portion_of(response.body.as_slice(), start, max_size)),
            },
        }
    }
}

/// `proxy_set_buffer_bytes`: replaces a portion of the body of the request
/// or of the response, and marks the body as modified. A module without
/// the write capability is answered `NOT_ALLOWED`, and nothing changes.
pub fn proxy_set_buffer_bytes(ctx: &mut HttpContext, buffer_type: i32, start: usize, size: usize, data: &[u8]) -> (status:
    i32)
    ensures
        status == write_status(old(ctx), buffer_type),
        status != PROXY_RESULT_OK ==> *final(ctx) == *old(ctx),
        status == PROXY_RESULT_OK && buffer_type == HTTP_REQUEST_BODY ==> {
            &&& final(ctx).request_body@ == spliced(old(ctx).request_body@, start as nat, size as nat, data@)
            &&& final(ctx).request_body_modified
            &&& final(ctx).response_body == old(ctx).response_body
            &&& final(ctx).response_body_modified == old(ctx).response_body_modified
        },
        status == PROXY_RESULT_OK && buffer_type == HTTP_RESPONSE_BODY ==> {
            &&& final(ctx).response_body@ == spliced(old(ctx).response_body@, start as nat, size as nat, data@)
            &&& final(ctx).response_body_modified
            &&& final(ctx).request_body == old(ctx).request_body
            &&& final(ctx).request_body_modified == old(ctx).request_body_modified
        },
        final(ctx).same_but_bodies(old(ctx)),
{
    if buffer_type == HTTP_REQUEST_BODY {
        if !ctx.capabilities.allow_request_body_write {
            return PROXY_RESULT_NOT_ALLOWED;
        }
        ctx.request_body = splice(&ctx.request_body, start, size, data);
        ctx.request_body_modified = true;
        PROXY_RESULT_OK
    } else if buffer_type == HTTP_RESPONSE_BODY {
        if !ctx.capabilities.allow_response_body_write {
            return PROXY_RESULT_NOT_ALLOWED;
        }
        ctx.response_body = splice(&ctx.response_body, start, size, data);
        ctx.response_body_modified = true;
        PROXY_RESULT_OK
    } else if buffer_type == HTTP_CALL_RESPONSE_BODY && !ctx.capabilities.allow_http_calls {
        PROXY_RESULT_NOT_ALLOWED
    } else {
        PROXY_RESULT_BAD_ARGUMENT
    }
}

impl HttpContext {
    /// Whether everything but the bodies of the request and of the
    /// response, and the marks that they were modified, is as in `other`.
    pub open spec fn same_but_bodies(&self, other: &Self) -> bool {
        &&& self.context_id == other.context_id
        &&& self.root_context_id == other.root_context_id
        &&& self.request_headers == other.request_headers
        &&& self.request_trailers == other.request_trailers
        &&& self.request_path == other.request_path
        &&& self.request_method == other.request_method
        &&& self.request_query == other.request_query
        &&& self.request_body_complete == other.request_body_complete
        &&& self.response_status == other.response_status
        &&& self.response_headers == other.response_headers
        &&& self.response_trailers == other.response_trailers
        &&& self.response_body_complete == other.response_body_complete
        &&& self.client_ip == other.client_ip
        &&& self.plugin_name == other.plugin_name
        &&& self.plugin_configuration == other.plugin_configuration
        &&& self.vm_configuration == other.vm_configuration
        &&& self.request_headers_modified == other.request_headers_modified
        &&& self.response_headers_modified == other.response_headers_modified
        &&& self.local_response == other.local_response
        &&& self.pending_http_calls == other.pending_http_calls
        &&& self.next_http_call_token == other.next_http_call_token
        &&& self.http_call_responses == other.http_call_responses
        &&& self.current_http_call_token == other.current_http_call_token
        &&& self.metrics == other.metrics
        &&& self.next_metric_id == other.next_metric_id
        &&& self.shared_data_cas == other.shared_data_cas
        &&& self.capabilities == other.capabilities
        &&& self.tick_period_ms == other.tick_period_ms
    }
}

} // verus!
