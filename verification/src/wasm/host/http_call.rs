//! `proxy_http_call`: a module asks the host to call an upstream.
//!
//! The call is only recorded here, under a fresh token. The embedder issues
//! it and later delivers the answer to the module.
//!
//! Header lists cross the ABI as a count followed by the pairs, all sizes
//! being four bytes, least significant byte first:
//! `count, (key length, key, value length, value)*`.

use vstd::prelude::*;
use vstd::utf8::{decode_utf8, encode_utf8, valid_utf8};
use crate::text::{utf8_lossy, utf8_lossy_string};
use crate::wasm::constants::{
    PROXY_RESULT_INTERNAL_FAILURE, PROXY_RESULT_INVALID_MEMORY_ACCESS,
    PROXY_RESULT_NOT_ALLOWED, PROXY_RESULT_OK,
};
use crate::wasm::context::HttpContext;
use crate::wasm::host::memory::{
    can_write, le32, le32_bytes, le32_vec, read_le32, read_region, read_string, region, writable,
    MemoryWrite, WriteModel,
};
use crate::wasm::types::{pairs_view, PendingHttpCall};

verus! {

/// A list of headers as texts.
pub type Pairs = Seq<(Seq<char>, Seq<char>)>;

/// The `count` pairs serialised in `data` from `pos` on; `None` where the
/// data ends too early. Keys and values that are not valid UTF-8 are read
/// as `String::from_utf8_lossy` reads them.
pub open spec fn spec_pairs(data: Seq<u8>, pos: int, count: nat) -> Option<Pairs>
    decreases count,
{
    if count == 0 {
        Some(Seq::empty())
    } else if pos < 0 || pos + 4 > data.len() {
        None
    } else {
        let key_len = le32(data[pos], data[pos + 1], data[pos + 2], data[pos + 3]) as int;
        let key_end = pos + 4 + key_len;
        if key_end + 4 > data.len() {
            None
        } else {
            let val_len = le32(data[key_end], data[key_end + 1], data[key_end + 2], data[key_end + 3]) as int;
            let val_end = key_end + 4 + val_len;
            if val_end > data.len() {
                None
            } else {
                match spec_pairs(data, val_end, (count - 1) as nat) {
                    Some(rest) => Some(
                        seq![
                            (
                                utf8_lossy(data.subrange(pos + 4, key_end)),
                                utf8_lossy(data.subrange(key_end + 4, val_end)),
                            ),
                        ] + rest,
                    ),
                    None => None,
                }
            }
        }
    }
}

/// The header list serialised in `data`. Fewer than four bytes stand for
/// the empty list.
pub open spec fn spec_deserialize_headers(data: Seq<u8>) -> Option<Pairs> {
    if data.len() < 4 {
        Some(Seq::empty())
    } else {
        spec_pairs(data, 4, le32(data[0], data[1], data[2], data[3]) as nat)
    }
}

/// Reads a serialised header list.
pub fn deserialize_headers(data: &[u8]) -> (r: Option<Vec<(String, String)>>)
    ensures
        match r {
            Some(headers) => spec_deserialize_headers(data@) == Some(pairs_view(headers@)),
            None => spec_deserialize_headers(data@) is None,
        },
{
    let mut headers: Vec<(String, String)> = Vec::new();
    if data.len() < 4 {
        assert(pairs_view(headers@) =~= Seq::empty());
        return Some(headers);
    }
    let num_pairs = read_le32(data, 0);
    let mut pos: usize = 4;
    let mut remaining: u32 = num_pairs;
    assert(pairs_view(headers@) =~= Seq::empty());
    while remaining > 0
        invariant
            4 <= pos <= data.len(),
            match spec_pairs(data@, pos as int, remaining as nat) {
                Some(rest) => spec_deserialize_headers(data@) == Some(pairs_view(headers@) + rest),
                None => spec_deserialize_headers(data@) is None,
            },
        decreases remaining,
    {
        if data.len() - pos < 4 {
            return None;
        }
        let key_len = read_le32(data, pos) as usize;
        let key_start = pos + 4;
        if data.len() - key_start < key_len || data.len() - key_start - key_len < 4 {
            return None;
        }
        let key_end = key_start + key_len;
        let val_len = read_le32(data, key_end) as usize;
        let val_start = key_end + 4;
        if data.len() - val_start < val_len {
            return None;
        }
        let val_end = val_start + val_len;
        let key = utf8_lossy_string(vstd::slice::slice_subrange(data, key_start, key_end));
        let value = utf8_lossy_string(vstd::slice::slice_subrange(data, val_start, val_end));
        let ghost before = pairs_view(headers@);
        headers.push((key, value));
        proof {
            let item = (
                utf8_lossy(data@.subrange(key_start as int, key_end as int)),
                utf8_lossy(data@.subrange(val_start as int, val_end as int)),
            );
            assert(pairs_view(headers@) =~= before.push(item));
            match spec_pairs(data@, val_end as int, (remaining - 1) as nat) {
                Some(rest) => {
                    assert(before.push(item) + rest =~= before + (seq![item] + rest));
                },
                None => {},
            }
        }
        pos = val_end;
        remaining -= 1;
    }
    assert(pairs_view(headers@) + Seq::<(Seq<char>, Seq<char>)>::empty() =~= pairs_view(headers@));
    Some(headers)
}

/// One pair as it is serialised: the length of the key, the key, the
/// length of the value, the value.
pub open spec fn pair_bytes(pair: (Seq<char>, Seq<char>)) -> Seq<u8> {
    let key = encode_utf8(pair.0);
    let value = encode_utf8(pair.1);
    le32_bytes(key.len() as u32) + key + le32_bytes(value.len() as u32) + value
}

/// Pairs as they are serialised, one after the other.
pub open spec fn pairs_bytes(pairs: Pairs) -> Seq<u8>
    decreases pairs.len(),
{
    if pairs.len() == 0 {
        Seq::empty()
    } else {
        pairs_bytes(pairs.drop_last()) + pair_bytes(pairs.last())
    }
}

/// Whether a header list can be serialised: the number of pairs and the
/// length of every key and value fit four bytes.
pub open spec fn can_serialize(pairs: Pairs) -> bool {
    &&& pairs.len() <= u32::MAX
    &&& forall|i: int|
        0 <= i < pairs.len() ==> encode_utf8((#[trigger] pairs[i]).0).len() <= u32::MAX && encode_utf8(
            pairs[i].1,
        ).len() <= u32::MAX
}

/// A header list as it is serialised: the number of pairs, then the
/// pairs.
pub open spec fn spec_serialize_headers(pairs: Pairs) -> Seq<u8> {
    le32_bytes(pairs.len() as u32) + pairs_bytes(pairs)
}

/// Serialises a header list, as `deserialize_headers` reads it. `None`
/// where a count or a length does not fit four bytes.
pub fn serialize_headers(pairs: &[(String, String)]) -> (r: Option<Vec<u8>>)
    ensures
        can_serialize(pairs_view(pairs@)) ==> (r matches Some(bytes) && bytes@ == spec_serialize_headers(
            pairs_view(pairs@),
        )),
        !can_serialize(pairs_view(pairs@)) ==> r is None,
{
    let ghost all = pairs_view(pairs@);
    if pairs.len() as u64 > u32::MAX as u64 {
        return None;
    }
    let mut out = le32_vec(pairs.len() as u32);
    let mut i: usize = 0;
    assert(all.subrange(0, 0) =~= Seq::<(Seq<char>, Seq<char>)>::empty());
    while i < pairs.len()
        invariant
            i <= pairs.len(),
            all == pairs_view(pairs@),
            all.len() <= u32::MAX,
            out@ == le32_bytes(all.len() as u32) + pairs_bytes(all.subrange(0, i as int)),
            can_serialize(all.subrange(0, i as int)),
        decreases pairs.len() - i,
    {
        let key = pairs[i].0.as_str().as_bytes();
        let value = pairs[i].1.as_str().as_bytes();
        if key.len() as u64 > u32::MAX as u64 || value.len() as u64 > u32::MAX as u64 {
            assert(all[i as int] == (pairs@[i as int].0@, pairs@[i as int].1@));
            return None;
        }
        let ghost before = out@;
        let key_len = le32_vec(key.len() as u32);
        out.extend_from_slice(key_len.as_slice());
        out.extend_from_slice(key);
        let value_len = le32_vec(value.len() as u32);
        out.extend_from_slice(value_len.as_slice());
        out.extend_from_slice(value);
        proof {
            let next = all.subrange(0, i + 1);
            assert(next.drop_last() =~= all.subrange(0, i as int));
            assert(next.last() == all[i as int]);
            assert(all[i as int] == (pairs@[i as int].0@, pairs@[i as int].1@));
            assert(out@ =~= before + pair_bytes(all[i as int]));
            assert(out@ =~= le32_bytes(all.len() as u32) + pairs_bytes(next));
            assert forall|j: int| 0 <= j < next.len() implies encode_utf8((#[trigger] next[j]).0).len()
                <= u32::MAX && encode_utf8(next[j].1).len() <= u32::MAX by {
                if j < i {
                    assert(next[j] == all.subrange(0, i as int)[j]);
                }
            }
        }
        i += 1;
    }
    assert(all.subrange(0, i as int) =~= all);
    Some(out)
}

/// The arguments of `proxy_http_call`.
#[derive(Debug, Clone, Copy)]
pub struct HttpCallArgs {
    /// Address of the upstream name.
    pub upstream_ptr: i32,
    /// Length of the upstream name.
    pub upstream_size: i32,
    /// Address of the serialised headers.
    pub headers_ptr: i32,
    /// Length of the serialised headers.
    pub headers_size: i32,
    /// Address of the body.
    pub body_ptr: i32,
    /// Length of the body.
    pub body_size: i32,
    /// Address of the serialised trailers.
    pub trailers_ptr: i32,
    /// Length of the serialised trailers.
    pub trailers_size: i32,
    /// Timeout in milliseconds.
    pub timeout_ms: i32,
    /// Address that the token is to be written to.
    pub return_token: i32,
}

/// Mathematical value of a recorded call.
pub struct CallModel {
    pub token: u32,
    pub upstream: Seq<char>,
    pub timeout_ms: u32,
    pub headers: Pairs,
    pub body: Seq<u8>,
    pub trailers: Pairs,
}

impl View for PendingHttpCall {
    type V = CallModel;

    open spec fn view(&self) -> CallModel {
        CallModel {
            token: self.token,
            upstream: self.upstream@,
            timeout_ms: self.timeout_ms,
            headers: pairs_view(self.headers@),
            body: self.body@,
            trailers: pairs_view(self.trailers@),
        }
    }
}

/// What an optional region of the memory yields: nothing where its size is
/// not positive; `None` where it does not lie within the memory.
pub open spec fn optional_region(memory: Seq<u8>, ptr: i32, size: i32) -> Option<Seq<u8>> {
    if size > 0 {
        region(memory, ptr, size)
    } else {
        Some(Seq::empty())
    }
}

/// The headers that an optional region holds; none where they are
/// malformed.
pub open spec fn region_headers(bytes: Seq<u8>) -> Pairs {
    match spec_deserialize_headers(bytes) {
        Some(h) => h,
        None => Seq::empty(),
    }
}

/// What the host decides on a call: the status, and the call to record
/// where it accepts.
pub struct CallDecision {
    pub status: i32,
    pub call: Option<CallModel>,
}

/// The decision on `proxy_http_call`, step by step:
/// 1. without the capability for HTTP calls: not allowed;
/// 2. with as many calls pending as the module may have: internal
///    failure;
/// 3. with an upstream name outside the memory or not valid UTF-8:
///    invalid memory access;
/// 4. with an upstream that the module may not call: not allowed;
/// 5. with headers, body or trailers outside the memory: invalid memory
///    access;
/// 6. with the tokens used up: internal failure;
/// 7. otherwise the call is recorded under the next token. The status is
///    OK where the token can be written to the return address, and
///    invalid memory access where it cannot.
pub open spec fn decide(ctx: &HttpContext, memory: Seq<u8>, args: HttpCallArgs) -> CallDecision {
    if !ctx.capabilities.allow_http_calls {
        CallDecision { status: PROXY_RESULT_NOT_ALLOWED, call: None }
    } else if ctx.pending_http_calls@.len() >= ctx.capabilities.max_http_calls {
        CallDecision { status: PROXY_RESULT_INTERNAL_FAILURE, call: None }
    } else {
        match region(memory, args.upstream_ptr, args.upstream_size) {
            None => CallDecision { status: PROXY_RESULT_INVALID_MEMORY_ACCESS, call: None },
            Some(name) => if !valid_utf8(name) {
                CallDecision { status: PROXY_RESULT_INVALID_MEMORY_ACCESS, call: None }
            } else if !ctx.capabilities.upstream_allowed(decode_utf8(name)) {
                CallDecision { status: PROXY_RESULT_NOT_ALLOWED, call: None }
            } else {
                match (
                    optional_region(memory, args.headers_ptr, args.headers_size),
                    optional_region(memory, args.body_ptr, args.body_size),
                    optional_region(memory, args.trailers_ptr, args.trailers_size),
                ) {
                    (Some(h), Some(b), Some(t)) => if ctx.next_http_call_token == u32::MAX {
                        CallDecision { status: PROXY_RESULT_INTERNAL_FAILURE, call: None }
                    } else {
                        CallDecision {
                            status: if writable(memory.len(), args.return_token, 4) {
                                PROXY_RESULT_OK
                            } else {
                                PROXY_RESULT_INVALID_MEMORY_ACCESS
                            },
                            call: Some(
                                CallModel {
                                    token: ctx.next_http_call_token,
                                    upstream: decode_utf8(name),
                                    timeout_ms: args.timeout_ms as u32,
                                    headers: region_headers(h),
                                    body: b,
                                    trailers: region_headers(t),
                                },
                            ),
                        }
                    },
                    _ => CallDecision { status: PROXY_RESULT_INVALID_MEMORY_ACCESS, call: None },
                }
            },
        }
    }
}

/// What `proxy_http_call` hands back.
#[derive(Debug, Clone)]
pub struct HttpCallOutcome {
    /// The status code for the module.
    pub status: i32,
    /// The token, to be written to the return address; only with the
    /// status OK.
    pub token: Option<MemoryWrite>,
}

fn headers_in(memory: &[u8], ptr: i32, size: i32) -> (r: Option<Vec<(String, String)>>)
    ensures
        match r {
            Some(h) => optional_region(memory@, ptr, size) matches Some(bytes) && pairs_view(h@)
                == region_headers(bytes),
            None => optional_region(memory@, ptr, size) is None,
        },
{
    if size > 0 {
        match read_region(memory, ptr, size) {
            None => None,
            Some(bytes) => match deserialize_headers(bytes) {
                Some(h) => Some(h),
                None => {
                    let h: Vec<(String, String)> = Vec::new();
                    assert(pairs_view(h@) =~= Seq::empty());
                    Some(h)
                },
            },
        }
    } else {
        let h: Vec<(String, String)> = Vec::new();
        assert(pairs_view(h@) =~= Seq::empty());
        assert(spec_deserialize_headers(Seq::<u8>::empty()) == Some(Seq::<(Seq<char>, Seq<char>)>::empty()));
        Some(h)
    }
}

fn body_in(memory: &[u8], ptr: i32, size: i32) -> (r: Option<Vec<u8>>)
    ensures
        match r {
            Some(b) => optional_region(memory@, ptr, size) == Some(b@),
            None => optional_region(memory@, ptr, size) is None,
        },
{
    if size > 0 {
        match read_region(memory, ptr, size) {
            None => None,
            Some(bytes) => Some(vstd::slice::slice_to_vec(bytes)),
        }
    } else {
        Some(Vec::new())
    }
}

/// `proxy_http_call`. A call that is accepted is recorded among the pending
/// calls of the context under the next token; in every other case the
/// context is left as it was. A module without the capability for HTTP
/// calls is answered `NOT_ALLOWED`. So is one that has room for a call
/// and names an upstream outside its list, wherever the next token
/// stands. Nothing is recorded in either case.
pub fn proxy_http_call(ctx: &mut HttpContext, memory: &[u8], args: HttpCallArgs) -> (r: HttpCallOutcome)
    ensures
        r.status == decide(old(ctx), memory@, args).status,
        !old(ctx).capabilities.allow_http_calls ==> r.status == PROXY_RESULT_NOT_ALLOWED && *final(ctx)
            == *old(ctx),
        old(ctx).capabilities.allow_http_calls && old(ctx).pending_http_calls@.len() < old(
            ctx,
        ).capabilities.max_http_calls ==> match region(memory@, args.upstream_ptr, args.upstream_size) {
            Some(name) => valid_utf8(name) && !old(ctx).capabilities.upstream_allowed(decode_utf8(name)) ==> r.status
                == PROXY_RESULT_NOT_ALLOWED && *final(ctx) == *old(ctx),
            None => true,
        },
        match decide(old(ctx), memory@, args).call {
            None => *final(ctx) == *old(ctx) && r.token is None,
            Some(call) => {
                &&& final(ctx).pending_http_calls@.dom() == old(ctx).pending_http_calls@.dom().insert(
                    call.token,
                )
                &&& final(ctx).pending_http_calls@[call.token]@ == call
                &&& forall|t: u32|
                    #![trigger final(ctx).pending_http_calls@[t]]
                    t != call.token && old(ctx).pending_http_calls@.dom().contains(t) ==> final(
                        ctx
                    ).pending_http_calls@[t] == old(ctx).pending_http_calls@[t]
                &&& final(ctx).next_http_call_token == call.token + 1
                &&& final(ctx).same_but_calls(old(ctx))
                &&& match r.token {
                    Some(w) => r.status == PROXY_RESULT_OK && w@ == (WriteModel {
                        address: args.return_token as nat,
                        bytes: le32_bytes(call.token),
                    }),
                    None => r.status != PROXY_RESULT_OK,
                }
            },
        },
{
    broadcast use vstd::std_specs::hash::group_hash_axioms;

    if !ctx.capabilities.allow_http_calls {
        return HttpCallOutcome { status: PROXY_RESULT_NOT_ALLOWED, token: None };
    }
    if ctx.pending_http_calls.len() >= ctx.capabilities.max_http_calls {
        return HttpCallOutcome { status: PROXY_RESULT_INTERNAL_FAILURE, token: None };
    }
    let upstream = match read_string(memory, args.upstream_ptr, args.upstream_size) {
        Some(u) => u,
        None => {
            return HttpCallOutcome { status: PROXY_RESULT_INVALID_MEMORY_ACCESS, token: None };
        },
    };
    if !ctx.capabilities.is_upstream_allowed(upstream.as_str()) {
        return HttpCallOutcome { status: PROXY_RESULT_NOT_ALLOWED, token: None };
    }
    let headers = match headers_in(memory, args.headers_ptr, args.headers_size) {
        Some(h) => h,
        None => {
            return HttpCallOutcome { status: PROXY_RESULT_INVALID_MEMORY_ACCESS, token: None };
        },
    };
    let body = match body_in(memory, args.body_ptr, args.body_size) {
        Some(b) => b,
        None => {
            return HttpCallOutcome { status: PROXY_RESULT_INVALID_MEMORY_ACCESS, token: None };
        },
    };
    let trailers = match headers_in(memory, args.trailers_ptr, args.trailers_size) {
        Some(t) => t,
        None => {
            return HttpCallOutcome { status: PROXY_RESULT_INVALID_MEMORY_ACCESS, token: None };
        },
    };
    if ctx.next_http_call_token == u32::MAX {
        return HttpCallOutcome { status: PROXY_RESULT_INTERNAL_FAILURE, token: None };
    }
    let token = ctx.allocate_http_call_token();
    let call = PendingHttpCall {
        token,
        upstream,
        timeout_ms: #[verifier::truncate] (args.timeout_ms as u32),
        headers,
        body,
        trailers,
    };
    ctx.pending_http_calls.insert(token, call);
    if !can_write(memory.len(), args.return_token, 4) {
        return HttpCallOutcome { status: PROXY_RESULT_INVALID_MEMORY_ACCESS, token: None };
    }
    HttpCallOutcome {
        status: PROXY_RESULT_OK,
        token: Some(MemoryWrite { address: args.return_token as usize, bytes: le32_vec(token) }),
    }
}

impl HttpContext {
    /// Whether everything but the pending calls and the next token is as
    /// in `other`.
    pub open spec fn same_but_calls(&self, other: &Self) -> bool {
        &&& self.context_id == other.context_id
        &&& self.root_context_id == other.root_context_id
        &&& self.request_headers == other.request_headers
        &&& self.request_body == other.request_body
        &&& self.request_trailers == other.request_trailers
        &&& self.request_path == other.request_path
        &&& self.request_method == other.request_method
        &&& self.request_query == other.request_query
        &&& self.request_body_complete == other.request_body_complete
        &&& self.response_status == other.response_status
        &&& self.response_headers == other.response_headers
        &&& self.response_body == other.response_body
        &&& self.response_trailers == other.response_trailers
        &&& self.response_body_complete == other.response_body_complete
        &&& self.client_ip == other.client_ip
        &&& self.plugin_name == other.plugin_name
        &&& self.plugin_configuration == other.plugin_configuration
        &&& self.vm_configuration == other.vm_configuration
        &&& self.request_headers_modified == other.request_headers_modified
        &&& self.request_body_modified == other.request_body_modified
        &&& self.response_headers_modified == other.response_headers_modified
        &&& self.response_body_modified == other.response_body_modified
        &&& self.local_response == other.local_response
        &&& self.http_call_responses == other.http_call_responses
        &&& self.current_http_call_token == other.current_http_call_token
        &&& self.metrics == other.metrics
        &&& self.next_metric_id == other.next_metric_id
        &&& self.shared_data_cas == other.shared_data_cas
        &&& self.capabilities == other.capabilities
        &&& self.tick_period_ms == other.tick_period_ms
    }
}

} // verus!
