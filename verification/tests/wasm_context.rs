use veil_proxy::wasm::host::http_call::serialize_headers;
use veil_proxy::wasm::capabilities::{CapabilityPreset, ModuleCapabilities};
use veil_proxy::wasm::constants::{
    PROXY_RESULT_INTERNAL_FAILURE, PROXY_RESULT_INVALID_MEMORY_ACCESS,
    PROXY_RESULT_NOT_ALLOWED, PROXY_RESULT_OK, PROXY_RESULT_UNIMPLEMENTED,
};
use veil_proxy::wasm::context::{HostState, HttpContext};
use veil_proxy::wasm::grpc_integration::status;
use veil_proxy::wasm::grpc_integration::{
    on_grpc_close, on_grpc_initial_metadata, on_grpc_message, on_grpc_trailing_metadata,
    process_grpc_response, GrpcCallResponse, GrpcCallback,
};
use veil_proxy::wasm::host::foreign::proxy_call_foreign_function;
use veil_proxy::wasm::host::grpc::{
    proxy_grpc_call, proxy_grpc_cancel, proxy_grpc_close, proxy_grpc_send, proxy_grpc_stream,
};
use veil_proxy::wasm::host::http_call::{deserialize_headers, proxy_http_call, HttpCallArgs};
use veil_proxy::wasm::host::memory::{read_string, MemoryWrite};
use veil_proxy::wasm::host::wasi::{
    clock_time_get, fd_close, fd_fdstat_get, fd_prestat_dir_name, fd_prestat_get, fd_read, fd_seek,
    fd_write, list_get, random_get, sizes_get,
};

fn serialize(pairs: &[(&str, &str)]) -> Vec<u8> {
    let mut out = Vec::new();
    out.extend_from_slice(&(pairs.len() as u32).to_le_bytes());
    for (k, v) in pairs {
        out.extend_from_slice(&(k.len() as u32).to_le_bytes());
        out.extend_from_slice(k.as_bytes());
        out.extend_from_slice(&(v.len() as u32).to_le_bytes());
        out.extend_from_slice(v.as_bytes());
    }
    out
}

#[test]
fn test_grpc_call_response_creation() {
    let response = GrpcCallResponse {
        module_name: "grpc_module".to_string(),
        call_id: 1,
        status_code: status::OK,
        initial_metadata: vec![("content-type".to_string(), "application/grpc".to_string())],
        message: b"response data".to_vec(),
        trailing_metadata: vec![("grpc-status".to_string(), "0".to_string())],
    };

    assert_eq!(response.module_name, "grpc_module");
    assert_eq!(response.call_id, 1);
    assert_eq!(response.status_code, 0);
    assert!(!response.message.is_empty());
}

#[test]
fn test_grpc_status_codes() {
    assert_eq!(status::OK, 0);
    assert_eq!(status::CANCELLED, 1);
    assert_eq!(status::UNKNOWN, 2);
    assert_eq!(status::INVALID_ARGUMENT, 3);
    assert_eq!(status::DEADLINE_EXCEEDED, 4);
    assert_eq!(status::NOT_FOUND, 5);
    assert_eq!(status::UNAVAILABLE, 14);
    assert_eq!(status::UNAUTHENTICATED, 16);
}

#[test]
fn test_grpc_callbacks_in_order() {
    let response = GrpcCallResponse {
        module_name: "m".to_string(),
        call_id: 9,
        status_code: status::NOT_FOUND,
        initial_metadata: vec![("a".to_string(), "b".to_string())],
        message: b"xyz".to_vec(),
        trailing_metadata: vec![("grpc-status".to_string(), "5".to_string())],
    };
    let callbacks = process_grpc_response(response);
    assert_eq!(callbacks.len(), 4);
    assert!(matches!(&callbacks[0], GrpcCallback::InitialMetadata { module_name, call_id: 9, headers }
        if module_name == "m" && headers == &vec![("a".to_string(), "b".to_string())]));
    assert!(matches!(&callbacks[1], GrpcCallback::Message { call_id: 9, message, .. } if message == b"xyz"));
    assert!(matches!(&callbacks[2], GrpcCallback::TrailingMetadata { call_id: 9, trailers, .. }
        if trailers.len() == 1));
    assert!(matches!(&callbacks[3], GrpcCallback::Close { call_id: 9, status_code: 5, .. }));

    let empty = GrpcCallResponse {
        module_name: "m".to_string(),
        call_id: 2,
        status_code: status::OK,
        initial_metadata: vec![],
        message: vec![],
        trailing_metadata: vec![],
    };
    let callbacks = process_grpc_response(empty);
    assert_eq!(callbacks.len(), 1);
    assert!(matches!(&callbacks[0], GrpcCallback::Close { module_name, call_id: 2, status_code: 0 }
        if module_name == "m"));
    assert!(matches!(on_grpc_initial_metadata("x", 1, &[]), GrpcCallback::InitialMetadata { .. }));
    assert!(matches!(on_grpc_message("x", 1, b"m"), GrpcCallback::Message { .. }));
    assert!(matches!(on_grpc_trailing_metadata("x", 1, &[]), GrpcCallback::TrailingMetadata { .. }));
    assert!(matches!(on_grpc_close("x", 1, 3), GrpcCallback::Close { status_code: 3, .. }));
}

#[test]
fn test_new_context() {
    let ctx = HttpContext::new(7, ModuleCapabilities::default());
    assert_eq!(ctx.context_id, 7);
    assert_eq!(ctx.root_context_id, 0);
    assert_eq!(ctx.next_http_call_token, 1);
    assert_eq!(ctx.next_metric_id, 1);
    assert_eq!(ctx.shared_data_cas, 1);
    assert_eq!(ctx.tick_period_ms, 0);
    assert!(ctx.pending_http_calls.is_empty());
    assert!(!ctx.has_request_modifications());
    assert!(!ctx.has_response_modifications());
    assert!(!ctx.should_send_local_response());
    let state = HostState::new(ctx);
    assert_eq!(state.http_ctx.context_id, 7);
}

#[test]
fn test_set_request_extracts_the_query() {
    let mut ctx = HttpContext::new(1, ModuleCapabilities::default());
    ctx.set_request("GET", "/a/b?x=1&y=?2", vec![("h".to_string(), "v".to_string())], "10.0.0.1");
    assert_eq!(ctx.request_method, "GET");
    assert_eq!(ctx.request_path, "/a/b?x=1&y=?2");
    assert_eq!(ctx.request_query, "x=1&y=?2");
    assert_eq!(ctx.client_ip, "10.0.0.1");
    assert_eq!(ctx.request_headers.len(), 1);
    ctx.set_request("POST", "/plain", vec![], "10.0.0.2");
    assert_eq!(ctx.request_query, "x=1&y=?2");
    ctx.set_request("POST", "/empty?", vec![], "10.0.0.2");
    assert_eq!(ctx.request_query, "");
    ctx.set_request("POST", "/\u{e9}?\u{3042}", vec![], "::1");
    assert_eq!(ctx.request_query, "\u{3042}");
}

#[test]
fn test_context_setters() {
    let mut ctx = HttpContext::new(1, ModuleCapabilities::default());
    ctx.set_request_body(vec![1, 2], true);
    assert_eq!(ctx.request_body, vec![1, 2]);
    assert!(ctx.request_body_complete);
    ctx.set_response(204, vec![("a".to_string(), "b".to_string())]);
    assert_eq!(ctx.response_status, 204);
    assert_eq!(ctx.response_headers.len(), 1);
    ctx.set_response_body(vec![3], false);
    assert_eq!(ctx.response_body, vec![3]);
    assert!(!ctx.response_body_complete);
    assert_eq!(ctx.allocate_http_call_token(), 1);
    assert_eq!(ctx.allocate_http_call_token(), 2);
    assert_eq!(ctx.next_http_call_token, 3);
    assert_eq!(ctx.allocate_metric_id(), 1);
    assert_eq!(ctx.next_metric_id, 2);
    ctx.request_body_modified = true;
    assert!(ctx.has_request_modifications());
    ctx.response_headers_modified = true;
    assert!(ctx.has_response_modifications());
}

#[test]
fn test_read_string() {
    let memory = b"..hello..\xff".to_vec();
    assert_eq!(read_string(&memory, 2, 5), Some("hello".to_string()));
    assert_eq!(read_string(&memory, 0, 0), Some(String::new()));
    assert_eq!(read_string(&memory, 10, 0), Some(String::new()));
    assert_eq!(read_string(&memory, 9, 1), None);
    assert_eq!(read_string(&memory, 6, 5), None);
    assert_eq!(read_string(&memory, 11, 0), None);
    assert_eq!(read_string(&memory, -1, 1), None);
    assert_eq!(read_string(&memory, 1, -1), None);
    assert_eq!(read_string(&memory, i32::MAX, i32::MAX), None);
    assert_eq!(read_string(&memory, -4, 5), None);
}

#[test]
fn test_deserialize_headers() {
    assert_eq!(deserialize_headers(&[]), Some(vec![]));
    assert_eq!(deserialize_headers(&[1, 0, 0]), Some(vec![]));
    assert_eq!(deserialize_headers(&[0, 0, 0, 0, 9, 9]), Some(vec![]));
    let data = serialize(&[(":path", "/x"), ("empty", ""), ("", "v")]);
    assert_eq!(
        deserialize_headers(&data),
        Some(vec![
            (":path".to_string(), "/x".to_string()),
            ("empty".to_string(), String::new()),
            (String::new(), "v".to_string()),
        ])
    );
    assert_eq!(deserialize_headers(&data[..data.len() - 1]), None);
    assert_eq!(deserialize_headers(&[1, 0, 0, 0]), None);
    assert_eq!(deserialize_headers(&[1, 0, 0, 0, 1, 0, 0, 0, b'k']), None);
    assert_eq!(deserialize_headers(&[1, 0, 0, 0, 0xff, 0xff, 0xff, 0xff, b'k']), None);
    let mut lossy = vec![1, 0, 0, 0, 1, 0, 0, 0, 0xff, 1, 0, 0, 0, b'v'];
    assert_eq!(deserialize_headers(&lossy), Some(vec![("\u{fffd}".to_string(), "v".to_string())]));
    lossy[0] = 2;
    assert_eq!(deserialize_headers(&lossy), None);
}

fn call_memory() -> (Vec<u8>, HttpCallArgs) {
    let mut memory = vec![0u8; 16];
    let upstream_ptr = memory.len() as i32;
    memory.extend_from_slice(b"backend");
    let headers = serialize(&[(":method", "POST"), (":path", "/hook")]);
    let headers_ptr = memory.len() as i32;
    memory.extend_from_slice(&headers);
    let body_ptr = memory.len() as i32;
    memory.extend_from_slice(b"payload");
    let args = HttpCallArgs {
        upstream_ptr,
        upstream_size: 7,
        headers_ptr,
        headers_size: headers.len() as i32,
        body_ptr,
        body_size: 7,
        trailers_ptr: 0,
        trailers_size: 0,
        timeout_ms: 5000,
        return_token: 4,
    };
    (memory, args)
}

#[test]
fn test_http_call_is_recorded() {
    let (memory, args) = call_memory();
    let mut ctx = HttpContext::new(1, CapabilityPreset::Extended.to_capabilities());
    let outcome = proxy_http_call(&mut ctx, &memory, args);
    assert_eq!(outcome.status, PROXY_RESULT_OK);
    assert_eq!(outcome.token, Some(MemoryWrite { address: 4, bytes: vec![1, 0, 0, 0] }));
    assert_eq!(ctx.next_http_call_token, 2);
    let call = &ctx.pending_http_calls[&1];
    assert_eq!(call.token, 1);
    assert_eq!(call.upstream, "backend");
    assert_eq!(call.timeout_ms, 5000);
    assert_eq!(
        call.headers,
        vec![(":method".to_string(), "POST".to_string()), (":path".to_string(), "/hook".to_string())]
    );
    assert_eq!(call.body, b"payload");
    assert!(call.trailers.is_empty());
    let outcome = proxy_http_call(&mut ctx, &memory, args);
    assert_eq!(outcome.token, Some(MemoryWrite { address: 4, bytes: vec![2, 0, 0, 0] }));
    assert_eq!(ctx.pending_http_calls.len(), 2);
}

#[test]
fn test_http_call_without_the_capability() {
    let (memory, args) = call_memory();
    let mut ctx = HttpContext::new(1, CapabilityPreset::Standard.to_capabilities());
    let outcome = proxy_http_call(&mut ctx, &memory, args);
    assert_eq!(outcome.status, PROXY_RESULT_NOT_ALLOWED);
    assert_eq!(outcome.status, 13);
    assert!(outcome.token.is_none());
    assert!(ctx.pending_http_calls.is_empty());
    assert_eq!(ctx.next_http_call_token, 1);
}

#[test]
fn test_http_call_refusals() {
    let (memory, args) = call_memory();
    let mut caps = CapabilityPreset::Extended.to_capabilities();
    caps.max_http_calls = 1;
    let mut ctx = HttpContext::new(1, caps.clone());
    assert_eq!(proxy_http_call(&mut ctx, &memory, args).status, PROXY_RESULT_OK);
    assert_eq!(proxy_http_call(&mut ctx, &memory, args).status, PROXY_RESULT_INTERNAL_FAILURE);
    assert_eq!(ctx.pending_http_calls.len(), 1);

    caps.max_http_calls = 10;
    caps.allowed_upstreams = vec!["other".to_string()];
    let mut ctx = HttpContext::new(1, caps.clone());
    assert_eq!(proxy_http_call(&mut ctx, &memory, args).status, PROXY_RESULT_NOT_ALLOWED);
    assert!(ctx.pending_http_calls.is_empty());
    assert_eq!(ctx.next_http_call_token, 1);
    ctx.next_http_call_token = u32::MAX;
    assert_eq!(proxy_http_call(&mut ctx, &memory, args).status, PROXY_RESULT_NOT_ALLOWED);
    assert_eq!(ctx.next_http_call_token, u32::MAX);
    ctx.capabilities.allowed_upstreams.clear();
    assert_eq!(proxy_http_call(&mut ctx, &memory, args).status, PROXY_RESULT_INTERNAL_FAILURE);
    let outside = HttpCallArgs { headers_ptr: memory.len() as i32, headers_size: 8, ..args };
    assert_eq!(proxy_http_call(&mut ctx, &memory, outside).status, PROXY_RESULT_INVALID_MEMORY_ACCESS);
    assert!(ctx.pending_http_calls.is_empty());
    assert_eq!(ctx.next_http_call_token, u32::MAX);

    caps.allowed_upstreams.clear();
    let mut ctx = HttpContext::new(1, caps.clone());
    let bad = HttpCallArgs { upstream_ptr: memory.len() as i32, ..args };
    assert_eq!(proxy_http_call(&mut ctx, &memory, bad).status, PROXY_RESULT_INVALID_MEMORY_ACCESS);
    let bad = HttpCallArgs { body_ptr: -1, ..args };
    assert_eq!(proxy_http_call(&mut ctx, &memory, bad).status, PROXY_RESULT_INVALID_MEMORY_ACCESS);
    let bad = HttpCallArgs { headers_size: i32::MAX, ..args };
    assert_eq!(proxy_http_call(&mut ctx, &memory, bad).status, PROXY_RESULT_INVALID_MEMORY_ACCESS);
    let bad = HttpCallArgs { trailers_ptr: 1, trailers_size: i32::MAX, ..args };
    assert_eq!(proxy_http_call(&mut ctx, &memory, bad).status, PROXY_RESULT_INVALID_MEMORY_ACCESS);
    assert!(ctx.pending_http_calls.is_empty());
    assert_eq!(ctx.next_http_call_token, 1);

    let bad = HttpCallArgs { return_token: memory.len() as i32 - 3, ..args };
    let outcome = proxy_http_call(&mut ctx, &memory, bad);
    assert_eq!(outcome.status, PROXY_RESULT_INVALID_MEMORY_ACCESS);
    assert!(outcome.token.is_none());
    assert_eq!(ctx.pending_http_calls.len(), 1);

    ctx.next_http_call_token = u32::MAX;
    assert_eq!(proxy_http_call(&mut ctx, &memory, args).status, PROXY_RESULT_INTERNAL_FAILURE);
}

#[test]
fn test_http_call_with_malformed_headers() {
    let (mut memory, mut args) = call_memory();
    args.headers_ptr = memory.len() as i32;
    args.headers_size = 4;
    memory.extend_from_slice(&[5, 0, 0, 0]);
    args.timeout_ms = -1;
    let mut ctx = HttpContext::new(1, CapabilityPreset::Extended.to_capabilities());
    assert_eq!(proxy_http_call(&mut ctx, &memory, args).status, PROXY_RESULT_OK);
    let call = &ctx.pending_http_calls[&1];
    assert!(call.headers.is_empty());
    assert_eq!(call.timeout_ms, u32::MAX);
}

#[test]
fn test_stub_host_functions() {
    assert_eq!(proxy_call_foreign_function(), PROXY_RESULT_UNIMPLEMENTED);
    assert_eq!(proxy_grpc_call(), PROXY_RESULT_UNIMPLEMENTED);
    assert_eq!(proxy_grpc_stream(), PROXY_RESULT_UNIMPLEMENTED);
    assert_eq!(proxy_grpc_cancel(), PROXY_RESULT_UNIMPLEMENTED);
    assert_eq!(proxy_grpc_close(), PROXY_RESULT_UNIMPLEMENTED);
    assert_eq!(proxy_grpc_send(), PROXY_RESULT_UNIMPLEMENTED);
}

#[test]
fn test_fd_write() {
    let mut memory = vec![0u8; 64];
    memory[0..4].copy_from_slice(&32u32.to_le_bytes());
    memory[4..8].copy_from_slice(&6u32.to_le_bytes());
    memory[8..12].copy_from_slice(&40u32.to_le_bytes());
    memory[12..16].copy_from_slice(&3u32.to_le_bytes());
    memory[16..20].copy_from_slice(&44u32.to_le_bytes());
    memory[20..24].copy_from_slice(&2u32.to_le_bytes());
    memory[32..38].copy_from_slice(b"hi\n\n\n\n");
    memory[40..43].copy_from_slice(b"\n\n\n");
    memory[44..46].copy_from_slice(&[0xff, 0xfe]);
    let outcome = fd_write(&memory, 1, 0, 3, 60);
    assert_eq!(outcome.errno, 0);
    assert_eq!(outcome.log, vec!["hi".to_string()]);
    assert_eq!(outcome.writes, vec![MemoryWrite { address: 60, bytes: vec![11, 0, 0, 0] }]);
    assert_eq!(fd_write(&memory, 2, 0, 1, 60).log, vec!["hi".to_string()]);
    assert_eq!(fd_write(&memory, 0, 0, 1, 60).errno, 8);
    assert_eq!(fd_write(&memory, 3, 0, 1, 60).errno, 8);
    assert_eq!(fd_write(&memory, 1, 0, 1, 61).errno, 21);
    assert_eq!(fd_write(&memory, 1, 60, 1, 0).errno, 21);
    assert_eq!(fd_write(&memory, 1, -8, 1, 0).errno, 21);
    assert_eq!(fd_write(&memory, 1, i32::MAX, 2, 0).errno, 21);
    let none = fd_write(&memory, 1, 0, 0, 60);
    assert_eq!(none.errno, 0);
    assert_eq!(none.writes, vec![MemoryWrite { address: 60, bytes: vec![0, 0, 0, 0] }]);
    assert_eq!(fd_write(&memory, 1, 0, -5, 60).errno, 0);
    memory[4..8].copy_from_slice(&33u32.to_le_bytes());
    assert_eq!(fd_write(&memory, 1, 0, 1, 60).errno, 21);
}

#[test]
fn test_wasi_shims() {
    assert_eq!(fd_read(), 0);
    assert_eq!(fd_close(), 0);
    assert_eq!(fd_seek(), 8);
    assert_eq!(fd_prestat_get(), 8);
    assert_eq!(fd_prestat_dir_name(), 8);
    assert_eq!(list_get(), 0);
    let stat = fd_fdstat_get(64, 1, 8);
    assert_eq!(stat.errno, 0);
    let mut expected = vec![0u8; 24];
    expected[0] = 2;
    assert_eq!(stat.writes, vec![MemoryWrite { address: 8, bytes: expected }]);
    assert_eq!(fd_fdstat_get(64, 3, 40).writes[0].bytes, vec![0u8; 24]);
    assert_eq!(fd_fdstat_get(64, 1, 41).errno, 21);
    assert_eq!(fd_fdstat_get(64, 1, -1).errno, 21);
    let sizes = sizes_get(16, 0, 12);
    assert_eq!(sizes.errno, 0);
    assert_eq!(
        sizes.writes,
        vec![
            MemoryWrite { address: 0, bytes: vec![0; 4] },
            MemoryWrite { address: 12, bytes: vec![0; 4] },
        ]
    );
    assert_eq!(sizes_get(16, 0, 13).errno, 21);
    assert!(sizes_get(16, 13, 0).writes.is_empty());
    let clock = clock_time_get(16, 0x0102_0304_0506_0708, 8);
    assert_eq!(clock.errno, 0);
    assert_eq!(clock.writes, vec![MemoryWrite { address: 8, bytes: vec![8, 7, 6, 5, 4, 3, 2, 1] }]);
    assert_eq!(clock_time_get(16, 1, 9).errno, 21);
}

#[test]
fn test_random_get() {
    let seed: u64 = 42;
    let outcome = random_get(64, seed, 10, 5);
    assert_eq!(outcome.errno, 0);
    let mut expected = Vec::new();
    let mut state = seed;
    for _ in 0..5 {
        state = state.wrapping_mul(6364136223846793005).wrapping_add(1);
        expected.push((state >> 32) as u8);
    }
    assert_eq!(outcome.writes, vec![MemoryWrite { address: 10, bytes: expected }]);
    assert_eq!(random_get(64, seed, 60, 5).errno, 21);
    assert_eq!(random_get(64, seed, 0, -1).errno, 21);
    assert_eq!(random_get(64, seed, -1, 1).errno, 21);
    assert_eq!(random_get(64, seed, 64, 0).writes, vec![MemoryWrite { address: 64, bytes: vec![] }]);
}

#[test]
fn test_serialize_headers() {
    assert_eq!(serialize_headers(&[]), Some(vec![0, 0, 0, 0]));
    let pairs = vec![("a".to_string(), "bc".to_string()), ("".to_string(), "é".to_string())];
    let bytes = serialize_headers(&pairs).unwrap();
    assert_eq!(
        bytes,
        vec![2, 0, 0, 0, 1, 0, 0, 0, b'a', 2, 0, 0, 0, b'b', b'c', 0, 0, 0, 0, 2, 0, 0, 0, 0xc3, 0xa9]
    );
    assert_eq!(deserialize_headers(&bytes), Some(pairs));
}
