//! Constants of the Proxy-Wasm ABI v0.2.1.

use vstd::prelude::*;

verus! {

/// Success.
pub const PROXY_RESULT_OK: i32 = 0;

/// Key or value not found.
pub const PROXY_RESULT_NOT_FOUND: i32 = 1;

/// Invalid argument.
pub const PROXY_RESULT_BAD_ARGUMENT: i32 = 2;

/// Serialization error.
pub const PROXY_RESULT_SERIALIZATION_FAILURE: i32 = 3;

/// Parse error.
pub const PROXY_RESULT_PARSE_FAILURE: i32 = 4;

/// Expression evaluation failed.
pub const PROXY_RESULT_BAD_EXPRESSION: i32 = 5;

/// Invalid memory access.
pub const PROXY_RESULT_INVALID_MEMORY_ACCESS: i32 = 6;

/// Empty result.
pub const PROXY_RESULT_EMPTY: i32 = 7;

/// Compare-and-swap mismatch.
pub const PROXY_RESULT_CAS_MISMATCH: i32 = 8;

/// Returned result is too large.
pub const PROXY_RESULT_RESULT_MISMATCH: i32 = 9;

/// Internal error.
pub const PROXY_RESULT_INTERNAL_FAILURE: i32 = 10;

/// Unimplemented.
pub const PROXY_RESULT_UNIMPLEMENTED: i32 = 12;

/// Operation not allowed: the module lacks the capability.
pub const PROXY_RESULT_NOT_ALLOWED: i32 = 13;

/// Continue processing.
pub const ACTION_CONTINUE: i32 = 0;

/// Pause processing.
pub const ACTION_PAUSE: i32 = 1;

/// Log level: trace.
pub const LOG_TRACE: i32 = 0;

/// Log level: debug.
pub const LOG_DEBUG: i32 = 1;

/// Log level: info.
pub const LOG_INFO: i32 = 2;

/// Log level: warning.
pub const LOG_WARN: i32 = 3;

/// Log level: error.
pub const LOG_ERROR: i32 = 4;

/// Log level: critical.
pub const LOG_CRITICAL: i32 = 5;

/// Map type: request headers from downstream.
pub const HTTP_REQUEST_HEADERS: i32 = 0;

/// Map type: request trailers from downstream.
pub const HTTP_REQUEST_TRAILERS: i32 = 1;

/// Map type: response headers from upstream.
pub const HTTP_RESPONSE_HEADERS: i32 = 2;

/// Map type: response trailers from upstream.
pub const HTTP_RESPONSE_TRAILERS: i32 = 3;

/// Map type: initial metadata of a gRPC call.
pub const GRPC_RECEIVE_INITIAL_METADATA: i32 = 4;

/// Map type: trailing metadata of a gRPC call.
pub const GRPC_RECEIVE_TRAILING_METADATA: i32 = 5;

/// Map type: response headers of an HTTP call.
pub const HTTP_CALL_RESPONSE_HEADERS: i32 = 6;

/// Map type: response trailers of an HTTP call.
pub const HTTP_CALL_RESPONSE_TRAILERS: i32 = 7;

/// Buffer type: request body from downstream.
pub const HTTP_REQUEST_BODY: i32 = 0;

/// Buffer type: response body from upstream.
pub const HTTP_RESPONSE_BODY: i32 = 1;

/// Buffer type: response body of an HTTP call.
pub const HTTP_CALL_RESPONSE_BODY: i32 = 2;

/// Buffer type: message of a gRPC call.
pub const GRPC_RECEIVE_BUFFER: i32 = 3;

/// Buffer type: plugin configuration.
pub const PLUGIN_CONFIGURATION: i32 = 4;

/// Buffer type: VM configuration.
pub const VM_CONFIGURATION: i32 = 5;

/// Stream type: HTTP request.
pub const STREAM_TYPE_HTTP_REQUEST: i32 = 0;

/// Stream type: HTTP response.
pub const STREAM_TYPE_HTTP_RESPONSE: i32 = 1;

/// Stream type: downstream connection.
pub const STREAM_TYPE_DOWNSTREAM: i32 = 2;

/// Stream type: upstream connection.
pub const STREAM_TYPE_UPSTREAM: i32 = 3;

/// Metric type: counter.
pub const METRIC_TYPE_COUNTER: i32 = 0;

/// Metric type: gauge.
pub const METRIC_TYPE_GAUGE: i32 = 1;

/// Metric type: histogram.
pub const METRIC_TYPE_HISTOGRAM: i32 = 2;

} // verus!
