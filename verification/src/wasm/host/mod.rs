//! The host functions of Proxy-Wasm v0.2.1, as functions of the module's
//! linear memory and the state of the request.
//!
//! A host function reads its arguments from the memory of the module and
//! answers with a status code. What it writes back is returned as a value;
//! the embedder copies it into the memory of the module.

pub mod buffers;
pub mod foreign;
pub mod grpc;
pub mod headers;
pub mod http_call;
pub mod memory;
pub mod metrics;
pub mod properties;
pub mod shared_data;
pub mod shared_queue;
pub mod stream;
pub mod wasi;
