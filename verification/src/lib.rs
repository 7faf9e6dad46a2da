//! Core logic of a multi-protocol reverse proxy: request routing, gRPC wire
//! handling, response buffering policy and the host side of a Proxy-Wasm
//! filter engine.
//!
//! Every function in this crate carries a contract that Verus proves. Calls
//! into other crates are confined to small wrappers whose contracts are
//! stated, not proved; each of them says so in its documentation.

pub mod buffering;
pub mod config;
pub mod grpc;
pub mod http2;
pub mod http3_server;
pub mod routing;
pub mod text;
pub mod time;
pub mod udp;
pub mod upstream;
pub mod wasm;
