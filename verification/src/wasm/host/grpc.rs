//! gRPC calls from modules. The host functions exist so that modules that
//! import them can be loaded; none of them is implemented.

use vstd::prelude::*;
use crate::wasm::constants::PROXY_RESULT_UNIMPLEMENTED;

verus! {

/// `proxy_grpc_call`: not implemented.
pub fn proxy_grpc_call() -> (status: i32)
    ensures
        status == PROXY_RESULT_UNIMPLEMENTED,
{
    PROXY_RESULT_UNIMPLEMENTED
}

/// `proxy_grpc_stream`: not implemented.
pub fn proxy_grpc_stream() -> (status: i32)
    ensures
        status == PROXY_RESULT_UNIMPLEMENTED,
{
    PROXY_RESULT_UNIMPLEMENTED
}

/// `proxy_grpc_cancel`: not implemented.
pub fn proxy_grpc_cancel() -> (status: i32)
    ensures
        status == PROXY_RESULT_UNIMPLEMENTED,
{
    PROXY_RESULT_UNIMPLEMENTED
}

/// `proxy_grpc_close`: not implemented.
pub fn proxy_grpc_close() -> (status: i32)
    ensures
        status == PROXY_RESULT_UNIMPLEMENTED,
{
    PROXY_RESULT_UNIMPLEMENTED
}

/// `proxy_grpc_send`: not implemented.
pub fn proxy_grpc_send() -> (status: i32)
    ensures
        status == PROXY_RESULT_UNIMPLEMENTED,
{
    PROXY_RESULT_UNIMPLEMENTED
}

} // verus!
