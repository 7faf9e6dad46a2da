//! Control of the pipeline by a module: logging, ticks and local
//! responses.

use vstd::prelude::*;
use crate::wasm::constants::{
    LOG_CRITICAL, LOG_TRACE, PROXY_RESULT_BAD_ARGUMENT, PROXY_RESULT_NOT_ALLOWED, PROXY_RESULT_OK,
};
use crate::wasm::context::HttpContext;
use crate::wasm::types::LocalResponse;

verus! {

/// `proxy_log`: whether a message of a module goes to the log. A module
/// without the capability for logging is answered `NOT_ALLOWED`; a level
/// that is none of the six log levels is a bad argument.
pub fn proxy_log(ctx: &HttpContext, level: i32) -> (status: i32)
    ensures
        status == if !ctx.capabilities.allow_logging {
            PROXY_RESULT_NOT_ALLOWED
        } else if level < LOG_TRACE || level > LOG_CRITICAL {
            PROXY_RESULT_BAD_ARGUMENT
        } else {
            PROXY_RESULT_OK
        },
{
    if !ctx.capabilities.allow_logging {
        PROXY_RESULT_NOT_ALLOWED
    } else if level < LOG_TRACE || level > LOG_CRITICAL {
        PROXY_RESULT_BAD_ARGUMENT
    } else {
        PROXY_RESULT_OK
    }
}

/// `proxy_set_tick_period_milliseconds`: sets the tick period of the
/// module; 0 ends the ticks.
pub fn proxy_set_tick_period_milliseconds(ctx: &mut HttpContext, period_ms: u32) -> (status: i32)
    ensures
        status == PROXY_RESULT_OK,
        *final(ctx) == (HttpContext { tick_period_ms: period_ms, ..*old(ctx) }),
{
    ctx.tick_period_ms = period_ms;
    PROXY_RESULT_OK
}

/// `proxy_send_local_response`: the module answers the request itself,
/// which short-circuits the pipeline. A module without the capability is
/// answered `NOT_ALLOWED`, and nothing changes; a status outside 100 to
/// 599 is a bad argument.
pub fn proxy_send_local_response(
    ctx: &mut HttpContext,
    status_code: i32,
    headers: Vec<(String, String)>,
    body: Vec<u8>,
) -> (status: i32)
    ensures
        status == if !old(ctx).capabilities.allow_send_local_response {
            PROXY_RESULT_NOT_ALLOWED
        } else if status_code < 100 || status_code > 599 {
            PROXY_RESULT_BAD_ARGUMENT
        } else {
            PROXY_RESULT_OK
        },
        status != PROXY_RESULT_OK ==> *final(ctx) == *old(ctx),
        status == PROXY_RESULT_OK ==> *final(ctx) == (HttpContext {
            local_response: Some(LocalResponse { status_code: status_code as u16, headers, body }),
            ..*old(ctx)
        }),
{
    if !ctx.capabilities.allow_send_local_response {
        return PROXY_RESULT_NOT_ALLOWED;
    }
    if status_code < 100 || status_code > 599 {
        return PROXY_RESULT_BAD_ARGUMENT;
    }
    ctx.local_response = Some(LocalResponse { status_code: status_code as u16, headers, body });
    PROXY_RESULT_OK
}

} // verus!
