//! Foreign function calls. The host offers none.

use vstd::prelude::*;
use crate::wasm::constants::PROXY_RESULT_UNIMPLEMENTED;

verus! {

/// `proxy_call_foreign_function`: not implemented, whatever the function.
pub fn proxy_call_foreign_function() -> (status: i32)
    ensures
        status == PROXY_RESULT_UNIMPLEMENTED,
{
    PROXY_RESULT_UNIMPLEMENTED
}

} // verus!
