//! gRPC status codes as the callbacks carry them.

use vstd::prelude::*;

verus! {

/// The call completed successfully.
pub const OK: i32 = 0;

/// The operation was cancelled.
pub const CANCELLED: i32 = 1;

/// Unknown error.
pub const UNKNOWN: i32 = 2;

/// An invalid argument was given.
pub const INVALID_ARGUMENT: i32 = 3;

/// The deadline expired before the operation could complete.
pub const DEADLINE_EXCEEDED: i32 = 4;

/// A requested entity was not found.
pub const NOT_FOUND: i32 = 5;

/// The entity to create already exists.
pub const ALREADY_EXISTS: i32 = 6;

/// The caller lacks permission.
pub const PERMISSION_DENIED: i32 = 7;

/// A resource has been exhausted.
pub const RESOURCE_EXHAUSTED: i32 = 8;

/// The system is not in the state the operation requires.
pub const FAILED_PRECONDITION: i32 = 9;

/// The operation was aborted.
pub const ABORTED: i32 = 10;

/// The operation was attempted past the valid range.
pub const OUT_OF_RANGE: i32 = 11;

/// The operation is not implemented.
pub const UNIMPLEMENTED: i32 = 12;

/// Internal error.
pub const INTERNAL: i32 = 13;

/// The service is currently unavailable.
pub const UNAVAILABLE: i32 = 14;

/// Unrecoverable data loss or corruption.
pub const DATA_LOSS: i32 = 15;

/// The request lacks valid authentication credentials.
pub const UNAUTHENTICATED: i32 = 16;

} // verus!
