//! Result codes handed back to the guests.

use vstd::prelude::*;

verus! {

pub const OK: i32 = 0;

/// No such process.
pub const ESRCH: i32 = -3;

/// Argument list too long.
pub const E2BIG: i32 = -7;

/// Invalid argument.
pub const EINVAL: i32 = -22;

/// Resource temporarily unavailable.
pub const EAGAIN: i32 = -35;

/// Source or destination is not ready.
pub const ENOTREADY: i32 = -201;

/// Source or destination is not alive.
pub const EDEADSRCDST: i32 = -202;

/// Illegal call number.
pub const EBADCALL: i32 = -209;

/// No permission for the call.
pub const ECALLDENIED: i32 = -210;

/// The destination cannot handle the request.
pub const EBADREQUEST: i32 = -212;

} // verus!
