//! Bits of the `flags` field of an entry of a table of asynchronous messages.

use vstd::prelude::*;

verus! {

/// The slot is not in use.
pub const AMF_EMPTY: u32 = 0;

/// The slot holds a message.
pub const AMF_VALID: u32 = 1;

/// The kernel has handled the message; the outcome is in `result`.
pub const AMF_DONE: u32 = 2;

/// Notify the sender once the message is handled.
pub const AMF_NOTIFY: u32 = 4;

/// The message is no answer to a SENDREC.
pub const AMF_NOREPLY: u32 = 8;

/// Notify the sender if the message fails.
pub const AMF_NOTIFY_ERR: u32 = 16;

/// Every bit that has a meaning.
pub const AMF_KNOWN: u32 = 31;

} // verus!
