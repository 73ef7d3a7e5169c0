//! Numbers of the IPC calls, as the guests put them in `rcx`.

use vstd::prelude::*;

verus! {

/// Blocking send.
pub const SEND: u64 = 1;

/// Blocking receive.
pub const RECEIVE: u64 = 2;

/// Send, then receive the answer.
pub const SENDREC: u64 = 3;

/// Notification that never blocks.
pub const NOTIFY: u64 = 4;

/// Send that fails where it would block.
pub const SENDNB: u64 = 5;

/// Request for the kernel information page.
pub const MINIX_KERNINFO: u64 = 6;

/// Asynchronous send of a table of messages.
pub const SENDA: u64 = 16;

} // verus!
