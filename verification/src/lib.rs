//! A user-space model of the message-passing core of a MINIX-like microkernel.
//!
//! Every guest is a host process that stops on a software interrupt. The
//! supervisor reads the trap, treats it as a kernel call or as one of the IPC
//! primitives, and answers by changing the registers and the memory of the
//! guests involved. This crate holds that logic over a model of the stopped
//! guests: their registers, the window of their memory that the supervisor
//! holds, and the list of effects that are still to be carried out on the
//! host process.

pub mod ipc;
pub mod sys;
pub mod trap;
pub mod utils;

use vstd::prelude::*;

verus! {

/// Clock frequency reported to the guests, in ticks per second.
pub const HZ: u32 = 16 * 1024 * 1024;

} // verus!
