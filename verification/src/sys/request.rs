//! What a GETINFO kernel call can ask for.

use vstd::prelude::*;

verus! {

/// The kernel information structure.
pub const GET_KINFO: i32 = 0;

/// The boot image table.
pub const GET_IMAGE: i32 = 1;

/// The kernel process table.
pub const GET_PROCTAB: i32 = 2;

/// The randomness buffer.
pub const GET_RANDOMNESS: i32 = 3;

/// The monitor parameters.
pub const GET_MONPARAMS: i32 = 4;

/// The kernel environment string.
pub const GET_KENV: i32 = 5;

/// The table of IRQ hooks.
pub const GET_IRQHOOKS: i32 = 6;

/// The kernel privileges table.
pub const GET_PRIVTAB: i32 = 8;

/// Various kernel addresses.
pub const GET_KADDRESSES: i32 = 9;

/// The scheduling queues.
pub const GET_SCHEDINFO: i32 = 10;

/// The process slot of a given process.
pub const GET_PROC: i32 = 11;

/// The machine information.
pub const GET_MACHINE: i32 = 12;

/// The latency timing of the locks.
pub const GET_LOCKTIMING: i32 = 13;

/// A buffer for BIOS calls.
pub const GET_BIOSBUFFER: i32 = 14;

/// The load average information.
pub const GET_LOADINFO: i32 = 15;

/// The IRQ masks.
pub const GET_IRQACTIDS: i32 = 16;

/// The privilege structure of the caller.
pub const GET_PRIV: i32 = 17;

/// The clock frequency.
pub const GET_HZ: i32 = 18;

/// The name, the endpoint and the privileges of the caller.
pub const GET_WHOAMI: i32 = 19;

/// One randomness bin.
pub const GET_RANDOMNESS_BIN: i32 = 20;

/// The cumulative idle time stamp counter.
pub const GET_IDLETSC: i32 = 21;

/// Information about the CPUs.
pub const GET_CPUINFO: i32 = 23;

/// The general registers of a process.
pub const GET_REGS: i32 = 24;

/// The ticks that a CPU spent in each state.
pub const GET_CPUTICKS: i32 = 25;

} // verus!
