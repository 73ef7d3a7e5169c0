//! Bits of the privilege class of a process (`s_flags`).

use vstd::prelude::*;

verus! {

pub const PREEMPTIBLE: u16 = 0x002;

pub const BILLABLE: u16 = 0x004;

pub const DYN_PRIV_ID: u16 = 0x008;

pub const SYS_PROC: u16 = 0x010;

pub const CHECK_IO_PORT: u16 = 0x020;

pub const CHECK_IRQ: u16 = 0x040;

pub const CHECK_MEM: u16 = 0x080;

pub const ROOT_SYS_PROC: u16 = 0x100;

pub const VM_SYS_PROC: u16 = 0x200;

pub const LU_SYS_PROC: u16 = 0x400;

pub const RST_SYS_PROC: u16 = 0x800;

} // verus!
