//! Endpoint numbers: the identifiers of processes and of kernel tasks.

use vstd::prelude::*;

verus! {

/// Identifies a process, a kernel task or a special sink.
pub type Endpoint = i32;

pub const ENDPOINT_GENERATION_SHIFT: Endpoint = 15;

pub const ENDPOINT_GENERATION_SIZE: Endpoint = 32768;

pub const ENDPOINT_SLOT_TOP: Endpoint = ENDPOINT_GENERATION_SIZE - MAX_NR_TASKS;

/// Wildcard source, accepted by RECEIVE only.
pub const ANY: Endpoint = ENDPOINT_SLOT_TOP - 1;

pub const NONE: Endpoint = ENDPOINT_SLOT_TOP - 2;

pub const SELF: Endpoint = ENDPOINT_SLOT_TOP - 3;

/// The task in whose name completions of asynchronous sends are notified.
pub const ASYNCM: Endpoint = -5;

pub const IDLE: Endpoint = -4;

pub const CLOCK: Endpoint = -3;

pub const SYSTEM: Endpoint = -2;

pub const KERNEL: Endpoint = -1;

pub const HARDWARE: Endpoint = KERNEL;

pub const MAX_NR_TASKS: Endpoint = 1023;

pub const NR_TASKS: Endpoint = 5;

/// Process manager.
pub const PM_PROC_NR: Endpoint = 0;

/// File system.
pub const VFS_PROC_NR: Endpoint = 1;

/// Reincarnation server.
pub const RS_PROC_NR: Endpoint = 2;

/// Memory driver.
pub const MEM_PROC_NR: Endpoint = 3;

/// Scheduler.
pub const SCHED_PROC_NR: Endpoint = 4;

/// Terminal driver.
pub const TTY_PROC_NR: Endpoint = 5;

/// Data store server.
pub const DS_PROC_NR: Endpoint = 6;

/// Management information base service.
pub const MIB_PROC_NR: Endpoint = 7;

/// Memory server.
pub const VM_PROC_NR: Endpoint = 8;

/// Pipe file system.
pub const PFS_PROC_NR: Endpoint = 9;

/// Root file system.
pub const MFS_PROC_NR: Endpoint = 10;

pub const LAST_SPECIAL_PROC_NR: Endpoint = 11;

pub const INIT_PROC_NR: Endpoint = LAST_SPECIAL_PROC_NR;

pub const NR_BOOT_MODULES: Endpoint = INIT_PROC_NR + 1;

} // verus!
