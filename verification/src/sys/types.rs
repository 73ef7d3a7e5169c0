//! Records that the kernel shares with the system processes.

pub mod boot_image;
pub mod kinfo;
pub mod privileges;

use vstd::prelude::*;

verus! {

pub const PROC_NAME_LEN: usize = 16;

pub const NR_BOOT_PROCS: usize = 17;

pub const NR_SYS_PROCS: usize = 64;

pub const MULTIBOOT_MAX_MODS: usize = 20;

pub const MAXMEMMAP: usize = 40;

pub const MULTIBOOT_PARAM_BUF_SIZE: usize = 1024;

pub const IPCF_MAX_ELEMENTS: usize = NR_SYS_PROCS * 2;

pub const NR_IO_RANGE: usize = 64;

pub const NR_MEM_RANGE: usize = 20;

pub const NR_IRQ: usize = 16;

/// Number of kernel calls.
pub const NR_SYS_CALLS: usize = 58;

/// Bits in one chunk of a bit map.
pub const BITCHUNK_BITS: usize = 32;

/// Chunks in a bit map with one bit for each system process.
pub const SYS_MAP_CHUNKS: usize = 2;

/// Chunks in a bit map with one bit for each kernel call.
pub const SYS_CALL_MASK_SIZE: usize = 2;

/// An address in the address space of a guest.
pub type VirBytes = u32;

/// Number of chunks that a bit map of `nr_bits` bits takes.
pub open spec fn chunks_for(nr_bits: int) -> int {
    (nr_bits + BITCHUNK_BITS - 1) / (BITCHUNK_BITS as int)
}

/// Number of chunks that a bit map of `nr_bits` bits takes.
pub fn bitmap_chunks(nr_bits: usize) -> (chunks: usize)
    ensures
        chunks == chunks_for(nr_bits as int),
{
    if nr_bits == 0 {
        0
    } else {
        (nr_bits - 1) / BITCHUNK_BITS + 1
    }
}

/// A set of signals.
#[derive(Debug, Clone, Copy, PartialEq, Eq)]
pub struct SigSet(pub u32, pub u32, pub u32, pub u32);

/// One chunk of a bit map.
#[derive(Debug, Clone, Copy, PartialEq, Eq)]
pub struct BitChunk(pub u32);

/// A bit map with one bit for each system process.
#[derive(Debug, Clone, Copy, PartialEq, Eq)]
pub struct SysMap {
    pub chunk: [BitChunk; SYS_MAP_CHUNKS],
}

#[derive(Debug, Clone, Copy, PartialEq, Eq)]
pub struct MinixTimer {
    /// Next timer in the chain.
    pub tmr_next: u32,
    /// Expiration time.
    pub tmr_exp_time: u32,
    /// Function to call when the timer expires.
    pub tmr_func: u32,
    /// Argument of that function.
    pub tmr_arg: i32,
}

/// A range of I/O ports.
#[derive(Debug, Clone, Copy, PartialEq, Eq)]
pub struct IoRange {
    pub ior_base: u32,
    pub ior_limit: u32,
}

/// A range of physical memory.
#[derive(Debug, Clone, Copy, PartialEq, Eq)]
pub struct MinixMemRange {
    pub mr_base: u32,
    pub mr_limit: u32,
}

} // verus!
