//! The kernel information structure.

use crate::sys::types::{
    VirBytes, MAXMEMMAP, MULTIBOOT_MAX_MODS, MULTIBOOT_PARAM_BUF_SIZE, NR_BOOT_PROCS,
};
use crate::sys::types::boot_image::BootImage;
use vstd::prelude::*;

verus! {

/// What the kernel knows of the machine and of the boot, as the system
/// processes can ask for it.
pub struct KInfo {
    /// Boot information as the boot loader handed it over.
    pub mbi: u32,
    pub module_list: [u32; MULTIBOOT_MAX_MODS],
    pub memmap: [u32; MAXMEMMAP],
    pub mem_high_phys: u32,
    pub mmap_size: i32,
    pub mods_with_kernel: i32,
    pub kern_mod: i32,
    /// Lowest page directory entry that the kernel does not use.
    pub freepde_start: i32,
    pub param_buf: [u8; MULTIBOOT_PARAM_BUF_SIZE],
    pub kmessages: u32,
    /// Whether system output goes to the serial line.
    pub do_serial_debug: i32,
    /// Baud rate of the serial line.
    pub serial_debug_baud: i32,
    /// Whether the kernel is in a panic.
    pub minix_panicing: i32,
    /// Where the kernel wants the stack set.
    pub user_sp: VirBytes,
    /// Upper limit of a process.
    pub user_end: VirBytes,
    /// Where the address space of the kernel starts.
    pub vir_kern_start: VirBytes,
    pub bootstrap_start: VirBytes,
    pub bootstrap_len: VirBytes,
    pub boot_procs: [BootImage; NR_BOOT_PROCS],
    /// Number of user processes.
    pub nr_procs: i32,
    /// Number of kernel tasks.
    pub nr_tasks: i32,
    /// Kernel release number.
    pub release: [u8; 6],
    /// Kernel version number.
    pub version: [u8; 6],
    /// Bytes allocated by the kernel to load the memory server.
    pub vm_allocated_bytes: i32,
    /// Bytes used by the kernel.
    pub kernel_allocated_bytes: i32,
    /// Bytes used by the kernel at run time.
    pub kernel_allocated_bytes_dynamic: i32,
}

} // verus!
