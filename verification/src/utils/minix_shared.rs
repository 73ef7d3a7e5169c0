//! The kernel information page, which every guest can have mapped read-only.

use super::wire::{push_u32, u32s_wire};
use vstd::bytes::*;
use vstd::prelude::*;

verus! {

pub const KERNINFO_MAGIC: u32 = 0xfc3b84bf;

/// Address at which the page is mapped in a guest.
pub const SHARED_BASE_ADDR: u32 = 0xf1002000;

/// Size of a `MinixKerninfo` record in guest memory, in bytes.
pub const KERNINFO_SIZE: u32 = 56;

/// Size of a `Clockinfo` record in guest memory, in bytes.
pub const CLOCKINFO_SIZE: u32 = 24;

/// The record at the start of the page: what the kernel offers, and where
/// the other records are.
#[derive(Debug, Clone, Copy, PartialEq, Eq, Structural)]
pub struct MinixKerninfo {
    pub kerninfo_magic: u32,
    /// Features of the kernel.
    pub minix_feature_flags: u32,
    /// What is present in this record.
    pub ki_flags: u32,
    pub flags_unused2: u32,
    pub flags_unused3: u32,
    pub flags_unused4: u32,
    pub kinfo_ptr: u32,
    pub machine_ptr: u32,
    pub kmessages_ptr: u32,
    pub loadinfo_ptr: u32,
    pub minix_ipcvecs_ptr: u32,
    pub kuserinfo_ptr: u32,
    pub arm_frclock: u32,
    pub kclockinfo_ptr: u32,
}

impl MinixKerninfo {
    /// The record with the magic number and every other field zero.
    pub open spec fn initial() -> MinixKerninfo {
        MinixKerninfo {
            kerninfo_magic: KERNINFO_MAGIC,
            minix_feature_flags: 0,
            ki_flags: 0,
            flags_unused2: 0,
            flags_unused3: 0,
            flags_unused4: 0,
            kinfo_ptr: 0,
            machine_ptr: 0,
            kmessages_ptr: 0,
            loadinfo_ptr: 0,
            minix_ipcvecs_ptr: 0,
            kuserinfo_ptr: 0,
            arm_frclock: 0,
            kclockinfo_ptr: 0,
        }
    }

    /// The fields in the order in which they lie in memory.
    pub open spec fn fields(self) -> Seq<u32> {
        seq![
            self.kerninfo_magic,
            self.minix_feature_flags,
            self.ki_flags,
            self.flags_unused2,
            self.flags_unused3,
            self.flags_unused4,
            self.kinfo_ptr,
            self.machine_ptr,
            self.kmessages_ptr,
            self.loadinfo_ptr,
            self.minix_ipcvecs_ptr,
            self.kuserinfo_ptr,
            self.arm_frclock,
            self.kclockinfo_ptr,
        ]
    }
}

impl Default for MinixKerninfo {
    fn default() -> (k: MinixKerninfo)
        ensures
            k == MinixKerninfo::initial(),
    {
        MinixKerninfo {
            kerninfo_magic: KERNINFO_MAGIC,
            minix_feature_flags: 0,
            ki_flags: 0,
            flags_unused2: 0,
            flags_unused3: 0,
            flags_unused4: 0,
            kinfo_ptr: 0,
            machine_ptr: 0,
            kmessages_ptr: 0,
            loadinfo_ptr: 0,
            minix_ipcvecs_ptr: 0,
            kuserinfo_ptr: 0,
            arm_frclock: 0,
            kclockinfo_ptr: 0,
        }
    }
}

/// Times of the system clock.
#[derive(Debug, Clone, Copy, PartialEq, Eq, Structural)]
pub struct Clockinfo {
    /// Seconds since the epoch at boot.
    pub boottime: u32,
    /// Clock ticks since boot.
    pub uptime: u32,
    pub _rsvd1: u32,
    /// Real time in clock ticks since boot.
    pub realtime: u32,
    pub _rsvd2: u32,
    /// Clock frequency in ticks per second.
    pub hz: u32,
}

impl Clockinfo {
    /// The clock at boot: every time zero, the frequency `HZ`.
    pub open spec fn initial() -> Clockinfo {
        Clockinfo { boottime: 0, uptime: 0, _rsvd1: 0, realtime: 0, _rsvd2: 0, hz: crate::HZ }
    }

    /// The fields in the order in which they lie in memory.
    pub open spec fn fields(self) -> Seq<u32> {
        seq![self.boottime, self.uptime, self._rsvd1, self.realtime, self._rsvd2, self.hz]
    }
}

impl Default for Clockinfo {
    fn default() -> (c: Clockinfo)
        ensures
            c == Clockinfo::initial(),
    {
        Clockinfo { boottime: 0, uptime: 0, _rsvd1: 0, realtime: 0, _rsvd2: 0, hz: crate::HZ }
    }
}

/// What the page holds: the kernel information, and behind it the clock.
#[derive(Debug, Clone, Copy, PartialEq, Eq, Structural)]
pub struct SharedImage {
    pub minix_kerninfo: MinixKerninfo,
    pub kclockinfo: Clockinfo,
}

impl SharedImage {
    /// The page at boot. The kernel information points at the clock, which
    /// lies right behind it.
    pub open spec fn initial() -> SharedImage {
        SharedImage {
            minix_kerninfo: MinixKerninfo {
                kclockinfo_ptr: (SHARED_BASE_ADDR + KERNINFO_SIZE) as u32,
                ..MinixKerninfo::initial()
            },
            kclockinfo: Clockinfo::initial(),
        }
    }

    /// The bytes of the page, from its start on.
    pub open spec fn wire(self) -> Seq<u8> {
        u32s_wire(self.minix_kerninfo.fields() + self.kclockinfo.fields())
    }

    /// The two records take `KERNINFO_SIZE` and `CLOCKINFO_SIZE` bytes.
    pub proof fn lemma_wire_len(self)
        ensures
            u32s_wire(self.minix_kerninfo.fields()).len() == KERNINFO_SIZE,
            u32s_wire(self.kclockinfo.fields()).len() == CLOCKINFO_SIZE,
            self.wire().len() == KERNINFO_SIZE + CLOCKINFO_SIZE,
    {
    }

    /// The bytes of the page, from its start on.
    pub fn to_bytes(&self) -> (b: Vec<u8>)
        ensures
            b@ == self.wire(),
    {
        let k = &self.minix_kerninfo;
        let c = &self.kclockinfo;
        let fields: [u32; 20] = [
            k.kerninfo_magic,
            k.minix_feature_flags,
            k.ki_flags,
            k.flags_unused2,
            k.flags_unused3,
            k.flags_unused4,
            k.kinfo_ptr,
            k.machine_ptr,
            k.kmessages_ptr,
            k.loadinfo_ptr,
            k.minix_ipcvecs_ptr,
            k.kuserinfo_ptr,
            k.arm_frclock,
            k.kclockinfo_ptr,
            c.boottime,
            c.uptime,
            c._rsvd1,
            c.realtime,
            c._rsvd2,
            c.hz,
        ];
        proof {
            assert(fields@ =~= self.minix_kerninfo.fields() + self.kclockinfo.fields());
        }
        let mut b: Vec<u8> = Vec::new();
        let mut i: usize = 0;
        proof {
            assert(u32s_wire(fields@.take(0)) =~= Seq::<u8>::empty());
        }
        while i < 20
            invariant
                i <= 20,
                b@ == u32s_wire(fields@.take(i as int)),
            decreases 20 - i,
        {
            proof {
                crate::utils::wire::lemma_u32s_wire_push(fields@.take(i as int), fields@[i as int]);
                assert(fields@.take(i as int).push(fields@[i as int]) =~= fields@.take(i + 1));
            }
            push_u32(&mut b, fields[i]);
            i = i + 1;
        }
        proof {
            assert(fields@.take(20) =~= fields@);
        }
        b
    }
}

impl Default for SharedImage {
    fn default() -> (image: SharedImage)
        ensures
            image == SharedImage::initial(),
    {
        let mut image = SharedImage {
            minix_kerninfo: MinixKerninfo::default(),
            kclockinfo: Clockinfo::default(),
        };
        image.minix_kerninfo.kclockinfo_ptr = SHARED_BASE_ADDR + KERNINFO_SIZE;
        image
    }
}

} // verus!
