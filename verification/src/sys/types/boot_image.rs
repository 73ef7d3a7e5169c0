//! The table of the processes that are part of the boot image.

use crate::sys::types::{NR_BOOT_PROCS, PROC_NAME_LEN};
use crate::utils::endpoint::{
    Endpoint, ASYNCM, CLOCK, DS_PROC_NR, HARDWARE, IDLE, INIT_PROC_NR, MEM_PROC_NR, MFS_PROC_NR,
    MIB_PROC_NR, PFS_PROC_NR, PM_PROC_NR, RS_PROC_NR, SCHED_PROC_NR, SYSTEM, TTY_PROC_NR,
    VFS_PROC_NR, VM_PROC_NR,
};
use crate::utils::wire::{i32_bits, push_i32, push_u32, to_words, words_of};
use vstd::bytes::*;
use vstd::prelude::*;
use vstd::std_specs::convert::FromSpecImpl;

verus! {

/// Size of an entry of the boot image table in guest memory, in bytes.
pub const BOOT_IMAGE_SIZE: usize = 32;

/// Number of words that the boot image table takes in guest memory.
pub const BOOT_IMAGE_WORDS: usize = 68;

/// Byte `i` of a process name field that holds `name`: the name, cut where
/// the field ends, and zeros behind it.
pub open spec fn name_byte(name: Seq<u8>, i: int) -> u8 {
    if i < name.len() {
        name[i]
    } else {
        0
    }
}

/// The name of a process, in a field of `PROC_NAME_LEN` bytes.
#[derive(Debug, Clone, Copy, PartialEq, Eq)]
pub struct ProcName {
    pub bytes: [u8; PROC_NAME_LEN],
}

impl ProcName {
    /// The field that holds `name`.
    pub open spec fn named(name: Seq<u8>) -> ProcName {
        ProcName {
            bytes: [
                name_byte(name, 0),
                name_byte(name, 1),
                name_byte(name, 2),
                name_byte(name, 3),
                name_byte(name, 4),
                name_byte(name, 5),
                name_byte(name, 6),
                name_byte(name, 7),
                name_byte(name, 8),
                name_byte(name, 9),
                name_byte(name, 10),
                name_byte(name, 11),
                name_byte(name, 12),
                name_byte(name, 13),
                name_byte(name, 14),
                name_byte(name, 15),
            ],
        }
    }
}

impl<const N: usize> From<&[u8; N]> for ProcName {
    /// The field that holds `name`.
    fn from(name: &[u8; N]) -> (r: ProcName) {
        let mut bytes = [0u8;PROC_NAME_LEN];
        let mut i: usize = 0;
        while i < PROC_NAME_LEN && i < N
            invariant
                i <= PROC_NAME_LEN,
                i <= N,
                forall|j: int| 0 <= j < i ==> bytes@[j] == name@[j],
                forall|j: int| i <= j < PROC_NAME_LEN ==> bytes@[j] == 0,
            decreases PROC_NAME_LEN - i,
        {
            bytes[i] = name[i];
            i = i + 1;
        }
        proof {
            assert(bytes =~= ProcName::named(name@).bytes);
        }
        ProcName { bytes }
    }
}

impl<const N: usize> FromSpecImpl<&[u8; N]> for ProcName {
    open spec fn obeys_from_spec() -> bool {
        true
    }

    open spec fn from_spec(name: &[u8; N]) -> ProcName {
        ProcName::named(name@)
    }
}

/// One entry of the boot image table.
#[derive(Debug, Clone, Copy, PartialEq, Eq)]
pub struct BootImage {
    pub proc_nr: i32,
    pub proc_name: ProcName,
    pub endpoint: Endpoint,
    pub start_addr: u32,
    pub len: u32,
}

impl BootImage {
    /// The entry of the process `proc_nr`, whose endpoint is its number.
    pub open spec fn boot(proc_nr: i32, proc_name: ProcName) -> BootImage {
        BootImage { proc_nr, proc_name, endpoint: proc_nr, start_addr: 0, len: 0 }
    }

    /// The entry of the process `proc_nr` with the name `proc_name`.
    pub fn new<const N: usize>(proc_nr: i32, proc_name: &[u8; N]) -> (r: Self)
        ensures
            r == BootImage::boot(proc_nr, ProcName::named(proc_name@)),
    {
        Self {
            proc_nr,
            proc_name: ProcName::from(proc_name),
            endpoint: proc_nr,
            start_addr: 0,
            len: 0,
        }
    }

    /// The 32 bytes that hold this entry in guest memory.
    pub open spec fn wire(self) -> Seq<u8> {
        spec_u32_to_le_bytes(i32_bits(self.proc_nr)) + self.proc_name.bytes@
            + spec_u32_to_le_bytes(i32_bits(self.endpoint)) + spec_u32_to_le_bytes(self.start_addr)
            + spec_u32_to_le_bytes(self.len)
    }

    /// The bytes of a table of entries, one entry behind the other.
    pub open spec fn table_wire(table: Seq<BootImage>) -> Seq<u8>
        decreases table.len(),
    {
        if table.len() == 0 {
            Seq::empty()
        } else {
            BootImage::table_wire(table.drop_last()) + table.last().wire()
        }
    }

    /// The processes of the boot image.
    pub open spec fn boot_table() -> Seq<BootImage> {
        seq![
            BootImage::boot(ASYNCM, ProcName::named(seq![
                'a' as u8, 's' as u8, 'y' as u8, 'n' as u8, 'c' as u8, 'm' as u8,
            ])),
            BootImage::boot(
                IDLE,
                ProcName::named(seq!['i' as u8, 'd' as u8, 'l' as u8, 'e' as u8]),
            ),
            BootImage::boot(
                CLOCK,
                ProcName::named(seq!['c' as u8, 'l' as u8, 'o' as u8, 'c' as u8, 'k' as u8]),
            ),
            BootImage::boot(SYSTEM, ProcName::named(seq![
                's' as u8, 'y' as u8, 's' as u8, 't' as u8, 'e' as u8, 'm' as u8,
            ])),
            BootImage::boot(HARDWARE, ProcName::named(seq![
                'k' as u8, 'e' as u8, 'r' as u8, 'n' as u8, 'e' as u8, 'l' as u8,
            ])),
            BootImage::boot(DS_PROC_NR, ProcName::named(seq!['d' as u8, 's' as u8])),
            BootImage::boot(RS_PROC_NR, ProcName::named(seq!['r' as u8, 's' as u8])),
            BootImage::boot(PM_PROC_NR, ProcName::named(seq!['p' as u8, 'm' as u8])),
            BootImage::boot(
                SCHED_PROC_NR,
                ProcName::named(seq!['s' as u8, 'c' as u8, 'h' as u8, 'e' as u8, 'd' as u8]),
            ),
            BootImage::boot(VFS_PROC_NR, ProcName::named(seq!['v' as u8, 'f' as u8, 's' as u8])),
            BootImage::boot(MEM_PROC_NR, ProcName::named(seq![
                'm' as u8, 'e' as u8, 'm' as u8, 'o' as u8, 'r' as u8, 'y' as u8,
            ])),
            BootImage::boot(TTY_PROC_NR, ProcName::named(seq!['t' as u8, 't' as u8, 'y' as u8])),
            BootImage::boot(MIB_PROC_NR, ProcName::named(seq!['m' as u8, 'i' as u8, 'b' as u8])),
            BootImage::boot(VM_PROC_NR, ProcName::named(seq!['v' as u8, 'm' as u8])),
            BootImage::boot(PFS_PROC_NR, ProcName::named(seq!['p' as u8, 'f' as u8, 's' as u8])),
            BootImage::boot(MFS_PROC_NR, ProcName::named(seq!['m' as u8, 'f' as u8, 's' as u8])),
            BootImage::boot(
                INIT_PROC_NR,
                ProcName::named(seq!['i' as u8, 'n' as u8, 'i' as u8, 't' as u8]),
            ),
        ]
    }

    /// An entry takes `BOOT_IMAGE_SIZE` bytes, a table that many for each
    /// entry.
    pub proof fn lemma_table_wire_len(table: Seq<BootImage>)
        ensures
            BootImage::table_wire(table).len() == BOOT_IMAGE_SIZE * table.len(),
        decreases table.len(),
    {
        lemma_auto_spec_u32_to_from_le_bytes();
        if table.len() > 0 {
            BootImage::lemma_table_wire_len(table.drop_last());
        }
    }

    /// The bytes that hold this entry in guest memory.
    pub fn to_bytes(&self, buf: &mut Vec<u8>)
        ensures
            final(buf)@ == old(buf)@ + self.wire(),
    {
        push_i32(buf, self.proc_nr);
        let mut i: usize = 0;
        let ghost head = buf@;
        proof {
            assert(head + self.proc_name.bytes@.take(0) =~= head);
        }
        while i < PROC_NAME_LEN
            invariant
                i <= PROC_NAME_LEN,
                buf@ == head + self.proc_name.bytes@.take(i as int),
            decreases PROC_NAME_LEN - i,
        {
            buf.push(self.proc_name.bytes[i]);
            proof {
                assert(buf@ =~= head + self.proc_name.bytes@.take(i + 1));
            }
            i = i + 1;
        }
        proof {
            assert(self.proc_name.bytes@.take(PROC_NAME_LEN as int) =~= self.proc_name.bytes@);
        }
        push_i32(buf, self.endpoint);
        push_u32(buf, self.start_addr);
        push_u32(buf, self.len);
        proof {
            assert(buf@ =~= old(buf)@ + self.wire());
        }
    }

    /// The boot image table as the words that hold it in guest memory.
    pub fn image() -> (r: [u64; BOOT_IMAGE_WORDS])
        ensures
            r@ == words_of(BootImage::table_wire(BootImage::boot_table())),
    {
        let mut table: Vec<BootImage> = Vec::new();
        let name: [u8; 6] = ['a' as u8, 's' as u8, 'y' as u8, 'n' as u8, 'c' as u8, 'm' as u8];
        proof {
            assert(name@ =~= seq![
                'a' as u8, 's' as u8, 'y' as u8, 'n' as u8, 'c' as u8, 'm' as u8,
            ]);
        }
        table.push(BootImage::new(ASYNCM, &name));
        let name: [u8; 4] = ['i' as u8, 'd' as u8, 'l' as u8, 'e' as u8];
        proof {
            assert(name@ =~= seq!['i' as u8, 'd' as u8, 'l' as u8, 'e' as u8]);
        }
        table.push(BootImage::new(IDLE, &name));
        let name: [u8; 5] = ['c' as u8, 'l' as u8, 'o' as u8, 'c' as u8, 'k' as u8];
        proof {
            assert(name@ =~= seq!['c' as u8, 'l' as u8, 'o' as u8, 'c' as u8, 'k' as u8]);
        }
        table.push(BootImage::new(CLOCK, &name));
        let name: [u8; 6] = ['s' as u8, 'y' as u8, 's' as u8, 't' as u8, 'e' as u8, 'm' as u8];
        proof {
            assert(name@ =~= seq![
                's' as u8, 'y' as u8, 's' as u8, 't' as u8, 'e' as u8, 'm' as u8,
            ]);
        }
        table.push(BootImage::new(SYSTEM, &name));
        let name: [u8; 6] = ['k' as u8, 'e' as u8, 'r' as u8, 'n' as u8, 'e' as u8, 'l' as u8];
        proof {
            assert(name@ =~= seq![
                'k' as u8, 'e' as u8, 'r' as u8, 'n' as u8, 'e' as u8, 'l' as u8,
            ]);
        }
        table.push(BootImage::new(HARDWARE, &name));
        let name: [u8; 2] = ['d' as u8, 's' as u8];
        proof {
            assert(name@ =~= seq!['d' as u8, 's' as u8]);
        }
        table.push(BootImage::new(DS_PROC_NR, &name));
        let name: [u8; 2] = ['r' as u8, 's' as u8];
        proof {
            assert(name@ =~= seq!['r' as u8, 's' as u8]);
        }
        table.push(BootImage::new(RS_PROC_NR, &name));
        let name: [u8; 2] = ['p' as u8, 'm' as u8];
        proof {
            assert(name@ =~= seq!['p' as u8, 'm' as u8]);
        }
        table.push(BootImage::new(PM_PROC_NR, &name));
        let name: [u8; 5] = ['s' as u8, 'c' as u8, 'h' as u8, 'e' as u8, 'd' as u8];
        proof {
            assert(name@ =~= seq!['s' as u8, 'c' as u8, 'h' as u8, 'e' as u8, 'd' as u8]);
        }
        table.push(BootImage::new(SCHED_PROC_NR, &name));
        let name: [u8; 3] = ['v' as u8, 'f' as u8, 's' as u8];
        proof {
            assert(name@ =~= seq!['v' as u8, 'f' as u8, 's' as u8]);
        }
        table.push(BootImage::new(VFS_PROC_NR, &name));
        let name: [u8; 6] = ['m' as u8, 'e' as u8, 'm' as u8, 'o' as u8, 'r' as u8, 'y' as u8];
        proof {
            assert(name@ =~= seq![
                'm' as u8, 'e' as u8, 'm' as u8, 'o' as u8, 'r' as u8, 'y' as u8,
            ]);
        }
        table.push(BootImage::new(MEM_PROC_NR, &name));
        let name: [u8; 3] = ['t' as u8, 't' as u8, 'y' as u8];
        proof {
            assert(name@ =~= seq!['t' as u8, 't' as u8, 'y' as u8]);
        }
        table.push(BootImage::new(TTY_PROC_NR, &name));
        let name: [u8; 3] = ['m' as u8, 'i' as u8, 'b' as u8];
        proof {
            assert(name@ =~= seq!['m' as u8, 'i' as u8, 'b' as u8]);
        }
        table.push(BootImage::new(MIB_PROC_NR, &name));
        let name: [u8; 2] = ['v' as u8, 'm' as u8];
        proof {
            assert(name@ =~= seq!['v' as u8, 'm' as u8]);
        }
        table.push(BootImage::new(VM_PROC_NR, &name));
        let name: [u8; 3] = ['p' as u8, 'f' as u8, 's' as u8];
        proof {
            assert(name@ =~= seq!['p' as u8, 'f' as u8, 's' as u8]);
        }
        table.push(BootImage::new(PFS_PROC_NR, &name));
        let name: [u8; 3] = ['m' as u8, 'f' as u8, 's' as u8];
        proof {
            assert(name@ =~= seq!['m' as u8, 'f' as u8, 's' as u8]);
        }
        table.push(BootImage::new(MFS_PROC_NR, &name));
        let name: [u8; 4] = ['i' as u8, 'n' as u8, 'i' as u8, 't' as u8];
        proof {
            assert(name@ =~= seq!['i' as u8, 'n' as u8, 'i' as u8, 't' as u8]);
        }
        table.push(BootImage::new(INIT_PROC_NR, &name));
        proof {
            assert(table@ =~= BootImage::boot_table());
        }
        let mut bytes: Vec<u8> = Vec::new();
        let mut k: usize = 0;
        while k < NR_BOOT_PROCS
            invariant
                k <= NR_BOOT_PROCS,
                table@.len() == NR_BOOT_PROCS,
                bytes@ == BootImage::table_wire(table@.take(k as int)),
            decreases NR_BOOT_PROCS - k,
        {
            proof {
                assert(table@.take(k + 1).drop_last() =~= table@.take(k as int));
            }
            table[k].to_bytes(&mut bytes);
            k = k + 1;
        }
        proof {
            assert(table@.take(NR_BOOT_PROCS as int) =~= table@);
            BootImage::lemma_table_wire_len(table@);
        }
        let words = to_words(bytes.as_slice());
        let mut image = [0u64;BOOT_IMAGE_WORDS];
        let mut i: usize = 0;
        while i < BOOT_IMAGE_WORDS
            invariant
                i <= BOOT_IMAGE_WORDS,
                words@.len() == BOOT_IMAGE_WORDS,
                forall|j: int| 0 <= j < i ==> image@[j] == words@[j],
            decreases BOOT_IMAGE_WORDS - i,
        {
            image[i] = words[i];
            i = i + 1;
        }
        proof {
            assert(image@ =~= words@);
        }
        image
    }
}

} // verus!
