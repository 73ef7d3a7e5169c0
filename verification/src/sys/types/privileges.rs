//! The privilege structure of a system process.

use crate::sys::types::{
    BitChunk, IoRange, MinixMemRange, MinixTimer, SigSet, SysMap, VirBytes, NR_IO_RANGE, NR_IRQ,
    NR_MEM_RANGE, SYS_CALL_MASK_SIZE,
};
use crate::utils::endpoint::Endpoint;
use crate::utils::wire::{i16_bits, i32_bits, push_i16, push_i32, push_u32, push_u8, push_zeros};
use vstd::bytes::*;
use vstd::prelude::*;

verus! {

/// Size of a privilege structure in guest memory, in bytes.
pub const PRIV_SIZE: usize = 884;

/// The bytes of a bit map: its chunks, one behind the other.
pub open spec fn sys_map_wire(map: SysMap) -> Seq<u8> {
    spec_u32_to_le_bytes(map.chunk@[0].0) + spec_u32_to_le_bytes(map.chunk@[1].0)
}

/// The bytes of a table of ranges of I/O ports.
pub open spec fn io_tab_wire(tab: Seq<IoRange>) -> Seq<u8>
    decreases tab.len(),
{
    if tab.len() == 0 {
        Seq::empty()
    } else {
        io_tab_wire(tab.drop_last()) + spec_u32_to_le_bytes(tab.last().ior_base)
            + spec_u32_to_le_bytes(tab.last().ior_limit)
    }
}

/// The bytes of a table of ranges of memory.
pub open spec fn mem_tab_wire(tab: Seq<MinixMemRange>) -> Seq<u8>
    decreases tab.len(),
{
    if tab.len() == 0 {
        Seq::empty()
    } else {
        mem_tab_wire(tab.drop_last()) + spec_u32_to_le_bytes(tab.last().mr_base)
            + spec_u32_to_le_bytes(tab.last().mr_limit)
    }
}

/// The bytes of a table of IRQ lines.
pub open spec fn irq_tab_wire(tab: Seq<i32>) -> Seq<u8>
    decreases tab.len(),
{
    if tab.len() == 0 {
        Seq::empty()
    } else {
        irq_tab_wire(tab.drop_last()) + spec_u32_to_le_bytes(i32_bits(tab.last()))
    }
}

fn push_sys_map(buf: &mut Vec<u8>, map: &SysMap)
    ensures
        final(buf)@ == old(buf)@ + sys_map_wire(*map),
{
    push_u32(buf, map.chunk[0].0);
    push_u32(buf, map.chunk[1].0);
    proof {
        assert(buf@ =~= old(buf)@ + sys_map_wire(*map));
    }
}

/// Value of `s_asyntab` while no table of asynchronous messages is in use.
pub const NO_ASYN_TABLE: VirBytes = 0xFFFF_FFFF;

#[derive(Debug, Clone, Copy, PartialEq, Eq)]
pub struct Priv {
    /// Number of the associated process.
    pub s_proc_nr: i32,
    /// Index of this system structure.
    pub s_id: i16,
    /// Privilege class bits.
    pub s_flags: i16,
    /// Initialization flags given to the process.
    pub s_init_flags: i32,
    /// Address of the table of asynchronous messages in the process.
    pub s_asyntab: VirBytes,
    /// Number of entries of that table; 0 while none is in use.
    pub s_asynsize: u32,
    /// The endpoint the table belongs to.
    pub s_asynendpoint: Endpoint,
    /// Allowed system call traps.
    pub s_trap_mask: i16,
    /// Allowed destination processes.
    pub s_ipc_to: SysMap,
    /// Allowed kernel calls.
    pub s_k_call_mask: [BitChunk; SYS_CALL_MASK_SIZE],
    /// Signal manager for system signals.
    pub s_sig_mgr: Endpoint,
    /// Backup signal manager for system signals.
    pub s_bak_sig_mgr: Endpoint,
    /// Bit map with pending notifications.
    pub s_notify_pending: SysMap,
    /// Bit map with pending asynchronous messages.
    pub s_asyn_pending: SysMap,
    /// Pending hardware interrupts.
    pub s_int_pending: u32,
    /// Pending signals.
    pub s_sig_pending: SigSet,
    /// Address of the IPC filter; 0 while none is set.
    pub s_ipcf: u32,
    /// Synchronous alarm timer.
    pub s_alarm_timer: MinixTimer,
    /// Stack guard word for kernel tasks.
    pub s_stack_guard: u32,
    /// Whether a signal is sent when diagnostics arrive.
    pub s_diag_sig: u8,
    /// Number of allowed ranges of I/O ports.
    pub s_nr_io_range: i32,
    pub s_io_tab: [IoRange; NR_IO_RANGE],
    /// Number of allowed memory ranges.
    pub s_nr_mem_range: i32,
    pub s_mem_tab: [MinixMemRange; NR_MEM_RANGE],
    /// Number of allowed IRQ lines.
    pub s_nr_irq: i32,
    pub s_irq_tab: [i32; NR_IRQ],
    /// Address of the grant table of the process, or 0.
    pub s_grant_table: VirBytes,
    /// Number of entries of the grant table, or 0.
    pub s_grant_entries: i32,
    /// The endpoint the grant table belongs to.
    pub s_grant_endpoint: Endpoint,
    /// Address of the state table of the process, or 0.
    pub s_state_table: VirBytes,
    /// Number of entries of the state table, or 0.
    pub s_state_entries: i32,
}

impl Priv {
    /// The structure with every field zero.
    pub open spec fn zeroed() -> Priv {
        Priv {
            s_proc_nr: 0,
            s_id: 0,
            s_flags: 0,
            s_init_flags: 0,
            s_asyntab: 0,
            s_asynsize: 0,
            s_asynendpoint: 0,
            s_trap_mask: 0,
            s_ipc_to: SysMap { chunk: [BitChunk(0), BitChunk(0)] },
            s_k_call_mask: [BitChunk(0), BitChunk(0)],
            s_sig_mgr: 0,
            s_bak_sig_mgr: 0,
            s_notify_pending: SysMap { chunk: [BitChunk(0), BitChunk(0)] },
            s_asyn_pending: SysMap { chunk: [BitChunk(0), BitChunk(0)] },
            s_int_pending: 0,
            s_sig_pending: SigSet(0, 0, 0, 0),
            s_ipcf: 0,
            s_alarm_timer: MinixTimer { tmr_next: 0, tmr_exp_time: 0, tmr_func: 0, tmr_arg: 0 },
            s_stack_guard: 0,
            s_diag_sig: 0,
            s_nr_io_range: 0,
            s_io_tab: vstd::array::spec_array_fill_for_copy_type(
                IoRange { ior_base: 0, ior_limit: 0 },
            ),
            s_nr_mem_range: 0,
            s_mem_tab: vstd::array::spec_array_fill_for_copy_type(
                MinixMemRange { mr_base: 0, mr_limit: 0 },
            ),
            s_nr_irq: 0,
            s_irq_tab: vstd::array::spec_array_fill_for_copy_type(0i32),
            s_grant_table: 0,
            s_grant_entries: 0,
            s_grant_endpoint: 0,
            s_state_table: 0,
            s_state_entries: 0,
        }
    }

    /// This structure with the asynchronous table at `tab`, of `size` entries.
    pub open spec fn with_asyn(self, tab: VirBytes, size: u32) -> Priv {
        Priv { s_asyntab: tab, s_asynsize: size, ..self }
    }
}

impl Default for Priv {
    fn default() -> (p: Priv)
        ensures
            p == Priv::zeroed(),
    {
        Priv {
            s_proc_nr: 0,
            s_id: 0,
            s_flags: 0,
            s_init_flags: 0,
            s_asyntab: 0,
            s_asynsize: 0,
            s_asynendpoint: 0,
            s_trap_mask: 0,
            s_ipc_to: SysMap { chunk: [BitChunk(0), BitChunk(0)] },
            s_k_call_mask: [BitChunk(0), BitChunk(0)],
            s_sig_mgr: 0,
            s_bak_sig_mgr: 0,
            s_notify_pending: SysMap { chunk: [BitChunk(0), BitChunk(0)] },
            s_asyn_pending: SysMap { chunk: [BitChunk(0), BitChunk(0)] },
            s_int_pending: 0,
            s_sig_pending: SigSet(0, 0, 0, 0),
            s_ipcf: 0,
            s_alarm_timer: MinixTimer { tmr_next: 0, tmr_exp_time: 0, tmr_func: 0, tmr_arg: 0 },
            s_stack_guard: 0,
            s_diag_sig: 0,
            s_nr_io_range: 0,
            s_io_tab: [IoRange { ior_base: 0, ior_limit: 0 };NR_IO_RANGE],
            s_nr_mem_range: 0,
            s_mem_tab: [MinixMemRange { mr_base: 0, mr_limit: 0 };NR_MEM_RANGE],
            s_nr_irq: 0,
            s_irq_tab: [0i32;NR_IRQ],
            s_grant_table: 0,
            s_grant_entries: 0,
            s_grant_endpoint: 0,
            s_state_table: 0,
            s_state_entries: 0,
        }
    }
}

impl Priv {
    /// The bytes up to the tables: every field in its order, each
    /// little-endian, with the gaps that keep the fields aligned.
    pub open spec fn head_wire(self) -> Seq<u8> {
        spec_u32_to_le_bytes(i32_bits(self.s_proc_nr)) + spec_u16_to_le_bytes(i16_bits(self.s_id))
            + spec_u16_to_le_bytes(i16_bits(self.s_flags)) + spec_u32_to_le_bytes(
            i32_bits(self.s_init_flags),
        ) + spec_u32_to_le_bytes(self.s_asyntab) + spec_u32_to_le_bytes(self.s_asynsize)
            + spec_u32_to_le_bytes(i32_bits(self.s_asynendpoint)) + spec_u16_to_le_bytes(
            i16_bits(self.s_trap_mask),
        ) + Seq::new(2, |i: int| 0u8) + sys_map_wire(self.s_ipc_to) + spec_u32_to_le_bytes(
            self.s_k_call_mask@[0].0,
        ) + spec_u32_to_le_bytes(self.s_k_call_mask@[1].0) + spec_u32_to_le_bytes(
            i32_bits(self.s_sig_mgr),
        ) + spec_u32_to_le_bytes(i32_bits(self.s_bak_sig_mgr)) + sys_map_wire(
            self.s_notify_pending,
        ) + sys_map_wire(self.s_asyn_pending) + spec_u32_to_le_bytes(self.s_int_pending)
            + spec_u32_to_le_bytes(self.s_sig_pending.0) + spec_u32_to_le_bytes(
            self.s_sig_pending.1,
        ) + spec_u32_to_le_bytes(self.s_sig_pending.2) + spec_u32_to_le_bytes(
            self.s_sig_pending.3,
        ) + spec_u32_to_le_bytes(self.s_ipcf) + spec_u32_to_le_bytes(self.s_alarm_timer.tmr_next)
            + spec_u32_to_le_bytes(self.s_alarm_timer.tmr_exp_time) + spec_u32_to_le_bytes(
            self.s_alarm_timer.tmr_func,
        ) + spec_u32_to_le_bytes(i32_bits(self.s_alarm_timer.tmr_arg)) + spec_u32_to_le_bytes(
            self.s_stack_guard,
        ) + seq![self.s_diag_sig] + Seq::new(3, |i: int| 0u8)
    }

    /// The bytes from the tables on.
    pub open spec fn tables_wire(self) -> Seq<u8> {
        spec_u32_to_le_bytes(i32_bits(self.s_nr_io_range)) + io_tab_wire(self.s_io_tab@)
            + spec_u32_to_le_bytes(i32_bits(self.s_nr_mem_range)) + mem_tab_wire(self.s_mem_tab@)
            + spec_u32_to_le_bytes(i32_bits(self.s_nr_irq)) + irq_tab_wire(self.s_irq_tab@)
            + spec_u32_to_le_bytes(self.s_grant_table) + spec_u32_to_le_bytes(
            i32_bits(self.s_grant_entries),
        ) + spec_u32_to_le_bytes(i32_bits(self.s_grant_endpoint)) + spec_u32_to_le_bytes(
            self.s_state_table,
        ) + spec_u32_to_le_bytes(i32_bits(self.s_state_entries))
    }

    /// The `PRIV_SIZE` bytes that hold this structure in guest memory.
    pub open spec fn wire(self) -> Seq<u8> {
        self.head_wire() + self.tables_wire()
    }

    proof fn lemma_io_tab_len(tab: Seq<IoRange>)
        ensures
            io_tab_wire(tab).len() == 8 * tab.len(),
        decreases tab.len(),
    {
        lemma_auto_spec_u32_to_from_le_bytes();
        if tab.len() > 0 {
            Priv::lemma_io_tab_len(tab.drop_last());
        }
    }

    proof fn lemma_mem_tab_len(tab: Seq<MinixMemRange>)
        ensures
            mem_tab_wire(tab).len() == 8 * tab.len(),
        decreases tab.len(),
    {
        lemma_auto_spec_u32_to_from_le_bytes();
        if tab.len() > 0 {
            Priv::lemma_mem_tab_len(tab.drop_last());
        }
    }

    proof fn lemma_irq_tab_len(tab: Seq<i32>)
        ensures
            irq_tab_wire(tab).len() == 4 * tab.len(),
        decreases tab.len(),
    {
        lemma_auto_spec_u32_to_from_le_bytes();
        if tab.len() > 0 {
            Priv::lemma_irq_tab_len(tab.drop_last());
        }
    }

    /// A privilege structure takes `PRIV_SIZE` bytes.
    pub proof fn lemma_wire_len(self)
        ensures
            self.wire().len() == PRIV_SIZE,
    {
        lemma_auto_spec_u32_to_from_le_bytes();
        lemma_auto_spec_u16_to_from_le_bytes();
        Priv::lemma_io_tab_len(self.s_io_tab@);
        Priv::lemma_mem_tab_len(self.s_mem_tab@);
        Priv::lemma_irq_tab_len(self.s_irq_tab@);
        assert(self.head_wire().len() == 116);
        assert(self.tables_wire().len() == 768);
    }

    fn push_head(&self, buf: &mut Vec<u8>)
        ensures
            final(buf)@ == old(buf)@ + self.head_wire(),
    {
        push_i32(buf, self.s_proc_nr);
        push_i16(buf, self.s_id);
        push_i16(buf, self.s_flags);
        push_i32(buf, self.s_init_flags);
        push_u32(buf, self.s_asyntab);
        push_u32(buf, self.s_asynsize);
        push_i32(buf, self.s_asynendpoint);
        push_i16(buf, self.s_trap_mask);
        push_zeros(buf, 2);
        push_sys_map(buf, &self.s_ipc_to);
        push_u32(buf, self.s_k_call_mask[0].0);
        push_u32(buf, self.s_k_call_mask[1].0);
        push_i32(buf, self.s_sig_mgr);
        push_i32(buf, self.s_bak_sig_mgr);
        push_sys_map(buf, &self.s_notify_pending);
        push_sys_map(buf, &self.s_asyn_pending);
        push_u32(buf, self.s_int_pending);
        push_u32(buf, self.s_sig_pending.0);
        push_u32(buf, self.s_sig_pending.1);
        push_u32(buf, self.s_sig_pending.2);
        push_u32(buf, self.s_sig_pending.3);
        push_u32(buf, self.s_ipcf);
        push_u32(buf, self.s_alarm_timer.tmr_next);
        push_u32(buf, self.s_alarm_timer.tmr_exp_time);
        push_u32(buf, self.s_alarm_timer.tmr_func);
        push_i32(buf, self.s_alarm_timer.tmr_arg);
        push_u32(buf, self.s_stack_guard);
        push_u8(buf, self.s_diag_sig);
        push_zeros(buf, 3);
        proof {
            assert(buf@ =~= old(buf)@ + self.head_wire());
        }
    }

    fn push_tables(&self, buf: &mut Vec<u8>)
        ensures
            final(buf)@ == old(buf)@ + self.tables_wire(),
    {
        push_i32(buf, self.s_nr_io_range);
        let ghost head = buf@;
        let mut i: usize = 0;
        proof {
            assert(head + io_tab_wire(self.s_io_tab@.take(0)) =~= head);
        }
        while i < NR_IO_RANGE
            invariant
                i <= NR_IO_RANGE,
                buf@ == head + io_tab_wire(self.s_io_tab@.take(i as int)),
            decreases NR_IO_RANGE - i,
        {
            proof {
                assert(self.s_io_tab@.take(i + 1).drop_last() =~= self.s_io_tab@.take(i as int));
            }
            push_u32(buf, self.s_io_tab[i].ior_base);
            push_u32(buf, self.s_io_tab[i].ior_limit);
            proof {
                assert(buf@ =~= head + io_tab_wire(self.s_io_tab@.take(i + 1)));
            }
            i = i + 1;
        }
        proof {
            assert(self.s_io_tab@.take(NR_IO_RANGE as int) =~= self.s_io_tab@);
        }
        push_i32(buf, self.s_nr_mem_range);
        let ghost head = buf@;
        let mut i: usize = 0;
        proof {
            assert(head + mem_tab_wire(self.s_mem_tab@.take(0)) =~= head);
        }
        while i < NR_MEM_RANGE
            invariant
                i <= NR_MEM_RANGE,
                buf@ == head + mem_tab_wire(self.s_mem_tab@.take(i as int)),
            decreases NR_MEM_RANGE - i,
        {
            proof {
                assert(self.s_mem_tab@.take(i + 1).drop_last() =~= self.s_mem_tab@.take(
                    i as int,
                ));
            }
            push_u32(buf, self.s_mem_tab[i].mr_base);
            push_u32(buf, self.s_mem_tab[i].mr_limit);
            proof {
                assert(buf@ =~= head + mem_tab_wire(self.s_mem_tab@.take(i + 1)));
            }
            i = i + 1;
        }
        proof {
            assert(self.s_mem_tab@.take(NR_MEM_RANGE as int) =~= self.s_mem_tab@);
        }
        push_i32(buf, self.s_nr_irq);
        let ghost head = buf@;
        let mut i: usize = 0;
        proof {
            assert(head + irq_tab_wire(self.s_irq_tab@.take(0)) =~= head);
        }
        while i < NR_IRQ
            invariant
                i <= NR_IRQ,
                buf@ == head + irq_tab_wire(self.s_irq_tab@.take(i as int)),
            decreases NR_IRQ - i,
        {
            proof {
                assert(self.s_irq_tab@.take(i + 1).drop_last() =~= self.s_irq_tab@.take(i as int));
            }
            push_i32(buf, self.s_irq_tab[i]);
            proof {
                assert(buf@ =~= head + irq_tab_wire(self.s_irq_tab@.take(i + 1)));
            }
            i = i + 1;
        }
        proof {
            assert(self.s_irq_tab@.take(NR_IRQ as int) =~= self.s_irq_tab@);
        }
        push_u32(buf, self.s_grant_table);
        push_i32(buf, self.s_grant_entries);
        push_i32(buf, self.s_grant_endpoint);
        push_u32(buf, self.s_state_table);
        push_i32(buf, self.s_state_entries);
        proof {
            assert(buf@ =~= old(buf)@ + self.tables_wire());
        }
    }

    /// The bytes that hold this structure in guest memory.
    pub fn as_buf(&self) -> (buf: [u8; PRIV_SIZE])
        ensures
            buf@ == self.wire(),
    {
        let mut bytes: Vec<u8> = Vec::new();
        self.push_head(&mut bytes);
        self.push_tables(&mut bytes);
        proof {
            self.lemma_wire_len();
            assert(bytes@ =~= self.wire());
        }
        let mut buf = [0u8;PRIV_SIZE];
        let mut i: usize = 0;
        while i < PRIV_SIZE
            invariant
                i <= PRIV_SIZE,
                bytes@.len() == PRIV_SIZE,
                forall|j: int| 0 <= j < i ==> buf@[j] == bytes@[j],
            decreases PRIV_SIZE - i,
        {
            buf[i] = bytes[i];
            i = i + 1;
        }
        proof {
            assert(buf@ =~= bytes@);
        }
        buf
    }
}

} // verus!
