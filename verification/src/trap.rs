//! What the supervisor does when a guest stops.
//!
//! A guest stops with a signal. A segmentation fault at one of the two trap
//! instructions is a request: `INT 0x20` asks for a kernel call, `INT 0x21`
//! for an IPC call. Anything else is handed on to the guest.

use crate::ipc::{do_ipc, ipc_spec, same_slots};
use crate::ipc::asyn::ASYNMSG_SIZE;
use crate::ipc::invariants::{ipc_inv, law_stop_keeps_invariant};
use crate::ipc::ipcconst::{RECEIVE, SENDA, SENDREC};
use crate::sys::{do_kernel_call, kernel_call_spec};
use crate::utils::endpoint::Endpoint;
use crate::utils::guest_memory::Error;
use crate::utils::message::MESSAGE_SIZE;
use crate::utils::minix_process::Instruction;
use crate::utils::minix_process_table::{present, proc, put, MinixProcessTable, TableView};
use vstd::prelude::*;

verus! {

/// Number of the signal that a guest stops with at a trap instruction.
pub const SIGSEGV: i32 = 11;

/// Vector of the software interrupt that asks for a kernel call.
pub const KERNEL_CALL_VECTOR: u8 = 0x20;

/// Vector of the software interrupt that asks for an IPC call.
pub const IPC_VECTOR: u8 = 0x21;

/// What a stop of a guest turned out to be.
#[derive(Debug, Clone, Copy, PartialEq, Eq, Structural)]
pub enum Stop {
    /// A kernel call, which was carried out.
    KernelCall,
    /// An IPC call, which was carried out.
    Ipc,
    /// A segmentation fault of the guest's own, which was handed on to it.
    Fault,
    /// Another signal, which was handed on to the guest.
    Signal,
    /// The stop of a host process that has no slot.
    Unknown,
}

/// The table after `signal` was handed on to `caller`: the guest runs again
/// and gets the signal.
pub open spec fn handed_on(t: TableView, caller: Endpoint, signal: i32) -> TableView {
    put(t, caller, proc(t, caller).resumed(Some(signal)))
}

/// What the supervisor does with a segmentation fault of `caller` at
/// `instruction`.
pub open spec fn route_spec(t: TableView, caller: Endpoint, instruction: Instruction) -> (
    TableView,
    Result<Stop, Error>,
) {
    match instruction {
        Instruction::Int(vector) => if vector == KERNEL_CALL_VECTOR {
            match kernel_call_spec(t, caller) {
                (after, Ok(_)) => (after, Ok(Stop::KernelCall)),
                (after, Err(e)) => (after, Err(e)),
            }
        } else if vector == IPC_VECTOR {
            match ipc_spec(t, caller) {
                (after, Ok(_)) => (after, Ok(Stop::Ipc)),
                (after, Err(e)) => (after, Err(e)),
            }
        } else {
            (handed_on(t, caller, SIGSEGV), Ok(Stop::Fault))
        },
        Instruction::Other => (handed_on(t, caller, SIGSEGV), Ok(Stop::Fault)),
    }
}

/// What the supervisor does when the host process `pid` stops with `signal`.
/// The stop of a process without a slot changes nothing. A signal other
/// than a segmentation fault is handed on to the guest. At a segmentation
/// fault the instruction at the program counter decides: the two trap
/// instructions are requests, and with any other the fault is the guest's
/// own and is handed on to it.
pub open spec fn stop_spec(t: TableView, pids: Map<i32, Endpoint>, pid: i32, signal: i32) -> (
    TableView,
    Result<Stop, Error>,
) {
    if !pids.dom().contains(pid) || !present(t, pids[pid]) {
        (t, Ok(Stop::Unknown))
    } else if signal != SIGSEGV {
        (handed_on(t, pids[pid], signal), Ok(Stop::Signal))
    } else {
        match proc(t, pids[pid]).instruction() {
            Err(e) => (t, Err(e)),
            Ok(instruction) => route_spec(t, pids[pid], instruction),
        }
    }
}

/// Hands `signal` on to `caller`.
fn hand_on(caller: Endpoint, signal: i32, process_table: &mut MinixProcessTable)
    requires
        present(old(process_table)@, caller),
    ensures
        final(process_table)@ == handed_on(old(process_table)@, caller, signal),
        same_slots(old(process_table)@, final(process_table)@),
        final(process_table).pids() == old(process_table).pids(),
        final(process_table).shared() == old(process_table).shared(),
{
    process_table.get_mut(caller).unwrap().cause_signal(Some(signal));
}

/// Deals with a segmentation fault of `caller` at `instruction`.
fn route(caller: Endpoint, instruction: Instruction, process_table: &mut MinixProcessTable) -> (r:
    Result<Stop, Error>)
    requires
        present(old(process_table)@, caller),
    ensures
        (final(process_table)@, r) == route_spec(old(process_table)@, caller, instruction),
        same_slots(old(process_table)@, final(process_table)@),
        final(process_table).pids() == old(process_table).pids(),
        final(process_table).shared() == old(process_table).shared(),
{
    match instruction {
        Instruction::Int(vector) => {
            if vector == KERNEL_CALL_VECTOR {
                match do_kernel_call(caller, process_table) {
                    Ok(()) => Ok(Stop::KernelCall),
                    Err(e) => Err(e),
                }
            } else if vector == IPC_VECTOR {
                match do_ipc(caller, process_table) {
                    Ok(()) => Ok(Stop::Ipc),
                    Err(e) => Err(e),
                }
            } else {
                hand_on(caller, SIGSEGV, process_table);
                Ok(Stop::Fault)
            }
        },
        Instruction::Other => {
            hand_on(caller, SIGSEGV, process_table);
            Ok(Stop::Fault)
        },
    }
}

/// Handles the stop of the host process `pid` with `signal`.
pub fn handle_stop(pid: i32, signal: i32, process_table: &mut MinixProcessTable) -> (r: Result<
    Stop,
    Error,
>)
    ensures
        (final(process_table)@, r) == stop_spec(
            old(process_table)@,
            old(process_table).pids(),
            pid,
            signal,
        ),
        same_slots(old(process_table)@, final(process_table)@),
        final(process_table).pids() == old(process_table).pids(),
        final(process_table).shared() == old(process_table).shared(),
        ipc_inv(old(process_table)@) && (old(process_table).pids().dom().contains(pid) && present(
            old(process_table)@,
            old(process_table).pids()[pid],
        ) ==> proc(old(process_table)@, old(process_table).pids()[pid]).state is Running)
            ==> ipc_inv(final(process_table)@),
{
    proof {
        if ipc_inv(old(process_table)@) && (old(process_table).pids().dom().contains(pid)
            && present(old(process_table)@, old(process_table).pids()[pid]) ==> proc(
            old(process_table)@,
            old(process_table).pids()[pid],
        ).state is Running) {
            law_stop_keeps_invariant(
                old(process_table)@,
                old(process_table).pids(),
                pid,
                signal,
            );
        }
    }
    let caller: Endpoint = match process_table.pid_to_endpoint(pid) {
        Some(endpoint) => endpoint,
        None => {
            return Ok(Stop::Unknown);
        },
    };
    let instruction = match process_table.get(caller) {
        Some(process) => process.read_instruction(),
        None => {
            return Ok(Stop::Unknown);
        },
    };
    if signal != SIGSEGV {
        hand_on(caller, signal, process_table);
        return Ok(Stop::Signal);
    }
    match instruction {
        Ok(instruction) => route(caller, instruction, process_table),
        Err(e) => Err(e),
    }
}

/// A range of the memory of a guest.
#[derive(Debug, Clone, Copy, PartialEq, Eq, Structural)]
pub struct Window {
    pub endpoint: Endpoint,
    pub addr: u64,
    pub len: u64,
}

/// The range that the table of `size` entries at `tab` takes, with the
/// bytes behind it that the last word of the last entry reaches, or as much
/// of it as lies below the last address.
pub open spec fn table_window(endpoint: Endpoint, tab: u64, size: u64) -> Window {
    let len = size * ASYNMSG_SIZE + 4;
    Window {
        endpoint,
        addr: tab,
        len: if len > u64::MAX {
            u64::MAX
        } else {
            len as u64
        },
    }
}

/// The range that the table of `size` entries at `tab` takes.
pub fn table_range(endpoint: Endpoint, tab: u64, size: u64) -> (w: Window)
    ensures
        w == table_window(endpoint, tab, size),
{
    let len: u64 = if size > (u64::MAX - 4) / (ASYNMSG_SIZE as u64) {
        u64::MAX
    } else {
        size * (ASYNMSG_SIZE as u64) + 4
    };
    Window { endpoint, addr: tab, len }
}

/// The tables of the senders `pending[i..]` that have a slot and a table.
pub open spec fn pending_windows(t: TableView, pending: Seq<Endpoint>, i: int) -> Seq<Window>
    decreases pending.len() - i,
{
    if i < 0 || i >= pending.len() {
        Seq::empty()
    } else if present(t, pending[i]) && proc(t, pending[i]).privileges.s_asynsize > 0 {
        seq![
            table_window(
                pending[i],
                proc(t, pending[i]).privileges.s_asyntab as u64,
                proc(t, pending[i]).privileges.s_asynsize as u64,
            ),
        ] + pending_windows(t, pending, i + 1)
    } else {
        pending_windows(t, pending, i + 1)
    }
}

/// The memory that the dispatch of an IPC trap of `caller` may read or
/// change, beyond the buffers of the processes that are blocked: the
/// message buffer of the caller; for SENDA its table; for RECEIVE and
/// SENDREC the tables of the senders that are pending for the caller.
pub open spec fn ipc_windows_spec(t: TableView, caller: Endpoint) -> Seq<Window> {
    let p = proc(t, caller);
    let buffer = seq![
        Window { endpoint: caller, addr: p.regs.rbx, len: MESSAGE_SIZE as u64 },
    ];
    if p.regs.rcx == SENDA {
        buffer + seq![table_window(caller, p.regs.rbx, p.regs.rax)]
    } else if p.regs.rcx == RECEIVE || p.regs.rcx == SENDREC {
        buffer + pending_windows(t, p.async_pending, 0)
    } else {
        buffer
    }
}

/// The memory that the controller has to hold before it lets the IPC trap
/// of `caller` be dispatched.
pub fn ipc_windows(caller: Endpoint, process_table: &MinixProcessTable) -> (windows: Vec<Window>)
    requires
        present(process_table@, caller),
    ensures
        windows@ == ipc_windows_spec(process_table@, caller),
{
    let process = process_table.get(caller).unwrap();
    let regs = process.get_regs();
    let mut windows: Vec<Window> = Vec::new();
    windows.push(Window { endpoint: caller, addr: regs.rbx, len: MESSAGE_SIZE as u64 });
    let ghost buffer = windows@;
    if regs.rcx == SENDA {
        windows.push(table_range(caller, regs.rbx, regs.rax));
        proof {
            assert(windows@ =~= ipc_windows_spec(process_table@, caller));
        }
    } else if regs.rcx == RECEIVE || regs.rcx == SENDREC {
        let pending = &process.async_pending;
        let mut i: usize = pending.len();
        let mut tables: Vec<Window> = Vec::new();
        while i > 0
            invariant
                i <= pending@.len(),
                tables@.reverse() == pending_windows(process_table@, pending@, i as int),
            decreases i,
        {
            i = i - 1;
            let src: Endpoint = pending[i];
            match process_table.get(src) {
                Some(sender) => {
                    if sender.privileges.s_asynsize > 0 {
                        let ghost before = tables@;
                        let w = table_range(
                            src,
                            sender.privileges.s_asyntab as u64,
                            sender.privileges.s_asynsize as u64,
                        );
                        tables.push(w);
                        proof {
                            assert(tables@.reverse() =~= seq![w] + before.reverse());
                        }
                    }
                },
                None => {},
            }
        }
        let ghost all = tables@;
        while tables.len() > 0
            invariant
                windows@ + tables@.reverse() == buffer + all.reverse(),
            decreases tables@.len(),
        {
            let ghost before = tables@;
            let ghost had = windows@;
            let w = tables.pop().unwrap();
            windows.push(w);
            proof {
                assert(before.reverse() =~= seq![w] + tables@.reverse());
                assert(windows@ + tables@.reverse() =~= had + before.reverse());
            }
        }
        proof {
            assert(tables@.reverse() =~= Seq::<Window>::empty());
            assert(windows@ =~= buffer + all.reverse());
        }
    }
    windows
}

} // verus!
