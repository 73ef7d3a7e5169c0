//! Kernel calls: the numbered services that a guest asks of the kernel.

pub mod do_diagctl;
pub mod do_getinfo;
pub mod payloads;
pub mod request;
pub mod types;

use crate::ipc::{entered, past_trap, same_slots, skip_trap};
use crate::trap::Window;
use crate::utils::endpoint::Endpoint;
use crate::utils::guest_memory::Error;
use crate::utils::message::{Message, Payload, MESSAGE_SIZE};
use crate::utils::minix_errno::EBADREQUEST;
use crate::utils::minix_process_table::{present, proc, put, MinixProcessTable, TableView};
use crate::utils::wire::{i32_bits, to_bits};
use do_getinfo::{do_getinfo, getinfo_spec, getinfo_window};
use vstd::prelude::*;

verus! {

/// The first kernel call number.
pub const KERNEL_CALL: usize = 0x600;

/// Number of kernel calls.
pub const NR_KERNEL_CALLS: usize = 58;

/// Place of GETINFO among the kernel calls.
pub const SYS_GETINFO: usize = 26;

/// The handler of a kernel call.
#[derive(Debug, Clone, Copy, PartialEq, Eq, Structural)]
pub enum KernelCall {
    /// The call is not served.
    Unimplemented,
    GetInfo,
}

/// The handler of the kernel call at place `index`.
pub open spec fn handler_at(index: int) -> KernelCall {
    if index == SYS_GETINFO {
        KernelCall::GetInfo
    } else {
        KernelCall::Unimplemented
    }
}

/// The table of the handlers, by the place of the call.
pub fn call_vec() -> (table: [KernelCall; NR_KERNEL_CALLS])
    ensures
        forall|i: int| 0 <= i < NR_KERNEL_CALLS ==> table@[i] == handler_at(i),
{
    let mut table = [KernelCall::Unimplemented;NR_KERNEL_CALLS];
    table[SYS_GETINFO] = KernelCall::GetInfo;
    table
}

/// The answer to a kernel call that is not served: `EBADREQUEST`.
pub fn sys_unimplemented(
    caller: Endpoint,
    message: Message,
    process_table: &mut MinixProcessTable,
) -> (r:
    Result<i32, Error>)
    ensures
        r == Ok::<i32, Error>(EBADREQUEST),
        final(process_table)@ == old(process_table)@,
        final(process_table).pids() == old(process_table).pids(),
        final(process_table).shared() == old(process_table).shared(),
{
    Ok(EBADREQUEST)
}

/// What the handler of the call that `message` names does. The type of the
/// message is the number of the call; a number that names no call, or a
/// call that is not served, gives `EBADREQUEST`.
pub open spec fn invoke_spec(t: TableView, caller: Endpoint, message: Message) -> (
    TableView,
    Result<i32, Error>,
) {
    let call_nr = message.m_type as int;
    if KERNEL_CALL <= call_nr < KERNEL_CALL + NR_KERNEL_CALLS && handler_at(call_nr - KERNEL_CALL)
        == KernelCall::GetInfo {
        getinfo_spec(t, caller, message)
    } else {
        (t, Ok(EBADREQUEST))
    }
}

/// Runs the handler of the call that `message` names.
fn invoke(caller: Endpoint, message: Message, process_table: &mut MinixProcessTable) -> (r: Result<
    i32,
    Error,
>)
    requires
        present(old(process_table)@, caller),
    ensures
        (final(process_table)@, r) == invoke_spec(old(process_table)@, caller, message),
        same_slots(old(process_table)@, final(process_table)@),
        final(process_table).pids() == old(process_table).pids(),
        final(process_table).shared() == old(process_table).shared(),
{
    let call_nr: usize = message.m_type as usize;
    if KERNEL_CALL <= call_nr && call_nr < KERNEL_CALL + NR_KERNEL_CALLS {
        let handlers = call_vec();
        match handlers[call_nr - KERNEL_CALL] {
            KernelCall::GetInfo => do_getinfo(caller, message, process_table),
            KernelCall::Unimplemented => sys_unimplemented(caller, message, process_table),
        }
    } else {
        sys_unimplemented(caller, message, process_table)
    }
}

/// What the dispatch of a kernel call trap of `caller` does. The program
/// counter moves behind the trap. The request is the message at the address
/// in `rax`, with the caller as its source. The handler of the call runs.
/// Then the result is stored as the type of the message in the guest, whose
/// payload stays as the handler left it, and the guest runs again.
pub open spec fn kernel_call_spec(t: TableView, caller: Endpoint) -> (
    TableView,
    Result<(), Error>,
) {
    let at_entry = entered(t, caller);
    let addr = past_trap(proc(t, caller).regs).rax;
    match proc(at_entry, caller).message_at(addr) {
        Err(e) => (at_entry, Err(e)),
        Ok(request) => match invoke_spec(at_entry, caller, request.with_source(caller)) {
            (after, Err(e)) => (after, Err(e)),
            (after, Ok(result)) => match proc(after, caller).message_at(addr) {
                Err(e) => (after, Err(e)),
                Ok(answer) => (
                    put(
                        after,
                        caller,
                        proc(after, caller).wrote(
                            addr,
                            (Message {
                                source: answer.source,
                                m_type: i32_bits(result),
                                payload: answer.payload,
                            }).words(),
                        ).resumed(None),
                    ),
                    Ok(()),
                ),
            },
        },
    }
}

/// Handles the kernel call trap of `caller`.
pub fn do_kernel_call(caller_endpoint: Endpoint, process_table: &mut MinixProcessTable) -> (r:
    Result<(), Error>)
    requires
        present(old(process_table)@, caller_endpoint),
    ensures
        (final(process_table)@, r) == kernel_call_spec(old(process_table)@, caller_endpoint),
        same_slots(old(process_table)@, final(process_table)@),
        final(process_table).pids() == old(process_table).pids(),
        final(process_table).shared() == old(process_table).shared(),
{
    let process = process_table.get_mut(caller_endpoint).unwrap();
    let regs = skip_trap(process.get_regs());
    process.set_regs(regs);
    let addr: u64 = regs.rax;
    let mut message = match process.read_message(addr) {
        Ok(m) => m,
        Err(e) => {
            return Err(e);
        },
    };
    message.source = caller_endpoint;
    let ghost at_entry = process_table@;
    let result = match invoke(caller_endpoint, message, process_table) {
        Ok(result) => result,
        Err(e) => {
            proof {
                crate::ipc::lemma_same_slots_trans(old(process_table)@, at_entry, process_table@);
            }
            return Err(e);
        },
    };
    let ghost after = process_table@;
    proof {
        crate::ipc::lemma_same_slots_trans(old(process_table)@, at_entry, after);
    }
    let process = process_table.get_mut(caller_endpoint).unwrap();
    let mut message = match process.read_message(addr) {
        Ok(m) => m,
        Err(e) => {
            return Err(e);
        },
    };
    message.m_type = to_bits(result);
    match process.write_message(addr, message) {
        Ok(()) => {},
        Err(e) => {
            return Err(e);
        },
    }
    process.cont();
    Ok(())
}

/// The memory that the dispatch of a kernel call trap of `caller` may read
/// or change: the message of the call, at the address in `rax`, and what
/// the handler of the call changes beyond it, which is known once the
/// message is in the window.
pub open spec fn kernel_call_windows_spec(t: TableView, caller: Endpoint) -> Seq<Window> {
    let p = proc(t, caller);
    let message = seq![
        Window { endpoint: caller, addr: p.regs.rax, len: MESSAGE_SIZE as u64 },
    ];
    match p.message_at(p.regs.rax) {
        Ok(request) => if request.m_type == KERNEL_CALL + SYS_GETINFO {
            match do_getinfo::answer_len(
                payloads::MessageSysGetInfo::record_of(&request.payload).request,
            ) {
                Some(len) => message + seq![
                    Window {
                        endpoint: caller,
                        addr: payloads::MessageSysGetInfo::record_of(&request.payload).val_ptr
                            as u64,
                        len: crate::utils::minix_process::padded_len(len) as u64,
                    },
                ],
                None => message,
            }
        } else {
            message
        },
        Err(_) => message,
    }
}

/// The memory that the controller has to hold before it lets the kernel
/// call trap of `caller` be dispatched.
pub fn kernel_call_windows(caller: Endpoint, process_table: &MinixProcessTable) -> (windows: Vec<
    Window,
>)
    requires
        present(process_table@, caller),
    ensures
        windows@ == kernel_call_windows_spec(process_table@, caller),
{
    let process = process_table.get(caller).unwrap();
    let addr: u64 = process.get_regs().rax;
    let mut windows: Vec<Window> = Vec::new();
    windows.push(Window { endpoint: caller, addr, len: MESSAGE_SIZE as u64 });
    match process.read_message(addr) {
        Ok(request) => {
            if request.m_type as usize == KERNEL_CALL + SYS_GETINFO {
                match getinfo_window(caller, &request) {
                    Some(w) => {
                        windows.push(w);
                    },
                    None => {},
                }
            }
        },
        Err(_) => {},
    }
    proof {
        assert(windows@ =~= kernel_call_windows_spec(process_table@, caller));
    }
    windows
}

} // verus!
