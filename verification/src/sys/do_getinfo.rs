//! The GETINFO kernel call: copies kernel information to the caller.

use crate::sys::payloads::{MessageSysGetInfo, MessageSysWhoAmI};
use crate::sys::request::{GET_HZ, GET_IMAGE, GET_MONPARAMS, GET_PRIV, GET_WHOAMI};
use crate::sys::types::{MULTIBOOT_PARAM_BUF_SIZE, NR_BOOT_PROCS};
use crate::sys::types::boot_image::{BootImage, BOOT_IMAGE_SIZE};
use crate::sys::types::privileges::PRIV_SIZE;
use crate::trap::Window;
use crate::utils::endpoint::Endpoint;
use crate::utils::guest_memory::{mapped, Error};
use crate::utils::message::{Message, Payload};
use crate::utils::minix_errno::{E2BIG, EINVAL, OK};
use crate::utils::minix_process::{padded_len, MinixProcess, ProcessView};
use crate::utils::minix_process_table::{present, proc, put, MinixProcessTable, TableView};
use crate::utils::wire::{
    lemma_words_of_wire, push_u32s, push_u64, to_words, u32s_wire, u64s_wire, words_of,
};
use vstd::bytes::*;
use vstd::prelude::*;

verus! {

/// What handing `data` to the caller does: the data goes to the address
/// that the request names. A request that gives a length, and one that is
/// less than an eighth of the length of the data, is turned down with
/// `E2BIG`.
pub open spec fn result_written(p: ProcessView, data: Seq<u8>, request: MessageSysGetInfo) -> (
    ProcessView,
    Result<i32, Error>,
) {
    if request.val_len > 0 && request.val_len < data.len() / 8 {
        (p, Ok(E2BIG))
    } else if mapped(p.memory, request.val_ptr as u64, padded_len(data.len())) {
        (p.wrote_bytes(request.val_ptr as u64, data), Ok(OK))
    } else {
        (p, Err(Error::Fault(request.val_ptr as u64)))
    }
}

/// Hands `data` to the caller, at the address that the request names.
pub fn write_result(data: &[u8], message: MessageSysGetInfo, caller: &mut MinixProcess) -> (r:
    Result<i32, Error>)
    ensures
        (final(caller)@, r) == result_written(old(caller)@, data@, message),
{
    if message.val_len > 0 && (message.val_len as usize) < data.len() / 8 {
        return Ok(E2BIG);
    }
    match caller.write_buf_u8(message.val_ptr as u64, data) {
        Ok(()) => Ok(OK),
        Err(e) => Err(e),
    }
}

/// The answer to the question who the caller is.
pub open spec fn whoami(p: ProcessView, caller: Endpoint) -> MessageSysWhoAmI {
    MessageSysWhoAmI {
        endpt: caller,
        privflags: p.s_flags as i32,
        initflags: 0,
        name: vstd::array::spec_array_fill_for_copy_type(0u8),
    }
}

/// What telling the caller who it is does: the answer goes to the payload of
/// the message of the call, which lies eight bytes behind the address in
/// `rax`.
pub open spec fn whoami_written(p: ProcessView, caller: Endpoint) -> (
    ProcessView,
    Result<i32, Error>,
) {
    let words = words_of(u32s_wire(whoami(p, caller).payload_of()@));
    if p.regs.rax + 8 > u64::MAX {
        (p, Err(Error::Fault(p.regs.rax)))
    } else if mapped(p.memory, (p.regs.rax + 8) as u64, 56) {
        (p.wrote((p.regs.rax + 8) as u64, words), Ok(OK))
    } else {
        (p, Err(Error::Fault((p.regs.rax + 8) as u64)))
    }
}

/// Tells the caller its endpoint and its privilege class.
pub fn get_whoami(caller_endpoint: Endpoint, caller: &mut MinixProcess) -> (r: Result<i32, Error>)
    ensures
        (final(caller)@, r) == whoami_written(old(caller)@, caller_endpoint),
{
    let response = MessageSysWhoAmI {
        endpt: caller_endpoint,
        privflags: caller.s_flags as i32,
        initflags: 0,
        name: [0u8;44],
    };
    let regs = caller.get_regs();
    let data = response.into_payload();
    let mut bytes: Vec<u8> = Vec::new();
    push_u32s(&mut bytes, data.as_slice());
    proof {
        assert(bytes@ =~= u32s_wire(data@));
    }
    let words = to_words(bytes.as_slice());
    if regs.rax > u64::MAX - 8 {
        return Err(Error::Fault(regs.rax));
    }
    match caller.write_buf(regs.rax + 8, words.as_slice()) {
        Ok(()) => Ok(OK),
        Err(e) => Err(e),
    }
}

/// What GETINFO does for `caller`, whose request is the payload of
/// `message`. The boot image table, the privilege structure of the caller
/// and the monitor parameters, which are all zero, are copied to the
/// address in the request. The clock frequency is stored there as a 32-bit
/// value. Who the caller is goes to the payload of the message of the call.
/// Any other request is turned down with `EINVAL`.
pub open spec fn getinfo_spec(t: TableView, caller: Endpoint, message: Message) -> (
    TableView,
    Result<i32, Error>,
) {
    let request = MessageSysGetInfo::record_of(&message.payload);
    let p = proc(t, caller);
    let (after, r) = if request.request == GET_IMAGE {
        result_written(p, BootImage::table_wire(BootImage::boot_table()), request)
    } else if request.request == GET_PRIV {
        result_written(p, p.privileges.wire(), request)
    } else if request.request == GET_MONPARAMS {
        result_written(p, Seq::new(MULTIBOOT_PARAM_BUF_SIZE as nat, |i: int| 0u8), request)
    } else if request.request == GET_WHOAMI {
        whoami_written(p, caller)
    } else if request.request == GET_HZ {
        if request.val_len > 0 && request.val_len < 4 {
            (p, Ok(E2BIG))
        } else if mapped(p.memory, request.val_ptr as u64, 8) {
            (p.wrote_bytes(request.val_ptr as u64, spec_u32_to_le_bytes(crate::HZ)), Ok(OK))
        } else {
            (p, Err(Error::Fault(request.val_ptr as u64)))
        }
    } else {
        (p, Ok(EINVAL))
    };
    (put(t, caller, after), r)
}

/// The boot image table as bytes.
fn image_bytes() -> (bytes: Vec<u8>)
    ensures
        bytes@ == BootImage::table_wire(BootImage::boot_table()),
{
    let image = BootImage::image();
    let mut bytes: Vec<u8> = Vec::new();
    let mut k: usize = 0;
    proof {
        assert(u64s_wire(image@.take(0)) =~= Seq::<u8>::empty());
    }
    while k < image.len()
        invariant
            k <= image@.len(),
            bytes@ == u64s_wire(image@.take(k as int)),
        decreases image@.len() - k,
    {
        proof {
            crate::utils::wire::lemma_u64s_wire_push(image@.take(k as int), image@[k as int]);
            assert(image@.take(k as int).push(image@[k as int]) =~= image@.take(k + 1));
        }
        push_u64(&mut bytes, image[k]);
        k = k + 1;
    }
    proof {
        assert(image@.take(image@.len() as int) =~= image@);
        BootImage::lemma_table_wire_len(BootImage::boot_table());
        lemma_words_of_wire(BootImage::table_wire(BootImage::boot_table()));
    }
    bytes
}

/// GETINFO: copies the kernel information that `message` asks for to the
/// caller.
pub fn do_getinfo(caller: Endpoint, message: Message, process_table: &mut MinixProcessTable) -> (r:
    Result<i32, Error>)
    requires
        present(old(process_table)@, caller),
    ensures
        (final(process_table)@, r) == getinfo_spec(old(process_table)@, caller, message),
        crate::ipc::same_slots(old(process_table)@, final(process_table)@),
        final(process_table).pids() == old(process_table).pids(),
        final(process_table).shared() == old(process_table).shared(),
{
    let message: MessageSysGetInfo = Payload::from_payload(&message.payload);
    let process = process_table.get_mut(caller).unwrap();
    let request: i32 = message.request;
    if request == GET_IMAGE {
        let data = image_bytes();
        write_result(data.as_slice(), message, process)
    } else if request == GET_PRIV {
        let data = process.privileges.as_buf();
        write_result(data.as_slice(), message, process)
    } else if request == GET_MONPARAMS {
        let data = [0u8;MULTIBOOT_PARAM_BUF_SIZE];
        proof {
            assert(data@ =~= Seq::new(MULTIBOOT_PARAM_BUF_SIZE as nat, |i: int| 0u8));
        }
        write_result(data.as_slice(), message, process)
    } else if request == GET_WHOAMI {
        get_whoami(caller, process)
    } else if request == GET_HZ {
        if message.val_len > 0 && message.val_len < 4 {
            return Ok(E2BIG);
        }
        match process.write_32(message.val_ptr as u64, crate::HZ) {
            Ok(()) => Ok(OK),
            Err(e) => Err(e),
        }
    } else {
        Ok(EINVAL)
    }
}

/// The number of bytes that GETINFO copies to the address in the request,
/// for the requests that have it copy there.
pub open spec fn answer_len(request: i32) -> Option<nat> {
    if request == GET_IMAGE {
        Some((NR_BOOT_PROCS * BOOT_IMAGE_SIZE) as nat)
    } else if request == GET_PRIV {
        Some(PRIV_SIZE as nat)
    } else if request == GET_MONPARAMS {
        Some(MULTIBOOT_PARAM_BUF_SIZE as nat)
    } else if request == GET_HZ {
        Some(4)
    } else {
        None
    }
}

/// The memory of `caller` that GETINFO changes for the request in
/// `message`, beyond the message itself: the words that the answer reaches.
pub fn getinfo_window(caller: Endpoint, message: &Message) -> (w: Option<Window>)
    ensures
        w == (match answer_len(MessageSysGetInfo::record_of(&message.payload).request) {
            Some(len) => Some(
                Window {
                    endpoint: caller,
                    addr: MessageSysGetInfo::record_of(&message.payload).val_ptr as u64,
                    len: padded_len(len) as u64,
                },
            ),
            None => None,
        }),
{
    let request: MessageSysGetInfo = Payload::from_payload(&message.payload);
    let len: u64 = if request.request == GET_IMAGE {
        (NR_BOOT_PROCS * BOOT_IMAGE_SIZE) as u64
    } else if request.request == GET_PRIV {
        PRIV_SIZE as u64 + 4
    } else if request.request == GET_MONPARAMS {
        MULTIBOOT_PARAM_BUF_SIZE as u64
    } else if request.request == GET_HZ {
        8
    } else {
        return None;
    };
    Some(Window { endpoint: caller, addr: request.val_ptr as u64, len })
}

} // verus!
