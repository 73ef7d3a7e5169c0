//! Asynchronous sends: a table of messages in the memory of the sender, which
//! the kernel works off when the sender hands it over and whenever one of
//! the addressed processes receives.

use crate::sys::types::privileges::NO_ASYN_TABLE;
use crate::utils::endpoint::{Endpoint, ANY, ASYNCM};
use crate::utils::guest_memory::{mapped, Error};
use crate::utils::message::{Message, MESSAGE_SIZE};
use crate::utils::minix_errno::{EAGAIN, ECALLDENIED, EDEADSRCDST, EINVAL, ESRCH, OK};
use crate::utils::minix_process::{padded_len, MinixProcess, ProcessView};
use crate::utils::minix_process_table::{present, proc, put, MinixProcessTable, TableView};
use crate::utils::wire::{
    i32_at, i32_bits, lemma_bits_round_trip, push_i32, push_u32, read_i32, read_u32, u32_at,
};
use super::{
    deliver, delivered, do_notify, notify_spec, same_slots, will_receive, will_receive_spec,
};
use super::asyn_flags::{
    AMF_DONE, AMF_EMPTY, AMF_KNOWN, AMF_NOREPLY, AMF_NOTIFY, AMF_NOTIFY_ERR, AMF_VALID,
};
use vstd::bytes::*;
use vstd::prelude::*;
use vstd::slice::slice_subrange;

verus! {

/// Size of an entry of a table of asynchronous messages, in bytes.
pub const ASYNMSG_SIZE: usize = 76;

/// One entry of a table of asynchronous messages. In guest memory the fields
/// lie in this order, each little-endian, and the entries one behind the
/// other.
#[derive(Debug, Clone, Copy, PartialEq, Eq)]
pub struct AsynMsg {
    pub flags: u32,
    pub dst: Endpoint,
    pub result: i32,
    pub msg: Message,
}

impl AsynMsg {
    /// The 76 bytes that hold this entry in guest memory.
    pub open spec fn wire(self) -> Seq<u8> {
        spec_u32_to_le_bytes(self.flags) + spec_u32_to_le_bytes(i32_bits(self.dst))
            + spec_u32_to_le_bytes(i32_bits(self.result)) + self.msg.wire()
    }

    /// The entry that 76 bytes of guest memory hold.
    pub open spec fn from_wire(b: Seq<u8>) -> AsynMsg {
        AsynMsg {
            flags: u32_at(b, 0),
            dst: i32_at(b, 4),
            result: i32_at(b, 8),
            msg: Message::from_wire(b.subrange(12, ASYNMSG_SIZE as int)),
        }
    }

    /// This entry once the kernel has handled it with the outcome `result`.
    pub open spec fn finished(self, result: i32) -> AsynMsg {
        AsynMsg { flags: self.flags | AMF_DONE, dst: self.dst, result, msg: self.msg }
    }

    /// An entry takes exactly `ASYNMSG_SIZE` bytes.
    pub proof fn lemma_wire_len(self)
        ensures
            self.wire().len() == ASYNMSG_SIZE,
    {
        lemma_auto_spec_u32_to_from_le_bytes();
        self.msg.lemma_wire_len();
    }

    /// Decoding the bytes of an entry gives the entry again.
    pub proof fn lemma_round_trip(self)
        ensures
            AsynMsg::from_wire(self.wire()) == self,
    {
        lemma_auto_spec_u32_to_from_le_bytes();
        self.msg.lemma_wire_len();
        self.msg.lemma_round_trip();
        lemma_bits_round_trip(self.dst, 0);
        lemma_bits_round_trip(self.result, 0);
        let b = self.wire();
        assert(b.subrange(0, 4) =~= spec_u32_to_le_bytes(self.flags));
        assert(b.subrange(4, 8) =~= spec_u32_to_le_bytes(i32_bits(self.dst)));
        assert(b.subrange(8, 12) =~= spec_u32_to_le_bytes(i32_bits(self.result)));
        assert(b.subrange(12, 76) =~= self.msg.wire());
    }

    /// The bytes that hold this entry in guest memory.
    pub fn to_bytes(&self) -> (b: Vec<u8>)
        ensures
            b@ == self.wire(),
    {
        let mut b: Vec<u8> = Vec::new();
        push_u32(&mut b, self.flags);
        push_i32(&mut b, self.dst);
        push_i32(&mut b, self.result);
        let mut m = self.msg.to_bytes();
        b.append(&mut m);
        b
    }

    /// The entry that the first 76 bytes of `b` hold.
    pub fn from_bytes(b: &[u8]) -> (entry: AsynMsg)
        requires
            b@.len() >= ASYNMSG_SIZE,
        ensures
            entry == AsynMsg::from_wire(b@.take(ASYNMSG_SIZE as int)),
    {
        let flags: u32 = read_u32(b, 0);
        let dst: Endpoint = read_i32(b, 4);
        let result: i32 = read_i32(b, 8);
        let n: usize = b.len();
        let rest = slice_subrange(b, 12, ASYNMSG_SIZE);
        let msg = Message::from_bytes(rest);
        proof {
            let t = b@.take(76);
            assert(t.subrange(0, 4) =~= b@.subrange(0, 4));
            assert(t.subrange(4, 8) =~= b@.subrange(4, 8));
            assert(t.subrange(8, 12) =~= b@.subrange(8, 12));
            assert(rest@.take(64) =~= t.subrange(12, 76));
        }
        AsynMsg { flags, dst, result, msg }
    }
}

/// The flags hold a bit without a meaning, or lack the bit that says that
/// the slot holds a message.
pub open spec fn malformed(flags: u32) -> bool {
    flags & !AMF_KNOWN != 0 || flags & AMF_VALID == 0
}

/// Whether the sender of a handled entry is to be notified.
pub open spec fn wants_notify(flags: u32, result: i32) -> bool {
    flags & AMF_NOTIFY != 0 || (result != OK && flags & AMF_NOTIFY_ERR != 0)
}

/// What the scan of one entry came to.
#[derive(Debug, Clone, Copy, PartialEq, Eq, Structural)]
pub enum Step {
    /// The entry was passed over. `undone` says that it still waits to be
    /// delivered.
    Skip { undone: bool },
    /// The entry was marked done with the outcome `result`.
    Handled { result: i32, notify: bool },
}

/// Whether `src` may send asynchronous messages to `dst`: every process may.
pub open spec fn may_asynsend_to_spec(src: Endpoint, dst: Endpoint) -> bool {
    true
}

/// Whether `src` may send asynchronous messages to `dst`.
pub fn may_asynsend_to(src: Endpoint, dst: Endpoint, process_table: &MinixProcessTable) -> (r:
    bool)
    ensures
        r == may_asynsend_to_spec(src, dst),
{
    true
}

/// What reading the entry at `addr` gives.
pub open spec fn asynmsg_at(p: ProcessView, addr: u64) -> Result<AsynMsg, Error> {
    match p.buf_at(addr, ASYNMSG_SIZE as nat) {
        Ok(b) => Ok(AsynMsg::from_wire(b)),
        Err(e) => Err(e),
    }
}

/// Reads the entry at `addr` in the guest.
pub fn read_asynmsg(addr: u64, process: &MinixProcess) -> (r: Result<AsynMsg, Error>)
    ensures
        r == asynmsg_at(process@, addr),
{
    match process.read_buf_u8(addr, ASYNMSG_SIZE) {
        Ok(buf) => {
            proof {
                assert(buf@.take(76) =~= buf@);
            }
            Ok(AsynMsg::from_bytes(buf.as_slice()))
        },
        Err(e) => Err(e),
    }
}

/// Stores the entry `asynmsg` at `addr` in the guest.
pub fn write_asynmsg(asynmsg: AsynMsg, addr: u64, process: &mut MinixProcess) -> (r: Result<
    (),
    Error,
>)
    ensures
        mapped(old(process)@.memory, addr, padded_len(ASYNMSG_SIZE as nat)) ==> r == Ok::<
            (),
            Error,
        >(()) && final(process)@ == old(process)@.wrote_bytes(addr, asynmsg.wire()),
        !mapped(old(process)@.memory, addr, padded_len(ASYNMSG_SIZE as nat)) ==> r == Err::<
            (),
            Error,
        >(Error::Fault(addr)) && final(process)@ == old(process)@,
{
    let data = asynmsg.to_bytes();
    proof {
        asynmsg.lemma_wire_len();
    }
    process.write_buf_u8(addr, data.as_slice())
}

/// The table after the entry `entry` of `owner`, at `addr`, was marked done
/// with the outcome `result`.
pub open spec fn recorded(
    t: TableView,
    owner: Endpoint,
    addr: u64,
    entry: AsynMsg,
    result: i32,
) -> (TableView, Result<Step, Error>) {
    let o = proc(t, owner);
    let done = entry.finished(result);
    if mapped(o.memory, addr, padded_len(ASYNMSG_SIZE as nat)) {
        (
            put(t, owner, o.wrote_bytes(addr, done.wire())),
            Ok(Step::Handled { result, notify: wants_notify(done.flags, result) }),
        )
    } else {
        (t, Err(Error::Fault(addr)))
    }
}

/// Marks the entry `entry` of `owner`, at `addr`, done with the outcome
/// `result`.
fn record(
    owner: Endpoint,
    addr: u64,
    entry: AsynMsg,
    result: i32,
    process_table: &mut MinixProcessTable,
) -> (r: Result<Step, Error>)
    requires
        present(old(process_table)@, owner),
    ensures
        (final(process_table)@, r) == recorded(old(process_table)@, owner, addr, entry, result),
        same_slots(old(process_table)@, final(process_table)@),
        final(process_table).pids() == old(process_table).pids(),
        final(process_table).shared() == old(process_table).shared(),
{
    let mut done = entry;
    done.result = result;
    done.flags = done.flags | AMF_DONE;
    let notify = (done.flags & AMF_NOTIFY) != 0 || (result != OK && (done.flags & AMF_NOTIFY_ERR)
        != 0);
    let process = process_table.get_mut(owner).unwrap();
    match write_asynmsg(done, addr, process) {
        Ok(()) => Ok(Step::Handled { result, notify }),
        Err(e) => Err(e),
    }
}

/// Whether a message of `src` waits for `dst`.
pub open spec fn has_pending_asend_spec(t: TableView, dst: Endpoint, src: Endpoint) -> bool {
    let pending = proc(t, dst).async_pending;
    if src == ANY {
        pending.len() > 0
    } else {
        pending.contains(src)
    }
}

/// Whether an asynchronous message of `src`, or of anyone where `src` is
/// `ANY`, waits for `dst`.
pub fn has_pending_asend(dst: Endpoint, src: Endpoint, process_table: &MinixProcessTable) -> (r:
    bool)
    requires
        present(process_table@, dst),
    ensures
        r == has_pending_asend_spec(process_table@, dst, src),
{
    let pending = &process_table.get(dst).unwrap().async_pending;
    if pending.len() == 0 {
        return false;
    }
    if src == ANY {
        return true;
    }
    let mut i: usize = 0;
    while i < pending.len()
        invariant
            i <= pending@.len(),
            src != ANY,
            pending@ == proc(process_table@, dst).async_pending,
            forall|j: int| 0 <= j < i ==> pending@[j] != src,
        decreases pending@.len() - i,
    {
        if pending[i] == src {
            proof {
                assert(pending@[i as int] == src);
            }
            return true;
        }
        i = i + 1;
    }
    false
}

/// Takes the first `value` out of `list`.
fn remove_first(list: &mut Vec<Endpoint>, value: Endpoint)
    ensures
        final(list)@ == old(list)@.remove_value(value),
{
    let mut i: usize = 0;
    while i < list.len()
        invariant
            i <= list@.len(),
            list@ == old(list)@,
            forall|j: int| 0 <= j < i ==> list@[j] != value,
        decreases list@.len() - i,
    {
        if list[i] == value {
            proof {
                assert(list@[i as int] == value);
                assert(list@.contains(value));
                old(list)@.index_of_first_ensures(value);
            }
            list.remove(i);
            return ;
        }
        i = i + 1;
    }
    proof {
        old(list)@.index_of_first_ensures(value);
    }
}

/// What the scan of the entry of `src` at `addr` comes to when `dst`
/// receives. An entry that is not in use, or is done, is passed over. One
/// with malformed flags is marked done with `EINVAL`. One that is for `dst`,
/// while `dst` receives from `src` and does not wait for an answer that this
/// entry is not, is put in the buffer of `dst` and marked done with `OK`.
/// Any other stays as it is, undone.
pub open spec fn try_entry_spec(t: TableView, src: Endpoint, dst: Endpoint, addr: u64) -> (
    TableView,
    Result<Step, Error>,
) {
    match asynmsg_at(proc(t, src), addr) {
        Err(e) => (t, Err(e)),
        Ok(entry) => if entry.flags == AMF_EMPTY {
            (t, Ok(Step::Skip { undone: false }))
        } else if malformed(entry.flags) {
            recorded(t, src, addr, entry, EINVAL)
        } else if entry.flags & AMF_DONE != 0 {
            (t, Ok(Step::Skip { undone: false }))
        } else if entry.dst != dst || !will_receive_spec(t, src, dst) || (entry.flags
            & AMF_NOREPLY == 0 && proc(t, dst).reply_pending) {
            (t, Ok(Step::Skip { undone: true }))
        } else {
            let d = proc(t, dst);
            if mapped(d.memory, d.regs.rbx, MESSAGE_SIZE as nat) {
                recorded(
                    put(t, dst, d.wrote(d.regs.rbx, entry.msg.with_source(src).words())),
                    src,
                    addr,
                    entry,
                    OK,
                )
            } else {
                (t, Err(Error::Fault(d.regs.rbx)))
            }
        },
    }
}

/// Scans the entry of `src` at `addr` for the receiver `dst`.
fn try_entry(src: Endpoint, dst: Endpoint, addr: u64, process_table: &mut MinixProcessTable) -> (r:
    Result<Step, Error>)
    requires
        present(old(process_table)@, src),
        present(old(process_table)@, dst),
    ensures
        (final(process_table)@, r) == try_entry_spec(old(process_table)@, src, dst, addr),
        same_slots(old(process_table)@, final(process_table)@),
        final(process_table).pids() == old(process_table).pids(),
        final(process_table).shared() == old(process_table).shared(),
{
    let entry = match read_asynmsg(addr, process_table.get(src).unwrap()) {
        Ok(entry) => entry,
        Err(e) => {
            return Err(e);
        },
    };
    if entry.flags == AMF_EMPTY {
        return Ok(Step::Skip { undone: false });
    }
    if (entry.flags & !AMF_KNOWN) != 0 || (entry.flags & AMF_VALID) == 0 {
        return record(src, addr, entry, EINVAL, process_table);
    }
    if (entry.flags & AMF_DONE) != 0 {
        return Ok(Step::Skip { undone: false });
    }
    if entry.dst != dst || !will_receive(src, dst, process_table) || ((entry.flags & AMF_NOREPLY)
        == 0 && process_table.get(dst).unwrap().reply_pending) {
        return Ok(Step::Skip { undone: true });
    }
    let mut message = entry.msg;
    message.source = src;
    let receiver = process_table.get_mut(dst).unwrap();
    let buffer: u64 = receiver.get_regs().rbx;
    match receiver.write_message(buffer, message) {
        Ok(()) => {},
        Err(e) => {
            return Err(e);
        },
    }
    record(src, addr, entry, OK, process_table)
}

/// Where entry `i` of the table at `tab` lies.
pub open spec fn entry_addr(tab: u64, i: u64) -> int {
    tab + i * ASYNMSG_SIZE
}

/// The scan of the table of `src` from entry `i` on, for the receiver `dst`:
/// it ends at the first entry that it marks done, and gives the outcome of
/// that entry, whether the sender is to be notified, and whether no entry was
/// found that still waits.
pub open spec fn try_one_scan(
    t: TableView,
    src: Endpoint,
    dst: Endpoint,
    tab: u32,
    size: u32,
    i: u32,
    done: bool,
) -> (TableView, Result<(i32, bool, bool), Error>)
    decreases size - i,
{
    if i >= size {
        (t, Ok((EAGAIN, false, done)))
    } else {
        match try_entry_spec(t, src, dst, entry_addr(tab as u64, i as u64) as u64) {
            (after, Err(e)) => (after, Err(e)),
            (after, Ok(Step::Skip { undone })) => try_one_scan(
                after,
                src,
                dst,
                tab,
                size,
                (i + 1) as u32,
                done && !undone,
            ),
            (after, Ok(Step::Handled { result, notify })) => (after, Ok((result, notify, false))),
        }
    }
}

/// What an attempt to deliver one asynchronous message of `src` to the
/// receiver `dst` does. `src` leaves the pending list of `dst`. Without a
/// table the attempt ends with `EAGAIN`. Else the table is scanned, the
/// sender is notified in the name of `ASYNCM` where the handled entry asks
/// for it, and then either the table is given up, if nothing in it waits any
/// more, or `src` is put at the end of the pending list again.
pub open spec fn try_one_spec(t: TableView, src: Endpoint, dst: Endpoint) -> (
    TableView,
    Result<i32, Error>,
) {
    let privileges = proc(t, src).privileges;
    let d = proc(t, dst);
    let t1 = put(t, dst, d.with_async_pending(d.async_pending.remove_value(src)));
    if privileges.s_asynsize == 0 {
        (t1, Ok(EAGAIN))
    } else if !may_asynsend_to_spec(src, dst) {
        (t1, Ok(ECALLDENIED))
    } else {
        match try_one_scan(t1, src, dst, privileges.s_asyntab, privileges.s_asynsize, 0, true) {
            (t2, Err(e)) => (t2, Err(e)),
            (t2, Ok((result, notify, done))) => {
                let (t3, notified) = if notify {
                    notify_spec(t2, ASYNCM, src)
                } else {
                    (t2, Ok(OK))
                };
                match notified {
                    Err(e) => (t3, Err(e)),
                    Ok(_) => if done {
                        let s = proc(t3, src);
                        (
                            put(
                                t3,
                                src,
                                s.with_privileges(s.privileges.with_asyn(NO_ASYN_TABLE, 0)),
                            ),
                            Ok(result),
                        )
                    } else {
                        let d3 = proc(t3, dst);
                        (
                            put(t3, dst, d3.with_async_pending(d3.async_pending.push(src))),
                            Ok(result),
                        )
                    },
                }
            },
        }
    }
}

/// Tries to deliver one asynchronous message of `src` to the receiver `dst`.
pub fn try_one(src: Endpoint, dst: Endpoint, process_table: &mut MinixProcessTable) -> (r: Result<
    i32,
    Error,
>)
    requires
        present(old(process_table)@, src),
        present(old(process_table)@, dst),
    ensures
        (final(process_table)@, r) == try_one_spec(old(process_table)@, src, dst),
        same_slots(old(process_table)@, final(process_table)@),
        final(process_table).pids() == old(process_table).pids(),
        final(process_table).shared() == old(process_table).shared(),
{
    let sender = process_table.get(src).unwrap();
    let size: u32 = sender.privileges.s_asynsize;
    let table_addr: u32 = sender.privileges.s_asyntab;
    remove_first(&mut process_table.get_mut(dst).unwrap().async_pending, src);
    if size == 0 {
        return Ok(EAGAIN);
    }
    if !may_asynsend_to(src, dst, process_table) {
        return Ok(ECALLDENIED);
    }
    let ghost start = process_table@;
    let mut do_notify = false;
    let mut done = true;
    let mut r: i32 = EAGAIN;
    let mut i: u32 = 0;
    while i < size
        invariant_except_break
            i <= size,
            r == EAGAIN,
            !do_notify,
            try_one_scan(process_table@, src, dst, table_addr, size, i, done) == try_one_scan(
                start,
                src,
                dst,
                table_addr,
                size,
                0,
                true,
            ),
        invariant
            present(process_table@, src),
            present(process_table@, dst),
            same_slots(old(process_table)@, process_table@),
            process_table.pids() == old(process_table).pids(),
            process_table.shared() == old(process_table).shared(),
            size != 0,
            size == proc(old(process_table)@, src).privileges.s_asynsize,
            table_addr == proc(old(process_table)@, src).privileges.s_asyntab,
            start == put(
                old(process_table)@,
                dst,
                proc(old(process_table)@, dst).with_async_pending(
                    proc(old(process_table)@, dst).async_pending.remove_value(src),
                ),
            ),
        ensures
            try_one_scan(start, src, dst, table_addr, size, 0, true) == (
                process_table@,
                Ok::<(i32, bool, bool), Error>((r, do_notify, done)),
            ),
        decreases size - i,
    {
        let addr: u64 = table_addr as u64 + (i as u64) * (ASYNMSG_SIZE as u64);
        match try_entry(src, dst, addr, process_table) {
            Err(e) => {
                return Err(e);
            },
            Ok(Step::Skip { undone }) => {
                if undone {
                    done = false;
                }
            },
            Ok(Step::Handled { result, notify }) => {
                r = result;
                do_notify = notify;
                done = false;
                break ;
            },
        }
        i = i + 1;
    }
    if do_notify {
        match do_notify_asyncm(src, process_table) {
            Ok(_) => {},
            Err(e) => {
                return Err(e);
            },
        }
    }
    if done {
        let privileges = &mut process_table.get_mut(src).unwrap().privileges;
        privileges.s_asyntab = NO_ASYN_TABLE;
        privileges.s_asynsize = 0;
    } else {
        process_table.get_mut(dst).unwrap().async_pending.push(src);
    }
    Ok(r)
}

/// Notifies `owner` in the name of `ASYNCM` that an entry of its table was
/// handled.
fn do_notify_asyncm(owner: Endpoint, process_table: &mut MinixProcessTable) -> (r: Result<
    i32,
    Error,
>)
    requires
        present(old(process_table)@, owner),
    ensures
        (final(process_table)@, r) == notify_spec(old(process_table)@, ASYNCM, owner),
        same_slots(old(process_table)@, final(process_table)@),
        final(process_table).pids() == old(process_table).pids(),
        final(process_table).shared() == old(process_table).shared(),
{
    do_notify(ASYNCM, owner, process_table)
}

/// The attempts for the senders `snapshot[j..]`, in their order, until one of
/// them delivers a message. A sender that has no slot is passed over.
pub open spec fn try_async_from(
    t: TableView,
    caller: Endpoint,
    snapshot: Seq<Endpoint>,
    j: int,
) -> (
    TableView,
    Result<i32, Error>,
)
    decreases snapshot.len() - j,
{
    if j < 0 || j >= snapshot.len() {
        (t, Ok(ESRCH))
    } else if !present(t, snapshot[j]) {
        try_async_from(t, caller, snapshot, j + 1)
    } else {
        match try_one_spec(t, snapshot[j], caller) {
            (after, Err(e)) => (after, Err(e)),
            (after, Ok(result)) => if result == OK {
                (after, Ok(OK))
            } else {
                try_async_from(after, caller, snapshot, j + 1)
            },
        }
    }
}

/// What a receiver's look at its pending asynchronous senders does: one
/// attempt for each sender that was pending at the start, in their order,
/// until one delivers a message. `ESRCH` says that none did.
pub open spec fn try_async_spec(t: TableView, caller: Endpoint) -> (TableView, Result<i32, Error>) {
    try_async_from(t, caller, proc(t, caller).async_pending, 0)
}

/// Tries to deliver to `caller` one message of the senders that are pending
/// for it.
pub fn try_async(caller: Endpoint, process_table: &mut MinixProcessTable) -> (r: Result<i32, Error>)
    requires
        present(old(process_table)@, caller),
    ensures
        (final(process_table)@, r) == try_async_spec(old(process_table)@, caller),
        same_slots(old(process_table)@, final(process_table)@),
        final(process_table).pids() == old(process_table).pids(),
        final(process_table).shared() == old(process_table).shared(),
{
    let async_pending = process_table.get(caller).unwrap().async_pending.clone();
    let ghost start = process_table@;
    proof {
        assert(async_pending@ =~= proc(start, caller).async_pending);
    }
    let mut j: usize = 0;
    while j < async_pending.len()
        invariant
            j <= async_pending@.len(),
            present(process_table@, caller),
            same_slots(old(process_table)@, process_table@),
            process_table.pids() == old(process_table).pids(),
            process_table.shared() == old(process_table).shared(),
            start == old(process_table)@,
            async_pending@ == proc(start, caller).async_pending,
            try_async_from(process_table@, caller, async_pending@, j as int) == try_async_from(
                start,
                caller,
                async_pending@,
                0,
            ),
        decreases async_pending@.len() - j,
    {
        let src: Endpoint = async_pending[j];
        if process_table.get(src).is_some() {
            match try_one(src, caller, process_table) {
                Err(e) => {
                    return Err(e);
                },
                Ok(result) => {
                    if result == OK {
                        return Ok(result);
                    }
                },
            }
        }
        j = j + 1;
    }
    Ok(ESRCH)
}

/// What the first look at the entry of `caller` at `addr` comes to. An entry
/// that is not in use, is malformed or is done is passed over. One for a
/// process that has no slot is marked done with `EDEADSRCDST`. One whose
/// receiver waits for it is delivered and marked done with `OK`. Any other
/// stays undone, and `caller` is put on the pending list of its receiver.
pub open spec fn senda_entry_spec(t: TableView, caller: Endpoint, addr: u64) -> (
    TableView,
    Result<Step, Error>,
) {
    match asynmsg_at(proc(t, caller), addr) {
        Err(e) => (t, Err(e)),
        Ok(entry) => if entry.flags == AMF_EMPTY || malformed(entry.flags) || entry.flags
            & AMF_DONE != 0 {
            (t, Ok(Step::Skip { undone: false }))
        } else if !present(t, entry.dst) {
            recorded(t, caller, addr, entry, EDEADSRCDST)
        } else if !may_asynsend_to_spec(caller, entry.dst) {
            recorded(t, caller, addr, entry, ECALLDENIED)
        } else if will_receive_spec(t, caller, entry.dst) && (entry.flags & AMF_NOREPLY != 0
            || !proc(t, entry.dst).reply_pending) {
            match delivered(t, entry.dst, entry.msg.with_source(caller)) {
                (after, Err(e)) => (after, Err(e)),
                (after, Ok(_)) => recorded(after, caller, addr, entry, OK),
            }
        } else {
            let d = proc(t, entry.dst);
            (
                put(t, entry.dst, d.with_async_pending(d.async_pending.push(caller))),
                Ok(Step::Skip { undone: true }),
            )
        },
    }
}

/// Looks at the entry of `caller` at `addr` for the first time.
fn senda_entry(caller: Endpoint, addr: u64, process_table: &mut MinixProcessTable) -> (r: Result<
    Step,
    Error,
>)
    requires
        present(old(process_table)@, caller),
    ensures
        (final(process_table)@, r) == senda_entry_spec(old(process_table)@, caller, addr),
        same_slots(old(process_table)@, final(process_table)@),
        final(process_table).pids() == old(process_table).pids(),
        final(process_table).shared() == old(process_table).shared(),
{
    let entry = match read_asynmsg(addr, process_table.get(caller).unwrap()) {
        Ok(entry) => entry,
        Err(e) => {
            return Err(e);
        },
    };
    let dst: Endpoint = entry.dst;
    if entry.flags == AMF_EMPTY {
        return Ok(Step::Skip { undone: false });
    }
    if (entry.flags & !AMF_KNOWN) != 0 {
        // a bit without a meaning: the entry is left as it is
        return Ok(Step::Skip { undone: false });
    } else if (entry.flags & AMF_VALID) == 0 {
        // no message in the slot: the entry is left as it is
        return Ok(Step::Skip { undone: false });
    } else if (entry.flags & AMF_DONE) != 0 {
        return Ok(Step::Skip { undone: false });
    }
    let mut result: i32 = OK;
    if process_table.get(dst).is_none() {
        result = EDEADSRCDST;
    } else if !may_asynsend_to(caller, dst, process_table) {
        result = ECALLDENIED;
    }
    if result == OK && will_receive(caller, dst, process_table) && ((entry.flags & AMF_NOREPLY)
        != 0 || !process_table.get(dst).unwrap().reply_pending) {
        let mut message = entry.msg;
        message.source = caller;
        match deliver(dst, message, process_table) {
            Ok(()) => {},
            Err(e) => {
                return Err(e);
            },
        }
    } else if result == OK {
        process_table.get_mut(dst).unwrap().async_pending.push(caller);
        return Ok(Step::Skip { undone: true });
    }
    record(caller, addr, entry, result, process_table)
}

/// The first look at the entries `i..size` of the table of `caller` at
/// `tab`. It gives whether one of the entries asks for a notification, and
/// whether none of them stays undone.
pub open spec fn senda_scan(
    t: TableView,
    caller: Endpoint,
    tab: u64,
    size: u64,
    i: u64,
    notify: bool,
    done: bool,
) -> (TableView, Result<(bool, bool), Error>)
    decreases size - i,
{
    if i >= size {
        (t, Ok((notify, done)))
    } else if entry_addr(tab, i) > u64::MAX {
        (t, Err(Error::Fault(tab)))
    } else {
        match senda_entry_spec(t, caller, entry_addr(tab, i) as u64) {
            (after, Err(e)) => (after, Err(e)),
            (after, Ok(Step::Skip { undone })) => senda_scan(
                after,
                caller,
                tab,
                size,
                (i + 1) as u64,
                notify,
                done && !undone,
            ),
            (after, Ok(Step::Handled { result, notify: wanted })) => senda_scan(
                after,
                caller,
                tab,
                size,
                (i + 1) as u64,
                notify || wanted,
                done,
            ),
        }
    }
}

/// What SENDA does: `caller` hands over the table of `size` entries at
/// `tab`. The caller's record of an earlier table is given up. Every entry is
/// looked at once, in the order of the table. Then the caller is notified in
/// the name of `ASYNCM`, once, if an entry asked for it, and the table is
/// kept on record if an entry stays undone. The call itself gives `OK`.
pub open spec fn senda_spec(t: TableView, caller: Endpoint, tab: u64, size: u64) -> (
    TableView,
    Result<i32, Error>,
) {
    let c = proc(t, caller);
    let t0 = put(
        t,
        caller,
        c.with_privileges(
            (crate::sys::types::privileges::Priv {
                s_asyntab: NO_ASYN_TABLE,
                s_asynsize: 0,
                s_asynendpoint: caller,
                ..c.privileges
            }),
        ),
    );
    if size == 0 {
        (t0, Ok(OK))
    } else {
        match senda_scan(t0, caller, tab, size, 0, false, true) {
            (t1, Err(e)) => (t1, Err(e)),
            (t1, Ok((notify, done))) => {
                let (t2, notified) = if notify {
                    notify_spec(t1, ASYNCM, caller)
                } else {
                    (t1, Ok(OK))
                };
                match notified {
                    Err(e) => (t2, Err(e)),
                    Ok(_) => if done {
                        (t2, Ok(OK))
                    } else {
                        let c2 = proc(t2, caller);
                        (
                            put(
                                t2,
                                caller,
                                c2.with_privileges(
                                    c2.privileges.with_asyn(
                                        (tab % 0x1_0000_0000) as u32,
                                        (size % 0x1_0000_0000) as u32,
                                    ),
                                ),
                            ),
                            Ok(OK),
                        )
                    },
                }
            },
        }
    }
}

/// SENDA: takes over the table of `size` asynchronous messages that `caller`
/// holds at `asynmsg_addr`.
pub fn do_senda(
    caller: Endpoint,
    asynmsg_addr: u64,
    size: u64,
    process_table: &mut MinixProcessTable,
) -> (r: Result<i32, Error>)
    requires
        present(old(process_table)@, caller),
    ensures
        (final(process_table)@, r) == senda_spec(old(process_table)@, caller, asynmsg_addr, size),
        same_slots(old(process_table)@, final(process_table)@),
        final(process_table).pids() == old(process_table).pids(),
        final(process_table).shared() == old(process_table).shared(),
{
    let privileges = &mut process_table.get_mut(caller).unwrap().privileges;
    privileges.s_asyntab = NO_ASYN_TABLE;
    privileges.s_asynsize = 0;
    privileges.s_asynendpoint = caller;
    if size == 0 {
        return Ok(OK);
    }
    let ghost start = process_table@;
    let mut do_notify = false;
    let mut done = true;
    let mut i: u64 = 0;
    while i < size
        invariant
            i <= size,
            present(process_table@, caller),
            same_slots(old(process_table)@, process_table@),
            process_table.pids() == old(process_table).pids(),
            process_table.shared() == old(process_table).shared(),
            size != 0,
            start == put(
                old(process_table)@,
                caller,
                proc(old(process_table)@, caller).with_privileges(
                    (crate::sys::types::privileges::Priv {
                        s_asyntab: NO_ASYN_TABLE,
                        s_asynsize: 0,
                        s_asynendpoint: caller,
                        ..proc(old(process_table)@, caller).privileges
                    }),
                ),
            ),
            senda_scan(process_table@, caller, asynmsg_addr, size, i, do_notify, done)
                == senda_scan(start, caller, asynmsg_addr, size, 0, false, true),
        decreases size - i,
    {
        if i > (u64::MAX - asynmsg_addr) / (ASYNMSG_SIZE as u64) {
            return Err(Error::Fault(asynmsg_addr));
        }
        let addr: u64 = asynmsg_addr + i * (ASYNMSG_SIZE as u64);
        match senda_entry(caller, addr, process_table) {
            Err(e) => {
                return Err(e);
            },
            Ok(Step::Skip { undone }) => {
                if undone {
                    done = false;
                }
            },
            Ok(Step::Handled { result, notify }) => {
                if notify {
                    do_notify = true;
                }
            },
        }
        i = i + 1;
    }
    if do_notify {
        match do_notify_asyncm(caller, process_table) {
            Ok(_) => {},
            Err(e) => {
                return Err(e);
            },
        }
    }
    if !done {
        let privileges = &mut process_table.get_mut(caller).unwrap().privileges;
        privileges.s_asyntab = (asynmsg_addr % 0x1_0000_0000) as u32;
        privileges.s_asynsize = (size % 0x1_0000_0000) as u32;
    }
    Ok(OK)
}

} // verus!
