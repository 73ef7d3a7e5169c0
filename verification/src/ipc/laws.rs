//! What the IPC calls do at their borders.

use crate::sys::types::privileges::NO_ASYN_TABLE;
use crate::utils::endpoint::{Endpoint, ANY, ASYNCM};
use crate::utils::guest_memory::{bytes_at, lemma_store_frame, mapped, store, Error};
use crate::utils::message::{lemma_words_wire, Message, MESSAGE_SIZE};
use crate::utils::minix_errno::{EINVAL, ENOTREADY, OK};
use crate::utils::minix_process::{lemma_wrote_bytes_memory, padded_len, ProcessState, ProcessView};
use crate::utils::minix_process_table::{present, proc, put, TableView};
use crate::utils::wire::low_i32;
use super::{
    completed, delivered, entered, ipc_spec, notify_spec, same_slots, send_spec, sync_ipc_spec,
    will_receive_spec,
};
use super::asyn::{
    asynmsg_at, entry_addr, malformed, recorded, senda_entry_spec, senda_scan, senda_spec,
    try_entry_spec, try_one_scan, try_one_spec, AsynMsg, Step, ASYNMSG_SIZE,
};
use super::asyn_flags::{AMF_DONE, AMF_EMPTY};
use super::ipcconst::{RECEIVE, SEND, SENDNB};
use vstd::prelude::*;

verus! {

/// `ANY` names a peer for RECEIVE alone: every other synchronous call with
/// it fails with `EINVAL` and changes nothing.
pub proof fn law_any_is_for_receive_only(t: TableView, caller: Endpoint, call_nr: u64)
    requires
        call_nr != RECEIVE,
    ensures
        sync_ipc_spec(t, caller, call_nr, ANY) == (t, Ok::<i32, Error>(EINVAL)),
{
}

/// A trap that asks for a synchronous call other than RECEIVE with `ANY` as
/// its peer ends with `EINVAL` in `rax`, and the caller runs again.
pub proof fn law_trap_with_any(t: TableView, caller: Endpoint)
    requires
        present(t, caller),
        proc(t, caller).state is Running,
        SEND <= proc(t, caller).regs.rcx <= SENDNB,
        proc(t, caller).regs.rcx != RECEIVE,
        low_i32(proc(t, caller).regs.rax) == ANY,
    ensures
        ipc_spec(t, caller) == (
            completed(entered(t, caller), caller, EINVAL),
            Ok::<(), Error>(()),
        ),
{
}

/// A send to a process that does not wait for it: the send that may not
/// block fails with `ENOTREADY` and changes nothing, the send that may
/// blocks the caller and puts its message at the end of the queue of `dst`.
pub proof fn law_send_to_busy_process(t: TableView, caller: Endpoint, dst: Endpoint)
    requires
        present(t, caller),
        present(t, dst),
        !will_receive_spec(t, caller, dst),
        proc(t, caller).message_at(proc(t, caller).regs.rbx) is Ok,
    ensures
        send_spec(t, caller, dst, true) == (t, Ok::<i32, Error>(ENOTREADY)),
        send_spec(t, caller, dst, false).1 == Ok::<i32, Error>(OK),
        proc(send_spec(t, caller, dst, false).0, caller).state == ProcessState::Sending(dst),
        proc(send_spec(t, caller, dst, false).0, dst).queue == proc(t, dst).queue.push(
            (caller, proc(t, caller).message_at(proc(t, caller).regs.rbx)->Ok_0),
        ),
{
}

/// SENDA with a table of no entries gives up the caller's table and ends
/// with `OK`.
pub proof fn law_senda_without_entries(t: TableView, caller: Endpoint, tab: u64)
    requires
        present(t, caller),
    ensures
        senda_spec(t, caller, tab, 0).1 == Ok::<i32, Error>(OK),
        proc(senda_spec(t, caller, tab, 0).0, caller).privileges.s_asynsize == 0,
        proc(senda_spec(t, caller, tab, 0).0, caller).privileges.s_asyntab == NO_ASYN_TABLE,
        proc(senda_spec(t, caller, tab, 0).0, caller).privileges.s_asynendpoint == caller,
        forall|e: Endpoint|
            e != caller && 0 <= e < t.len() ==> senda_spec(t, caller, tab, 0).0[e as int]
                == t[e as int],
{
}

/// SENDA passes over an entry whose flags are malformed and leaves it as it
/// is.
pub proof fn law_senda_skips_malformed(t: TableView, caller: Endpoint, addr: u64, entry: AsynMsg)
    requires
        asynmsg_at(proc(t, caller), addr) == Ok::<AsynMsg, Error>(entry),
        malformed(entry.flags),
    ensures
        senda_entry_spec(t, caller, addr) == (t, Ok::<Step, Error>(Step::Skip { undone: false })),
{
}

/// The scan for a receiver ends at an entry in use whose flags are
/// malformed, with `EINVAL`.
pub proof fn law_try_one_rejects_malformed(
    t: TableView,
    src: Endpoint,
    dst: Endpoint,
    tab: u32,
    size: u32,
    i: u32,
    done: bool,
    entry: AsynMsg,
)
    requires
        present(t, src),
        i < size,
        asynmsg_at(proc(t, src), entry_addr(tab as u64, i as u64) as u64) == Ok::<AsynMsg, Error>(
            entry,
        ),
        entry.flags != AMF_EMPTY,
        malformed(entry.flags),
    ensures
        try_one_scan(t, src, dst, tab, size, i, done).1 matches Ok((result, _, undone))
            && result == EINVAL && !undone,
        proc(try_one_scan(t, src, dst, tab, size, i, done).0, src).memory
            == crate::utils::guest_memory::store(
            proc(t, src).memory,
            entry_addr(tab as u64, i as u64) as u64,
            entry.finished(EINVAL).wire(),
        ),
{
    let addr = entry_addr(tab as u64, i as u64) as u64;
    entry.finished(EINVAL).lemma_wire_len();
    crate::utils::minix_process::lemma_wrote_bytes_memory(
        proc(t, src),
        addr,
        entry.finished(EINVAL).wire(),
    );
}

/// An entry that is done is passed over, by SENDA and by the scan for a
/// receiver, and nothing changes.
pub proof fn law_done_entry_is_skipped(
    t: TableView,
    owner: Endpoint,
    dst: Endpoint,
    addr: u64,
    entry: AsynMsg,
)
    requires
        asynmsg_at(proc(t, owner), addr) == Ok::<AsynMsg, Error>(entry),
        !malformed(entry.flags),
        entry.flags & AMF_DONE != 0,
    ensures
        senda_entry_spec(t, owner, addr) == (t, Ok::<Step, Error>(Step::Skip { undone: false })),
        try_entry_spec(t, owner, dst, addr) == (t, Ok::<Step, Error>(Step::Skip { undone: false })),
{
}

/// The ranges `[a, a + n)` and `[b, b + m)` share no address.
pub open spec fn apart(a: u64, n: nat, b: u64, m: nat) -> bool {
    a + n <= b || b + m <= a
}

/// The step from `a` to `b` leaves the entry of `owner` at `addr` as it is:
/// the window of `owner` has the extent it had, the bytes of the entry are
/// the same, and so are the registers of `owner`.
pub open spec fn held(a: TableView, b: TableView, owner: Endpoint, addr: u64) -> bool {
    &&& same_slots(a, b)
    &&& proc(b, owner).memory.dom() == proc(a, owner).memory.dom()
    &&& proc(b, owner).regs == proc(a, owner).regs
    &&& bytes_at(proc(b, owner).memory, addr, ASYNMSG_SIZE as nat) == bytes_at(
        proc(a, owner).memory,
        addr,
        ASYNMSG_SIZE as nat,
    )
}

proof fn lemma_held_trans(a: TableView, b: TableView, c: TableView, owner: Endpoint, addr: u64)
    requires
        held(a, b, owner, addr),
        held(b, c, owner, addr),
    ensures
        held(a, c, owner, addr),
{
    super::lemma_same_slots_trans(a, b, c);
}

/// An entry that is read the same before and after a step that holds it.
proof fn lemma_held_reads_same(a: TableView, b: TableView, owner: Endpoint, addr: u64)
    requires
        held(a, b, owner, addr),
    ensures
        asynmsg_at(proc(b, owner), addr) == asynmsg_at(proc(a, owner), addr),
{
    let ma = proc(a, owner).memory;
    let mb = proc(b, owner).memory;
    assert(mapped(ma, addr, padded_len(ASYNMSG_SIZE as nat)) == mapped(
        mb,
        addr,
        padded_len(ASYNMSG_SIZE as nat),
    ));
}

/// A message put in a buffer that lies apart from an entry leaves the entry
/// as it is.
proof fn lemma_wrote_held(
    t: TableView,
    x: Endpoint,
    message: Message,
    after: ProcessView,
    owner: Endpoint,
    addr: u64,
)
    requires
        present(t, x),
        present(t, owner),
        mapped(proc(t, owner).memory, addr, ASYNMSG_SIZE as nat),
        apart(proc(t, owner).regs.rbx, MESSAGE_SIZE as nat, addr, ASYNMSG_SIZE as nat),
        mapped(proc(t, x).memory, proc(t, x).regs.rbx, MESSAGE_SIZE as nat),
        after.memory == proc(t, x).wrote(proc(t, x).regs.rbx, message.words()).memory,
        after.regs == proc(t, x).regs,
    ensures
        held(t, put(t, x, after), owner, addr),
{
    if x == owner {
        let p = proc(t, x);
        lemma_words_wire(message);
        message.lemma_wire_len();
        lemma_store_frame(p.memory, p.regs.rbx, message.wire());
    }
}

/// Handing a message to a receiver whose buffer lies apart from an entry
/// leaves the entry as it is.
proof fn lemma_delivered_held(
    t: TableView,
    dst: Endpoint,
    message: Message,
    owner: Endpoint,
    addr: u64,
)
    requires
        present(t, dst),
        present(t, owner),
        mapped(proc(t, owner).memory, addr, ASYNMSG_SIZE as nat),
        apart(proc(t, owner).regs.rbx, MESSAGE_SIZE as nat, addr, ASYNMSG_SIZE as nat),
    ensures
        held(t, delivered(t, dst, message).0, owner, addr),
{
    let d = proc(t, dst);
    if mapped(d.memory, d.regs.rbx, MESSAGE_SIZE as nat) {
        lemma_wrote_held(
            t,
            dst,
            message,
            super::after_delivery(d.wrote(d.regs.rbx, message.words())),
            owner,
            addr,
        );
    }
}

/// A notification of a process whose buffer lies apart from an entry leaves
/// the entry as it is.
proof fn lemma_notify_held(
    t: TableView,
    caller: Endpoint,
    dst: Endpoint,
    owner: Endpoint,
    addr: u64,
)
    requires
        present(t, owner),
        mapped(proc(t, owner).memory, addr, ASYNMSG_SIZE as nat),
        apart(proc(t, owner).regs.rbx, MESSAGE_SIZE as nat, addr, ASYNMSG_SIZE as nat),
    ensures
        held(t, notify_spec(t, caller, dst).0, owner, addr),
{
    if present(t, dst) {
        lemma_delivered_held(t, dst, super::notify_message(caller), owner, addr);
    }
}

/// Marking one entry done leaves another entry of the same table as it is.
proof fn lemma_recorded_held(
    t: TableView,
    owner: Endpoint,
    at: u64,
    entry: AsynMsg,
    result: i32,
    addr: u64,
)
    requires
        present(t, owner),
        mapped(proc(t, owner).memory, addr, ASYNMSG_SIZE as nat),
        apart(at, ASYNMSG_SIZE as nat, addr, ASYNMSG_SIZE as nat),
    ensures
        held(t, recorded(t, owner, at, entry, result).0, owner, addr),
{
    let o = proc(t, owner);
    let done = entry.finished(result);
    if mapped(o.memory, at, padded_len(ASYNMSG_SIZE as nat)) {
        done.lemma_wire_len();
        lemma_wrote_bytes_memory(o, at, done.wire());
        lemma_store_frame(o.memory, at, done.wire());
    }
}

/// The first look at one entry leaves another entry of the same table as it
/// is, where the buffer of the owner lies apart from it.
proof fn lemma_senda_entry_held(t: TableView, caller: Endpoint, at: u64, addr: u64)
    requires
        present(t, caller),
        mapped(proc(t, caller).memory, addr, ASYNMSG_SIZE as nat),
        apart(proc(t, caller).regs.rbx, MESSAGE_SIZE as nat, addr, ASYNMSG_SIZE as nat),
        apart(at, ASYNMSG_SIZE as nat, addr, ASYNMSG_SIZE as nat),
    ensures
        held(t, senda_entry_spec(t, caller, at).0, caller, addr),
{
    match asynmsg_at(proc(t, caller), at) {
        Err(_) => {},
        Ok(entry) => {
            lemma_recorded_held(t, caller, at, entry, crate::utils::minix_errno::EDEADSRCDST, addr);
            lemma_recorded_held(t, caller, at, entry, crate::utils::minix_errno::ECALLDENIED, addr);
            if present(t, entry.dst) {
                let message = entry.msg.with_source(caller);
                lemma_delivered_held(t, entry.dst, message, caller, addr);
                let after = delivered(t, entry.dst, message).0;
                lemma_recorded_held(after, caller, at, entry, OK, addr);
                lemma_held_trans(t, after, recorded(after, caller, at, entry, OK).0, caller, addr);
            }
        },
    }
}

/// The first look at the entries from `i` on leaves a done entry of the
/// table as it is.
proof fn lemma_senda_scan_held(
    t: TableView,
    caller: Endpoint,
    tab: u64,
    size: u64,
    i: u64,
    notify: bool,
    done: bool,
    k: u64,
    entry: AsynMsg,
)
    requires
        present(t, caller),
        k < size,
        entry_addr(tab, k) <= u64::MAX,
        asynmsg_at(proc(t, caller), entry_addr(tab, k) as u64) == Ok::<AsynMsg, Error>(entry),
        !malformed(entry.flags),
        entry.flags & AMF_DONE != 0,
        apart(
            proc(t, caller).regs.rbx,
            MESSAGE_SIZE as nat,
            entry_addr(tab, k) as u64,
            ASYNMSG_SIZE as nat,
        ),
    ensures
        held(
            t,
            senda_scan(t, caller, tab, size, i, notify, done).0,
            caller,
            entry_addr(tab, k) as u64,
        ),
    decreases size - i,
{
    let addr = entry_addr(tab, k) as u64;
    if i < size && entry_addr(tab, i) <= u64::MAX {
        let at = entry_addr(tab, i) as u64;
        crate::utils::guest_memory::lemma_mapped_sub(
            proc(t, caller).memory,
            addr,
            padded_len(ASYNMSG_SIZE as nat),
            0,
            ASYNMSG_SIZE as nat,
        );
        let (after, outcome) = senda_entry_spec(t, caller, at);
        if i == k {
            assert(after == t);
        } else {
            lemma_senda_entry_held(t, caller, at, addr);
        }
        lemma_held_reads_same(t, after, caller, addr);
        match outcome {
            Ok(Step::Skip { undone }) => {
                lemma_senda_scan_held(
                    after,
                    caller,
                    tab,
                    size,
                    (i + 1) as u64,
                    notify,
                    done && !undone,
                    k,
                    entry,
                );
                lemma_held_trans(
                    t,
                    after,
                    senda_scan(after, caller, tab, size, (i + 1) as u64, notify, done && !undone).0,
                    caller,
                    addr,
                );
            },
            Ok(Step::Handled { result, notify: wanted }) => {
                lemma_senda_scan_held(
                    after,
                    caller,
                    tab,
                    size,
                    (i + 1) as u64,
                    notify || wanted,
                    done,
                    k,
                    entry,
                );
                lemma_held_trans(
                    t,
                    after,
                    senda_scan(after, caller, tab, size, (i + 1) as u64, notify || wanted, done).0,
                    caller,
                    addr,
                );
            },
            Err(_) => {},
        }
    }
}

/// An entry that is done stays as it is when its table is handed over
/// again: after SENDA it is read as it was read before. The buffer of the
/// caller has to lie apart from the entry.
pub proof fn law_done_entry_survives_senda(
    t: TableView,
    caller: Endpoint,
    tab: u64,
    size: u64,
    k: u64,
    entry: AsynMsg,
)
    requires
        present(t, caller),
        k < size,
        entry_addr(tab, k) <= u64::MAX,
        asynmsg_at(proc(t, caller), entry_addr(tab, k) as u64) == Ok::<AsynMsg, Error>(entry),
        !malformed(entry.flags),
        entry.flags & AMF_DONE != 0,
        apart(
            proc(t, caller).regs.rbx,
            MESSAGE_SIZE as nat,
            entry_addr(tab, k) as u64,
            ASYNMSG_SIZE as nat,
        ),
    ensures
        asynmsg_at(proc(senda_spec(t, caller, tab, size).0, caller), entry_addr(tab, k) as u64)
            == Ok::<AsynMsg, Error>(entry),
{
    let addr = entry_addr(tab, k) as u64;
    let c = proc(t, caller);
    let t0 = put(
        t,
        caller,
        c.with_privileges(
            (crate::sys::types::privileges::Priv {
                s_asyntab: NO_ASYN_TABLE,
                s_asynsize: 0,
                s_asynendpoint: caller,
                ..c.privileges
            }),
        ),
    );
    assert(held(t, t0, caller, addr));
    lemma_held_reads_same(t, t0, caller, addr);
    lemma_senda_scan_held(t0, caller, tab, size, 0, false, true, k, entry);
    let (t1, scanned) = senda_scan(t0, caller, tab, size, 0, false, true);
    lemma_held_trans(t, t0, t1, caller, addr);
    crate::utils::guest_memory::lemma_mapped_sub(
        proc(t, caller).memory,
        addr,
        padded_len(ASYNMSG_SIZE as nat),
        0,
        ASYNMSG_SIZE as nat,
    );
    match scanned {
        Ok((notify, done)) => {
            let t2 = if notify {
                notify_spec(t1, ASYNCM, caller).0
            } else {
                t1
            };
            if notify {
                crate::utils::guest_memory::lemma_mapped_sub(
                    proc(t1, caller).memory,
                    addr,
                    padded_len(ASYNMSG_SIZE as nat),
                    0,
                    ASYNMSG_SIZE as nat,
                );
                lemma_held_reads_same(t, t1, caller, addr);
                lemma_notify_held(t1, ASYNCM, caller, caller, addr);
                lemma_held_trans(t, t1, t2, caller, addr);
            }
            let last = senda_spec(t, caller, tab, size).0;
            assert(held(t2, last, caller, addr));
            lemma_held_trans(t, t2, last, caller, addr);
            lemma_held_reads_same(t, last, caller, addr);
        },
        Err(_) => {
            lemma_held_reads_same(t, t1, caller, addr);
        },
    }
}

/// The scan of one entry for a receiver leaves another entry of the same
/// table as it is, where the buffer of the owner lies apart from it.
proof fn lemma_try_entry_held(t: TableView, src: Endpoint, dst: Endpoint, at: u64, addr: u64)
    requires
        present(t, src),
        present(t, dst),
        mapped(proc(t, src).memory, addr, ASYNMSG_SIZE as nat),
        apart(proc(t, src).regs.rbx, MESSAGE_SIZE as nat, addr, ASYNMSG_SIZE as nat),
        apart(at, ASYNMSG_SIZE as nat, addr, ASYNMSG_SIZE as nat),
    ensures
        held(t, try_entry_spec(t, src, dst, at).0, src, addr),
{
    match asynmsg_at(proc(t, src), at) {
        Err(_) => {},
        Ok(entry) => {
            lemma_recorded_held(t, src, at, entry, EINVAL, addr);
            let d = proc(t, dst);
            if mapped(d.memory, d.regs.rbx, MESSAGE_SIZE as nat) {
                let message = entry.msg.with_source(src);
                let after = put(t, dst, d.wrote(d.regs.rbx, message.words()));
                lemma_wrote_held(t, dst, message, d.wrote(d.regs.rbx, message.words()), src, addr);
                lemma_recorded_held(after, src, at, entry, OK, addr);
                lemma_held_trans(t, after, recorded(after, src, at, entry, OK).0, src, addr);
            }
        },
    }
}

/// The scan of a table for a receiver leaves a done entry of the table as
/// it is.
proof fn lemma_try_one_scan_held(
    t: TableView,
    src: Endpoint,
    dst: Endpoint,
    tab: u32,
    size: u32,
    i: u32,
    done: bool,
    k: u32,
    entry: AsynMsg,
)
    requires
        present(t, src),
        present(t, dst),
        k < size,
        asynmsg_at(proc(t, src), entry_addr(tab as u64, k as u64) as u64) == Ok::<AsynMsg, Error>(
            entry,
        ),
        !malformed(entry.flags),
        entry.flags & AMF_DONE != 0,
        apart(
            proc(t, src).regs.rbx,
            MESSAGE_SIZE as nat,
            entry_addr(tab as u64, k as u64) as u64,
            ASYNMSG_SIZE as nat,
        ),
    ensures
        held(
            t,
            try_one_scan(t, src, dst, tab, size, i, done).0,
            src,
            entry_addr(tab as u64, k as u64) as u64,
        ),
    decreases size - i,
{
    let addr = entry_addr(tab as u64, k as u64) as u64;
    if i < size {
        let at = entry_addr(tab as u64, i as u64) as u64;
        crate::utils::guest_memory::lemma_mapped_sub(
            proc(t, src).memory,
            addr,
            padded_len(ASYNMSG_SIZE as nat),
            0,
            ASYNMSG_SIZE as nat,
        );
        let (after, outcome) = try_entry_spec(t, src, dst, at);
        if i == k {
            assert(after == t);
        } else {
            lemma_try_entry_held(t, src, dst, at, addr);
        }
        lemma_held_reads_same(t, after, src, addr);
        match outcome {
            Ok(Step::Skip { undone }) => {
                lemma_try_one_scan_held(
                    after,
                    src,
                    dst,
                    tab,
                    size,
                    (i + 1) as u32,
                    done && !undone,
                    k,
                    entry,
                );
                lemma_held_trans(
                    t,
                    after,
                    try_one_scan(after, src, dst, tab, size, (i + 1) as u32, done && !undone).0,
                    src,
                    addr,
                );
            },
            _ => {},
        }
    }
}

/// An entry that is done stays as it is when a receiver looks through its
/// table: after the attempt it is read as it was read before. The buffer of
/// the owner of the table has to lie apart from the entry.
pub proof fn law_done_entry_survives_try_one(
    t: TableView,
    src: Endpoint,
    dst: Endpoint,
    k: u32,
    entry: AsynMsg,
)
    requires
        present(t, src),
        present(t, dst),
        k < proc(t, src).privileges.s_asynsize,
        asynmsg_at(
            proc(t, src),
            entry_addr(proc(t, src).privileges.s_asyntab as u64, k as u64) as u64,
        ) == Ok::<AsynMsg, Error>(entry),
        !malformed(entry.flags),
        entry.flags & AMF_DONE != 0,
        apart(
            proc(t, src).regs.rbx,
            MESSAGE_SIZE as nat,
            entry_addr(proc(t, src).privileges.s_asyntab as u64, k as u64) as u64,
            ASYNMSG_SIZE as nat,
        ),
    ensures
        asynmsg_at(
            proc(try_one_spec(t, src, dst).0, src),
            entry_addr(proc(t, src).privileges.s_asyntab as u64, k as u64) as u64,
        ) == Ok::<AsynMsg, Error>(entry),
{
    let privileges = proc(t, src).privileges;
    let tab = privileges.s_asyntab;
    let size = privileges.s_asynsize;
    let addr = entry_addr(tab as u64, k as u64) as u64;
    let d = proc(t, dst);
    let t1 = put(t, dst, d.with_async_pending(d.async_pending.remove_value(src)));
    assert(held(t, t1, src, addr));
    lemma_held_reads_same(t, t1, src, addr);
    lemma_try_one_scan_held(t1, src, dst, tab, size, 0, true, k, entry);
    let (t2, scanned) = try_one_scan(t1, src, dst, tab, size, 0, true);
    lemma_held_trans(t, t1, t2, src, addr);
    lemma_held_reads_same(t, t2, src, addr);
    match scanned {
        Ok((result, notify, done)) => {
            let t3 = if notify {
                notify_spec(t2, ASYNCM, src).0
            } else {
                t2
            };
            if notify {
                crate::utils::guest_memory::lemma_mapped_sub(
                    proc(t2, src).memory,
                    addr,
                    padded_len(ASYNMSG_SIZE as nat),
                    0,
                    ASYNMSG_SIZE as nat,
                );
                lemma_notify_held(t2, ASYNCM, src, src, addr);
                lemma_held_trans(t, t2, t3, src, addr);
            }
            let last = try_one_spec(t, src, dst).0;
            assert(held(t3, last, src, addr));
            lemma_held_trans(t, t3, last, src, addr);
            lemma_held_reads_same(t, last, src, addr);
        },
        Err(_) => {},
    }
}

/// Every process has in `b` the pending asynchronous senders and the
/// privileges that it has in `a`.
pub open spec fn asyn_kept(a: TableView, b: TableView) -> bool {
    &&& same_slots(a, b)
    &&& forall|e: Endpoint| #[trigger]
        present(a, e) ==> proc(b, e).async_pending == proc(a, e).async_pending && proc(
            b,
            e,
        ).privileges == proc(a, e).privileges
}

proof fn lemma_asyn_kept_trans(a: TableView, b: TableView, c: TableView)
    requires
        asyn_kept(a, b),
        asyn_kept(b, c),
    ensures
        asyn_kept(a, c),
{
    super::lemma_same_slots_trans(a, b, c);
    assert forall|e: Endpoint| #[trigger] present(a, e) implies proc(c, e).async_pending == proc(
        a,
        e,
    ).async_pending && proc(c, e).privileges == proc(a, e).privileges by {
        assert(present(b, e));
    }
}

proof fn lemma_delivered_asyn_kept(t: TableView, dst: Endpoint, message: Message)
    requires
        present(t, dst),
    ensures
        asyn_kept(t, delivered(t, dst, message).0),
{
}

proof fn lemma_notify_asyn_kept(t: TableView, caller: Endpoint, dst: Endpoint)
    ensures
        asyn_kept(t, notify_spec(t, caller, dst).0),
{
    if present(t, dst) {
        lemma_delivered_asyn_kept(t, dst, super::notify_message(caller));
    }
}

proof fn lemma_recorded_asyn_kept(
    t: TableView,
    owner: Endpoint,
    addr: u64,
    entry: AsynMsg,
    result: i32,
)
    requires
        present(t, owner),
    ensures
        asyn_kept(t, recorded(t, owner, addr, entry, result).0),
{
}

proof fn lemma_try_entry_asyn_kept(t: TableView, src: Endpoint, dst: Endpoint, addr: u64)
    requires
        present(t, src),
        present(t, dst),
    ensures
        asyn_kept(t, try_entry_spec(t, src, dst, addr).0),
{
    match asynmsg_at(proc(t, src), addr) {
        Err(_) => {},
        Ok(entry) => {
            lemma_recorded_asyn_kept(t, src, addr, entry, EINVAL);
            let d = proc(t, dst);
            let after = put(t, dst, d.wrote(d.regs.rbx, entry.msg.with_source(src).words()));
            assert(asyn_kept(t, after));
            lemma_recorded_asyn_kept(after, src, addr, entry, OK);
            lemma_asyn_kept_trans(t, after, recorded(after, src, addr, entry, OK).0);
        },
    }
}

proof fn lemma_try_one_scan_asyn_kept(
    t: TableView,
    src: Endpoint,
    dst: Endpoint,
    tab: u32,
    size: u32,
    i: u32,
    done: bool,
)
    requires
        present(t, src),
        present(t, dst),
    ensures
        asyn_kept(t, try_one_scan(t, src, dst, tab, size, i, done).0),
    decreases size - i,
{
    if i < size {
        let addr = entry_addr(tab as u64, i as u64) as u64;
        lemma_try_entry_asyn_kept(t, src, dst, addr);
        match try_entry_spec(t, src, dst, addr) {
            (after, Ok(Step::Skip { undone })) => {
                lemma_try_one_scan_asyn_kept(after, src, dst, tab, size, (i + 1) as u32, done
                    && !undone);
                lemma_asyn_kept_trans(
                    t,
                    after,
                    try_one_scan(after, src, dst, tab, size, (i + 1) as u32, done && !undone).0,
                );
            },
            _ => {},
        }
    }
}

/// A sender stays on the pending list of a receiver only while it has a
/// table: if an attempt to deliver for `src` ends with `src` having none,
/// the list of `dst` is what it was without its first `src`; and where
/// `src` is put on the list again, its table is the one it had.
pub proof fn law_try_one_requeues_with_table(t: TableView, src: Endpoint, dst: Endpoint)
    requires
        present(t, src),
        present(t, dst),
        try_one_spec(t, src, dst).1 is Ok,
    ensures
        ({
            let after = try_one_spec(t, src, dst).0;
            let rest = proc(t, dst).async_pending.remove_value(src);
            ||| proc(after, dst).async_pending == rest
            ||| (proc(after, dst).async_pending == rest.push(src) && proc(
                after,
                src,
            ).privileges.s_asynsize > 0 && proc(after, src).privileges == proc(t, src).privileges)
        }),
{
    let privileges = proc(t, src).privileges;
    let d = proc(t, dst);
    let t1 = put(t, dst, d.with_async_pending(d.async_pending.remove_value(src)));
    if privileges.s_asynsize != 0 {
        lemma_try_one_scan_asyn_kept(
            t1,
            src,
            dst,
            privileges.s_asyntab,
            privileges.s_asynsize,
            0,
            true,
        );
        let (t2, scanned) = try_one_scan(
            t1,
            src,
            dst,
            privileges.s_asyntab,
            privileges.s_asynsize,
            0,
            true,
        );
        match scanned {
            Ok((result, notify, done)) => {
                let t3 = if notify {
                    notify_spec(t2, ASYNCM, src).0
                } else {
                    t2
                };
                lemma_notify_asyn_kept(t2, ASYNCM, src);
                assert(asyn_kept(t2, t3));
                lemma_asyn_kept_trans(t1, t2, t3);
                assert(present(t1, dst) && present(t1, src));
            },
            Err(_) => {},
        }
    }
}

/// The first look at an entry that does not put the caller on a pending
/// list changes no pending list.
proof fn lemma_senda_entry_asyn_kept(t: TableView, caller: Endpoint, addr: u64)
    requires
        present(t, caller),
    ensures
        senda_entry_spec(t, caller, addr).1 != Ok::<Step, Error>(Step::Skip { undone: true })
            ==> asyn_kept(t, senda_entry_spec(t, caller, addr).0),
{
    match asynmsg_at(proc(t, caller), addr) {
        Err(_) => {},
        Ok(entry) => {
            lemma_recorded_asyn_kept(
                t,
                caller,
                addr,
                entry,
                crate::utils::minix_errno::EDEADSRCDST,
            );
            lemma_recorded_asyn_kept(
                t,
                caller,
                addr,
                entry,
                crate::utils::minix_errno::ECALLDENIED,
            );
            if present(t, entry.dst) {
                let message = entry.msg.with_source(caller);
                lemma_delivered_asyn_kept(t, entry.dst, message);
                let after = delivered(t, entry.dst, message).0;
                lemma_recorded_asyn_kept(after, caller, addr, entry, OK);
                lemma_asyn_kept_trans(t, after, recorded(after, caller, addr, entry, OK).0);
            }
        },
    }
}

/// A first look at a table that finds nothing left undone changes no
/// pending list.
proof fn lemma_senda_scan_asyn_kept(
    t: TableView,
    caller: Endpoint,
    tab: u64,
    size: u64,
    i: u64,
    notify: bool,
    done: bool,
)
    requires
        present(t, caller),
    ensures
        senda_scan(t, caller, tab, size, i, notify, done).1 matches Ok((_, left)) ==> (left
            ==> done && asyn_kept(t, senda_scan(t, caller, tab, size, i, notify, done).0)),
    decreases size - i,
{
    if i < size && entry_addr(tab, i) <= u64::MAX {
        let addr = entry_addr(tab, i) as u64;
        lemma_senda_entry_asyn_kept(t, caller, addr);
        crate::ipc::invariants::lemma_senda_entry_quiet(t, caller, addr);
        match senda_entry_spec(t, caller, addr) {
            (after, Ok(Step::Skip { undone })) => {
                lemma_senda_scan_asyn_kept(after, caller, tab, size, (i + 1) as u64, notify, done
                    && !undone);
                let last = senda_scan(after, caller, tab, size, (i + 1) as u64, notify, done
                    && !undone);
                if last.1 matches Ok((_, left)) && left {
                    lemma_asyn_kept_trans(t, after, last.0);
                }
            },
            (after, Ok(Step::Handled { result, notify: wanted })) => {
                lemma_senda_scan_asyn_kept(after, caller, tab, size, (i + 1) as u64, notify
                    || wanted, done);
                let last = senda_scan(
                    after,
                    caller,
                    tab,
                    size,
                    (i + 1) as u64,
                    notify || wanted,
                    done,
                );
                if last.1 matches Ok((_, left)) && left {
                    lemma_asyn_kept_trans(t, after, last.0);
                }
            },
            _ => {},
        }
    }
}

/// A caller that SENDA puts on a pending list has its table on record: if
/// the call changes the pending list of any process, the caller's table is
/// the one it handed over, with its `size` entries.
pub proof fn law_senda_queues_with_table(
    t: TableView,
    caller: Endpoint,
    tab: u64,
    size: u64,
    q: Endpoint,
)
    requires
        present(t, caller),
        present(t, q),
        size < 0x1_0000_0000,
        senda_spec(t, caller, tab, size).1 is Ok,
        proc(senda_spec(t, caller, tab, size).0, q).async_pending != proc(t, q).async_pending,
    ensures
        size > 0,
        proc(senda_spec(t, caller, tab, size).0, caller).privileges.s_asynsize == size,
        proc(senda_spec(t, caller, tab, size).0, caller).privileges.s_asyntab == tab
            % 0x1_0000_0000,
{
    let c = proc(t, caller);
    let t0 = put(
        t,
        caller,
        c.with_privileges(
            (crate::sys::types::privileges::Priv {
                s_asyntab: NO_ASYN_TABLE,
                s_asynsize: 0,
                s_asynendpoint: caller,
                ..c.privileges
            }),
        ),
    );
    assert(proc(t0, q).async_pending == proc(t, q).async_pending);
    if size != 0 {
        lemma_senda_scan_asyn_kept(t0, caller, tab, size, 0, false, true);
        crate::ipc::invariants::lemma_senda_scan_quiet(t0, caller, tab, size, 0, false, true);
        let (t1, scanned) = senda_scan(t0, caller, tab, size, 0, false, true);
        match scanned {
            Ok((notify, done)) => {
                let t2 = if notify {
                    notify_spec(t1, ASYNCM, caller).0
                } else {
                    t1
                };
                lemma_notify_asyn_kept(t1, ASYNCM, caller);
                assert(present(t0, q));
                assert(present(t1, q));
                assert(present(t1, caller));
                assert(proc(t2, q).async_pending == proc(t1, q).async_pending);
                if done {
                    assert(proc(t1, q).async_pending == proc(t0, q).async_pending);
                }
            },
            Err(_) => {},
        }
    }
}

} // verus!
