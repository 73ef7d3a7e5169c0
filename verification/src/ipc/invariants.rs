//! What holds of the process table in every state that the IPC calls lead to.

use crate::utils::endpoint::Endpoint;
use crate::utils::message::Message;
use crate::utils::minix_process::{MinixProcess, ProcessState, ProcessView};
use crate::utils::minix_process_table::{present, proc, put, TableView};
use super::{
    after_delivery, after_receipt, call_spec, completed, delivered, entered, first_accepted,
    ipc_spec, is_first_accepted, kerninfo_spec, notify_spec, queue_senders, receive_from_queue,
    receive_spec, same_slots, send_spec, sendrec_spec, sync_ipc_spec,
};
use super::asyn::{
    recorded, senda_entry_spec, senda_scan, senda_spec, try_async_from, try_async_spec,
    try_entry_spec, try_one_scan, try_one_spec, AsynMsg, Step,
};
use vstd::prelude::*;

verus! {

/// The process that `p` is blocked sending to, if it is.
pub open spec fn target(p: ProcessView) -> Option<Endpoint> {
    match p.state {
        ProcessState::Sending(q) => Some(q),
        ProcessState::SendReceiving(q) => Some(q),
        _ => None,
    }
}

/// `i` is a place in the sender queue of `q`.
pub open spec fn entry_at(t: TableView, q: Endpoint, i: int) -> bool {
    present(t, q) && 0 <= i < proc(t, q).queue.len()
}

/// The sender of the entry at place `i` in the queue of `q`.
pub open spec fn sender_at(t: TableView, q: Endpoint, i: int) -> Endpoint {
    proc(t, q).queue[i].0
}

/// The sender of the entry at place `i` of the queue of `q` has a slot and
/// is blocked sending to `q`.
pub open spec fn entry_blocked(t: TableView, q: Endpoint, i: int) -> bool {
    present(t, sender_at(t, q, i)) && target(proc(t, sender_at(t, q, i))) == Some(q)
}

/// `p` has an entry in the sender queue of `q`.
pub open spec fn queued_on(t: TableView, p: Endpoint, q: Endpoint) -> bool {
    exists|i: int| #[trigger] entry_at(t, q, i) && sender_at(t, q, i) == p
}

/// If `p` is blocked sending, it has an entry in the queue of the process
/// it sends to.
pub open spec fn blocked_queued(t: TableView, p: Endpoint) -> bool {
    target(proc(t, p)) is Some ==> queued_on(t, p, target(proc(t, p))->0)
}

/// Every process on the list of asynchronous senders pending for `q` has a
/// slot.
pub open spec fn pending_present(t: TableView, q: Endpoint) -> bool {
    forall|i: int|
        0 <= i < proc(t, q).async_pending.len() ==> present(
            t,
            #[trigger] proc(t, q).async_pending[i],
        )
}

/// The invariant of the IPC engine: the sender queues hold exactly the
/// processes that are blocked sending, each once and in the queue of the
/// process it sends to, and whoever is pending with asynchronous messages
/// has a slot.
pub open spec fn ipc_inv(t: TableView) -> bool {
    &&& forall|q: Endpoint, i: int| #[trigger] entry_at(t, q, i) ==> entry_blocked(t, q, i)
    &&& forall|p: Endpoint| #[trigger] present(t, p) ==> blocked_queued(t, p)
    &&& forall|q: Endpoint, i: int, j: int|
        #![trigger entry_at(t, q, i), entry_at(t, q, j)]
        entry_at(t, q, i) && entry_at(t, q, j) && sender_at(t, q, i) == sender_at(t, q, j) ==> i
            == j
    &&& forall|q: Endpoint| #[trigger] present(t, q) ==> pending_present(t, q)
}

/// No process is the sender of two entries, be it of one queue or of two.
pub proof fn law_one_entry_for_each_sender(
    t: TableView,
    q1: Endpoint,
    i1: int,
    q2: Endpoint,
    i2: int,
)
    requires
        ipc_inv(t),
        entry_at(t, q1, i1),
        entry_at(t, q2, i2),
        sender_at(t, q1, i1) == sender_at(t, q2, i2),
    ensures
        q1 == q2,
        i1 == i2,
{
    assert(entry_blocked(t, q1, i1));
    assert(entry_blocked(t, q2, i2));
}

/// A process that is blocked sending to `q` has one entry in the queue of
/// `q`, and no other.
pub proof fn law_blocked_sender_is_queued_once(t: TableView, p: Endpoint, q: Endpoint) -> (i: int)
    requires
        ipc_inv(t),
        present(t, p),
        proc(t, p).state == ProcessState::Sending(q) || proc(t, p).state
            == ProcessState::SendReceiving(q),
    ensures
        entry_at(t, q, i),
        sender_at(t, q, i) == p,
        forall|j: int| entry_at(t, q, j) && sender_at(t, q, j) == p ==> j == i,
{
    assert(blocked_queued(t, p));
    let i = choose|i: int| #[trigger] entry_at(t, q, i) && sender_at(t, q, i) == p;
    i
}

/// Whoever is pending with asynchronous messages for a process has a slot.
pub proof fn law_pending_sender_exists(t: TableView, q: Endpoint, p: Endpoint)
    requires
        ipc_inv(t),
        present(t, q),
        proc(t, q).async_pending.contains(p),
    ensures
        present(t, p),
{
    assert(pending_present(t, q));
}

/// The process at `e` has in `b` the queue, the blocking, the mark of a
/// pending answer and the pending asynchronous senders that it has in `a`,
/// but for pending senders added, which have a slot.
pub open spec fn kept(a: TableView, b: TableView, e: Endpoint) -> bool {
    &&& proc(b, e).queue == proc(a, e).queue
    &&& target(proc(b, e)) == target(proc(a, e))
    &&& proc(b, e).reply_pending == proc(a, e).reply_pending
    &&& pending_present(a, e) ==> pending_present(b, e)
}

/// A step that touches no sender queue, no blocked sender and no mark of a
/// pending answer.
pub open spec fn quiet(a: TableView, b: TableView) -> bool {
    &&& same_slots(a, b)
    &&& forall|e: Endpoint| #[trigger] present(a, e) ==> kept(a, b, e)
}

pub proof fn lemma_quiet_refl(a: TableView)
    ensures
        quiet(a, a),
{
}

pub proof fn lemma_quiet_trans(a: TableView, b: TableView, c: TableView)
    requires
        quiet(a, b),
        quiet(b, c),
    ensures
        quiet(a, c),
{
    assert forall|e: Endpoint| present(a, e) == present(c, e) by {
        assert(present(a, e) == present(b, e));
    }
    assert forall|e: Endpoint| #[trigger] present(a, e) implies kept(a, c, e) by {
        assert(present(b, e));
        assert(kept(a, b, e));
        assert(kept(b, c, e));
        if pending_present(a, e) {
            assert(pending_present(b, e));
            assert(pending_present(c, e));
        }
    }
}

/// A quiet step keeps the invariant.
pub proof fn lemma_quiet_keeps_inv(a: TableView, b: TableView)
    requires
        quiet(a, b),
        ipc_inv(a),
    ensures
        ipc_inv(b),
{
    assert forall|q: Endpoint, i: int| #[trigger] entry_at(b, q, i) implies entry_blocked(
        b,
        q,
        i,
    ) by {
        assert(present(a, q) == present(b, q));
        assert(kept(a, b, q));
        assert(entry_at(a, q, i));
        assert(entry_blocked(a, q, i));
        let s = sender_at(a, q, i);
        assert(present(a, s) == present(b, s));
        assert(kept(a, b, s));
    }
    assert forall|p: Endpoint| #[trigger] present(b, p) implies blocked_queued(b, p) by {
        assert(present(a, p) == present(b, p));
        assert(kept(a, b, p));
        assert(blocked_queued(a, p));
        if target(proc(b, p)) is Some {
            let q = target(proc(a, p))->0;
            let i = choose|i: int| #[trigger] entry_at(a, q, i) && sender_at(a, q, i) == p;
            assert(present(a, q) == present(b, q));
            assert(kept(a, b, q));
            assert(entry_at(b, q, i) && sender_at(b, q, i) == p);
        }
    }
    assert forall|q: Endpoint, i: int, j: int|
        #![trigger entry_at(b, q, i), entry_at(b, q, j)]
        entry_at(b, q, i) && entry_at(b, q, j) && sender_at(b, q, i) == sender_at(
            b,
            q,
            j,
        ) implies i == j by {
        assert(present(a, q) == present(b, q));
        assert(kept(a, b, q));
        assert(entry_at(a, q, i) && entry_at(a, q, j));
    }
    assert forall|q: Endpoint| #[trigger] present(b, q) implies pending_present(b, q) by {
        assert(present(a, q) == present(b, q));
        assert(kept(a, b, q));
        assert(pending_present(a, q));
    }
}

/// A change to one process that keeps its queue, its blocking and its mark,
/// and adds to its pending senders none without a slot, is a quiet step.
pub proof fn lemma_put_quiet(t: TableView, e: Endpoint, p: ProcessView)
    requires
        present(t, e),
        p.queue == proc(t, e).queue,
        target(p) == target(proc(t, e)),
        p.reply_pending == proc(t, e).reply_pending,
        forall|i: int|
            0 <= i < p.async_pending.len() ==> present(t, #[trigger] p.async_pending[i])
                || pending_has(proc(t, e).async_pending, p.async_pending[i]),
    ensures
        quiet(t, put(t, e, p)),
{
    let b = put(t, e, p);
    assert forall|x: Endpoint| #[trigger] present(t, x) implies kept(t, b, x) by {
        if pending_present(t, x) {
            assert forall|i: int| 0 <= i < proc(b, x).async_pending.len() implies present(
                b,
                #[trigger] proc(b, x).async_pending[i],
            ) by {
                if x == e {
                    let v = p.async_pending[i];
                    if !present(t, v) {
                        let k = choose|k: int|
                            0 <= k < proc(t, e).async_pending.len() && proc(t, e).async_pending[k]
                                == v;
                        assert(present(t, proc(t, e).async_pending[k]));
                    }
                } else {
                    assert(present(t, proc(t, x).async_pending[i]));
                }
            }
        }
    }
}

/// `v` is on the list `pending`.
pub open spec fn pending_has(pending: Seq<Endpoint>, v: Endpoint) -> bool {
    exists|k: int| 0 <= k < pending.len() && pending[k] == v
}

/// A change to one process that keeps its queue, its blocking, its mark
/// and its pending senders is a quiet step.
pub proof fn lemma_put_quiet_same(t: TableView, e: Endpoint, p: ProcessView)
    requires
        present(t, e),
        p.queue == proc(t, e).queue,
        target(p) == target(proc(t, e)),
        p.reply_pending == proc(t, e).reply_pending,
        p.async_pending == proc(t, e).async_pending,
    ensures
        quiet(t, put(t, e, p)),
{
    assert forall|i: int| 0 <= i < p.async_pending.len() implies present(
        t,
        #[trigger] p.async_pending[i],
    ) || pending_has(proc(t, e).async_pending, p.async_pending[i]) by {
        assert(proc(t, e).async_pending[i] == p.async_pending[i]);
    }
    lemma_put_quiet(t, e, p);
}

/// Handing a message to a receiver is a quiet step.
pub proof fn lemma_delivered_quiet(t: TableView, dst: Endpoint, message: Message)
    requires
        present(t, dst),
    ensures
        quiet(t, delivered(t, dst, message).0),
{
    let d = proc(t, dst);
    lemma_put_quiet_same(t, dst, after_delivery(d.wrote(d.regs.rbx, message.words())));
}

/// A notification is a quiet step.
pub proof fn lemma_notify_quiet(t: TableView, caller: Endpoint, dst: Endpoint)
    ensures
        quiet(t, notify_spec(t, caller, dst).0),
{
    if present(t, dst) {
        let d = proc(t, dst);
        lemma_put_quiet_same(t, dst, d.with_notify_pending(d.notify_pending.push(caller)));
        lemma_delivered_quiet(t, dst, super::notify_message(caller));
    }
}

/// Marking an entry done is a quiet step.
pub proof fn lemma_recorded_quiet(
    t: TableView,
    owner: Endpoint,
    addr: u64,
    entry: AsynMsg,
    result: i32,
)
    requires
        present(t, owner),
    ensures
        quiet(t, recorded(t, owner, addr, entry, result).0),
{
    let o = proc(t, owner);
    lemma_put_quiet_same(t, owner, o.wrote_bytes(addr, entry.finished(result).wire()));
}

/// The scan of one entry for a receiver is a quiet step.
pub proof fn lemma_try_entry_quiet(t: TableView, src: Endpoint, dst: Endpoint, addr: u64)
    requires
        present(t, src),
        present(t, dst),
    ensures
        quiet(t, try_entry_spec(t, src, dst, addr).0),
{
    match super::asyn::asynmsg_at(proc(t, src), addr) {
        Err(_) => {},
        Ok(entry) => {
            lemma_recorded_quiet(t, src, addr, entry, crate::utils::minix_errno::EINVAL);
            let d = proc(t, dst);
            let w = put(t, dst, d.wrote(d.regs.rbx, entry.msg.with_source(src).words()));
            lemma_put_quiet_same(t, dst, d.wrote(d.regs.rbx, entry.msg.with_source(src).words()));
            lemma_recorded_quiet(w, src, addr, entry, crate::utils::minix_errno::OK);
            lemma_quiet_trans(t, w, recorded(w, src, addr, entry, crate::utils::minix_errno::OK).0);
        },
    }
}

/// The scan of a table for a receiver is a quiet step.
pub proof fn lemma_try_one_scan_quiet(
    t: TableView,
    src: Endpoint,
    dst: Endpoint,
    tab: u32,
    size: u32,
    i: u32,
    done: bool,
)
    requires
        present(t, src),
        present(t, dst),
    ensures
        quiet(t, try_one_scan(t, src, dst, tab, size, i, done).0),
    decreases size - i,
{
    if i < size {
        let addr = super::asyn::entry_addr(tab as u64, i as u64) as u64;
        lemma_try_entry_quiet(t, src, dst, addr);
        match try_entry_spec(t, src, dst, addr) {
            (after, Ok(Step::Skip { undone })) => {
                lemma_try_one_scan_quiet(after, src, dst, tab, size, (i + 1) as u32, done
                    && !undone);
                lemma_quiet_trans(
                    t,
                    after,
                    try_one_scan(after, src, dst, tab, size, (i + 1) as u32, done && !undone).0,
                );
            },
            _ => {},
        }
    }
}

/// An attempt to deliver an asynchronous message is a quiet step.
pub proof fn lemma_try_one_quiet(t: TableView, src: Endpoint, dst: Endpoint)
    requires
        present(t, src),
        present(t, dst),
    ensures
        quiet(t, try_one_spec(t, src, dst).0),
{
    let privileges = proc(t, src).privileges;
    let d = proc(t, dst);
    let removed = d.async_pending.remove_value(src);
    let t1 = put(t, dst, d.with_async_pending(removed));
    assert forall|i: int| 0 <= i < removed.len() implies present(t, #[trigger] removed[i])
        || pending_has(d.async_pending, removed[i]) by {
        d.async_pending.index_of_first_ensures(src);
        match d.async_pending.index_of_first(src) {
            Some(k) => {
                if i < k {
                    assert(d.async_pending[i] == removed[i]);
                } else {
                    assert(d.async_pending[i + 1] == removed[i]);
                }
            },
            None => {
                assert(d.async_pending[i] == removed[i]);
            },
        }
    }
    lemma_put_quiet(t, dst, d.with_async_pending(removed));
    if privileges.s_asynsize != 0 {
        lemma_try_one_scan_quiet(
            t1,
            src,
            dst,
            privileges.s_asyntab,
            privileges.s_asynsize,
            0,
            true,
        );
        let (t2, scanned) = try_one_scan(
            t1,
            src,
            dst,
            privileges.s_asyntab,
            privileges.s_asynsize,
            0,
            true,
        );
        lemma_quiet_trans(t, t1, t2);
        match scanned {
            Ok((result, notify, done)) => {
                let t3 = if notify {
                    notify_spec(t2, crate::utils::endpoint::ASYNCM, src).0
                } else {
                    t2
                };
                lemma_notify_quiet(t2, crate::utils::endpoint::ASYNCM, src);
                lemma_quiet_refl(t2);
                lemma_quiet_trans(t, t2, t3);
                let s = proc(t3, src);
                lemma_put_quiet_same(
                    t3,
                    src,
                    s.with_privileges(
                        s.privileges.with_asyn(
                            crate::sys::types::privileges::NO_ASYN_TABLE,
                            0,
                        ),
                    ),
                );
                let d3 = proc(t3, dst);
                let pushed = d3.async_pending.push(src);
                assert forall|i: int| 0 <= i < pushed.len() implies present(
                    t3,
                    #[trigger] pushed[i],
                ) || pending_has(d3.async_pending, pushed[i]) by {
                    if i < d3.async_pending.len() {
                        assert(d3.async_pending[i] == pushed[i]);
                    }
                }
                lemma_put_quiet(t3, dst, d3.with_async_pending(pushed));
                lemma_quiet_trans(t, t3, try_one_spec(t, src, dst).0);
            },
            Err(_) => {},
        }
    }
}

/// A receiver's look at its pending asynchronous senders is a quiet step.
pub proof fn lemma_try_async_from_quiet(
    t: TableView,
    caller: Endpoint,
    snapshot: Seq<Endpoint>,
    j: int,
)
    requires
        present(t, caller),
    ensures
        quiet(t, try_async_from(t, caller, snapshot, j).0),
    decreases snapshot.len() - j,
{
    if 0 <= j < snapshot.len() {
        if !present(t, snapshot[j]) {
            lemma_try_async_from_quiet(t, caller, snapshot, j + 1);
        } else {
            lemma_try_one_quiet(t, snapshot[j], caller);
            let (after, outcome) = try_one_spec(t, snapshot[j], caller);
            match outcome {
                Ok(result) => {
                    if result != crate::utils::minix_errno::OK {
                        lemma_try_async_from_quiet(after, caller, snapshot, j + 1);
                        lemma_quiet_trans(
                            t,
                            after,
                            try_async_from(after, caller, snapshot, j + 1).0,
                        );
                    }
                },
                Err(_) => {},
            }
        }
    }
}

/// The first look at an entry of a table that was handed over is a quiet
/// step.
pub proof fn lemma_senda_entry_quiet(t: TableView, caller: Endpoint, addr: u64)
    requires
        present(t, caller),
    ensures
        quiet(t, senda_entry_spec(t, caller, addr).0),
{
    match super::asyn::asynmsg_at(proc(t, caller), addr) {
        Err(_) => {},
        Ok(entry) => {
            lemma_recorded_quiet(t, caller, addr, entry, crate::utils::minix_errno::EDEADSRCDST);
            lemma_recorded_quiet(t, caller, addr, entry, crate::utils::minix_errno::ECALLDENIED);
            if present(t, entry.dst) {
                let message = entry.msg.with_source(caller);
                lemma_delivered_quiet(t, entry.dst, message);
                let after = delivered(t, entry.dst, message).0;
                lemma_recorded_quiet(after, caller, addr, entry, crate::utils::minix_errno::OK);
                lemma_quiet_trans(
                    t,
                    after,
                    recorded(after, caller, addr, entry, crate::utils::minix_errno::OK).0,
                );
                let d = proc(t, entry.dst);
                let pushed = d.async_pending.push(caller);
                assert forall|i: int| 0 <= i < pushed.len() implies present(
                    t,
                    #[trigger] pushed[i],
                ) || pending_has(d.async_pending, pushed[i]) by {
                    if i < d.async_pending.len() {
                        assert(d.async_pending[i] == pushed[i]);
                    }
                }
                lemma_put_quiet(t, entry.dst, d.with_async_pending(pushed));
            }
        },
    }
}

/// The first look at the entries of a table that was handed over is a quiet
/// step.
pub proof fn lemma_senda_scan_quiet(
    t: TableView,
    caller: Endpoint,
    tab: u64,
    size: u64,
    i: u64,
    notify: bool,
    done: bool,
)
    requires
        present(t, caller),
    ensures
        quiet(t, senda_scan(t, caller, tab, size, i, notify, done).0),
    decreases size - i,
{
    if i < size && super::asyn::entry_addr(tab, i) <= u64::MAX {
        let addr = super::asyn::entry_addr(tab, i) as u64;
        lemma_senda_entry_quiet(t, caller, addr);
        match senda_entry_spec(t, caller, addr) {
            (after, Ok(Step::Skip { undone })) => {
                lemma_senda_scan_quiet(after, caller, tab, size, (i + 1) as u64, notify, done
                    && !undone);
                lemma_quiet_trans(
                    t,
                    after,
                    senda_scan(after, caller, tab, size, (i + 1) as u64, notify, done && !undone).0,
                );
            },
            (after, Ok(Step::Handled { result, notify: wanted })) => {
                lemma_senda_scan_quiet(after, caller, tab, size, (i + 1) as u64, notify
                    || wanted, done);
                lemma_quiet_trans(
                    t,
                    after,
                    senda_scan(after, caller, tab, size, (i + 1) as u64, notify || wanted, done).0,
                );
            },
            _ => {},
        }
    }
}

/// SENDA is a quiet step.
pub proof fn lemma_senda_quiet(t: TableView, caller: Endpoint, tab: u64, size: u64)
    requires
        present(t, caller),
    ensures
        quiet(t, senda_spec(t, caller, tab, size).0),
{
    let c = proc(t, caller);
    let cleared = c.with_privileges(
        (crate::sys::types::privileges::Priv {
            s_asyntab: crate::sys::types::privileges::NO_ASYN_TABLE,
            s_asynsize: 0,
            s_asynendpoint: caller,
            ..c.privileges
        }),
    );
    let t0 = put(t, caller, cleared);
    lemma_put_quiet_same(t, caller, cleared);
    if size != 0 {
        lemma_senda_scan_quiet(t0, caller, tab, size, 0, false, true);
        let (t1, scanned) = senda_scan(t0, caller, tab, size, 0, false, true);
        lemma_quiet_trans(t, t0, t1);
        match scanned {
            Ok((notify, done)) => {
                let t2 = if notify {
                    notify_spec(t1, crate::utils::endpoint::ASYNCM, caller).0
                } else {
                    t1
                };
                lemma_notify_quiet(t1, crate::utils::endpoint::ASYNCM, caller);
                lemma_quiet_refl(t1);
                lemma_quiet_trans(t, t1, t2);
                let c2 = proc(t2, caller);
                lemma_put_quiet_same(
                    t2,
                    caller,
                    c2.with_privileges(
                        c2.privileges.with_asyn(
                            (tab % 0x1_0000_0000) as u32,
                            (size % 0x1_0000_0000) as u32,
                        ),
                    ),
                );
                lemma_quiet_trans(t, t2, senda_spec(t, caller, tab, size).0);
            },
            Err(_) => {},
        }
    }
}

/// A send by a process that is not blocked sending keeps the invariant.
pub proof fn lemma_send_keeps_inv(t: TableView, caller: Endpoint, dst: Endpoint, non_blocking: bool)
    requires
        ipc_inv(t),
        present(t, caller),
        present(t, dst),
        target(proc(t, caller)) is None,
    ensures
        ipc_inv(send_spec(t, caller, dst, non_blocking).0),
        same_slots(t, send_spec(t, caller, dst, non_blocking).0),
{
    let c = proc(t, caller);
    match c.message_at(c.regs.rbx) {
        Err(_) => {},
        Ok(message) => {
            if super::will_receive_spec(t, caller, dst) {
                lemma_delivered_quiet(t, dst, message.with_source(caller));
                lemma_quiet_keeps_inv(t, delivered(t, dst, message.with_source(caller)).0);
            } else if !non_blocking {
                let blocked = put(t, caller, c.with_state(ProcessState::Sending(dst)));
                let d = proc(blocked, dst);
                let b = put(blocked, dst, d.with_queue(d.queue.push((caller, message))));
                let n = proc(t, dst).queue.len() as int;
                assert(b == send_spec(t, caller, dst, non_blocking).0);
                assert forall|q: Endpoint, i: int| #[trigger]
                    entry_at(b, q, i) implies entry_blocked(b, q, i) by {
                    if q == dst && i == n {
                    } else {
                        assert(entry_at(t, q, i));
                        assert(entry_blocked(t, q, i));
                    }
                }
                assert forall|p: Endpoint| #[trigger] present(b, p) implies blocked_queued(
                    b,
                    p,
                ) by {
                    if p == caller {
                        assert(entry_at(b, dst, n) && sender_at(b, dst, n) == caller);
                    } else {
                        assert(present(t, p));
                        assert(blocked_queued(t, p));
                        if target(proc(b, p)) is Some {
                            let q = target(proc(t, p))->0;
                            let i = choose|i: int| #[trigger]
                                entry_at(t, q, i) && sender_at(t, q, i) == p;
                            assert(entry_at(b, q, i) && sender_at(b, q, i) == p);
                        }
                    }
                }
                assert forall|q: Endpoint, i: int, j: int|
                    #![trigger entry_at(b, q, i), entry_at(b, q, j)]
                    entry_at(b, q, i) && entry_at(b, q, j) && sender_at(b, q, i) == sender_at(
                        b,
                        q,
                        j,
                    ) implies i == j by {
                    if q == dst {
                        if i != n {
                            assert(entry_at(t, q, i));
                            assert(entry_blocked(t, q, i));
                        }
                        if j != n {
                            assert(entry_at(t, q, j));
                            assert(entry_blocked(t, q, j));
                        }
                    } else {
                        assert(entry_at(t, q, i) && entry_at(t, q, j));
                    }
                }
                assert forall|q: Endpoint| #[trigger] present(b, q) implies pending_present(
                    b,
                    q,
                ) by {
                    assert(present(t, q));
                    assert(pending_present(t, q));
                    assert forall|i: int|
                        0 <= i < proc(b, q).async_pending.len() implies present(
                        b,
                        #[trigger] proc(b, q).async_pending[i],
                    ) by {
                        assert(present(t, proc(t, q).async_pending[i]));
                    }
                }
            }
        },
    }
}

/// After a send by a process that was not blocked sending, that process is
/// not blocked waiting for both a receiver and its answer.
pub proof fn lemma_send_caller_state(
    t: TableView,
    caller: Endpoint,
    dst: Endpoint,
    non_blocking: bool,
)
    requires
        present(t, caller),
        present(t, dst),
        target(proc(t, caller)) is None,
    ensures
        !(proc(send_spec(t, caller, dst, non_blocking).0, caller).state is SendReceiving),
{
}

/// Taking the message of a blocked sender, or blocking for want of one,
/// keeps the invariant.
pub proof fn lemma_receive_from_queue_keeps_inv(t: TableView, caller: Endpoint, src: Endpoint)
    requires
        ipc_inv(t),
        present(t, caller),
        target(proc(t, caller)) is None,
    ensures
        ipc_inv(receive_from_queue(t, caller, src).0),
{
    let c = proc(t, caller);
    match first_accepted(queue_senders(c.queue), src) {
        None => {
            lemma_put_quiet_same(t, caller, c.with_state(ProcessState::Receiving(src)));
            lemma_quiet_keeps_inv(t, receive_from_queue(t, caller, src).0);
        },
        Some(i) => {
            assert(is_first_accepted(queue_senders(c.queue), src, i));
            let (sender, message) = c.queue[i];
            if crate::utils::guest_memory::mapped(
                c.memory,
                c.regs.rbx,
                crate::utils::message::MESSAGE_SIZE as nat,
            ) {
                assert(entry_at(t, caller, i));
                assert(entry_blocked(t, caller, i));
                assert(sender_at(t, caller, i) == sender);
                let received = put(
                    t,
                    caller,
                    c.wrote(c.regs.rbx, message.with_source(caller).words()).with_queue(
                        c.queue.remove(i),
                    ),
                );
                let b = put(received, sender, after_receipt(proc(received, sender)));
                assert(b == receive_from_queue(t, caller, src).0);
                assert(target(proc(b, sender)) is None);
                assert forall|q: Endpoint, k: int| #[trigger]
                    entry_at(b, q, k) implies entry_blocked(b, q, k) by {
                    if q == caller {
                        let k0 = if k < i {
                            k
                        } else {
                            k + 1
                        };
                        assert(entry_at(t, caller, k0));
                        assert(entry_blocked(t, caller, k0));
                        assert(sender_at(b, q, k) == sender_at(t, q, k0));
                        assert(entry_at(t, caller, i));
                    } else {
                        assert(entry_at(t, q, k));
                        assert(entry_blocked(t, q, k));
                    }
                }
                assert forall|p: Endpoint| #[trigger] present(b, p) implies blocked_queued(
                    b,
                    p,
                ) by {
                    assert(present(t, p));
                    assert(blocked_queued(t, p));
                    if target(proc(b, p)) is Some {
                        let q = target(proc(t, p))->0;
                        let k = choose|k: int| #[trigger]
                            entry_at(t, q, k) && sender_at(t, q, k) == p;
                        if q == caller {
                            assert(entry_at(t, caller, i));
                            let k1 = if k < i {
                                k
                            } else {
                                k - 1
                            };
                            assert(entry_at(b, q, k1) && sender_at(b, q, k1) == p);
                        } else {
                            assert(entry_at(b, q, k) && sender_at(b, q, k) == p);
                        }
                    }
                }
                assert forall|q: Endpoint, k: int, j: int|
                    #![trigger entry_at(b, q, k), entry_at(b, q, j)]
                    entry_at(b, q, k) && entry_at(b, q, j) && sender_at(b, q, k) == sender_at(
                        b,
                        q,
                        j,
                    ) implies k == j by {
                    if q == caller {
                        let k0 = if k < i {
                            k
                        } else {
                            k + 1
                        };
                        let j0 = if j < i {
                            j
                        } else {
                            j + 1
                        };
                        assert(entry_at(t, q, k0) && entry_at(t, q, j0));
                        assert(sender_at(b, q, k) == sender_at(t, q, k0));
                        assert(sender_at(b, q, j) == sender_at(t, q, j0));
                    } else {
                        assert(entry_at(t, q, k) && entry_at(t, q, j));
                    }
                }
                assert forall|q: Endpoint| #[trigger] present(b, q) implies pending_present(
                    b,
                    q,
                ) by {
                    assert(present(t, q));
                    assert(pending_present(t, q));
                    assert forall|k: int|
                        0 <= k < proc(b, q).async_pending.len() implies present(
                        b,
                        #[trigger] proc(b, q).async_pending[k],
                    ) by {
                        assert(present(t, proc(t, q).async_pending[k]));
                    }
                }
            }
        },
    }
}

/// A receive by a process that is not blocked waiting for both a receiver
/// and its answer keeps the invariant.
pub proof fn lemma_receive_keeps_inv(t: TableView, caller: Endpoint, src: Endpoint)
    requires
        ipc_inv(t),
        present(t, caller),
        !(proc(t, caller).state is SendReceiving),
    ensures
        ipc_inv(receive_spec(t, caller, src).0),
{
    let c = proc(t, caller);
    match c.state {
        ProcessState::Sending(dst) => {
            lemma_put_quiet_same(t, caller, c.with_state(ProcessState::SendReceiving(dst)));
            lemma_quiet_keeps_inv(t, receive_spec(t, caller, src).0);
        },
        _ => {
            let pending = first_accepted(c.notify_pending, src);
            if !c.reply_pending && pending is Some {
                let i = pending->0;
                let changed = c.wrote(
                    c.regs.rbx,
                    super::notify_message(c.notify_pending[i]).words(),
                ).with_notify_pending(c.notify_pending.remove(i));
                lemma_put_quiet_same(t, caller, changed);
                lemma_quiet_keeps_inv(t, put(t, caller, changed));
            } else {
                let waiting = put(t, caller, c.with_state(ProcessState::Receiving(src)));
                lemma_put_quiet_same(t, caller, c.with_state(ProcessState::Receiving(src)));
                lemma_try_async_from_quiet(waiting, caller, proc(waiting, caller).async_pending, 0);
                let (scanned, outcome) = try_async_spec(waiting, caller);
                assert(kept(waiting, scanned, caller));
                lemma_put_quiet_same(scanned, caller, proc(scanned, caller).with_state(c.state));
                let restored = put(scanned, caller, proc(scanned, caller).with_state(c.state));
                lemma_quiet_trans(t, waiting, scanned);
                lemma_quiet_trans(t, scanned, restored);
                lemma_quiet_keeps_inv(t, restored);
                lemma_receive_from_queue_keeps_inv(restored, caller, src);
            }
        },
    }
}

/// Setting or clearing the mark of a pending answer keeps the invariant.
pub proof fn lemma_mark_keeps_inv(t: TableView, e: Endpoint, mark: bool)
    requires
        ipc_inv(t),
        present(t, e),
    ensures
        ipc_inv(put(t, e, proc(t, e).with_reply_pending(mark))),
{
    let b = put(t, e, proc(t, e).with_reply_pending(mark));
    assert forall|q: Endpoint, i: int| #[trigger] entry_at(b, q, i) implies entry_blocked(
        b,
        q,
        i,
    ) by {
        assert(entry_at(t, q, i));
        assert(entry_blocked(t, q, i));
    }
    assert forall|p: Endpoint| #[trigger] present(b, p) implies blocked_queued(b, p) by {
        assert(present(t, p));
        assert(blocked_queued(t, p));
        if target(proc(b, p)) is Some {
            let q = target(proc(t, p))->0;
            let i = choose|i: int| #[trigger] entry_at(t, q, i) && sender_at(t, q, i) == p;
            assert(entry_at(b, q, i) && sender_at(b, q, i) == p);
        }
    }
    assert forall|q: Endpoint, i: int, j: int|
        #![trigger entry_at(b, q, i), entry_at(b, q, j)]
        entry_at(b, q, i) && entry_at(b, q, j) && sender_at(b, q, i) == sender_at(
            b,
            q,
            j,
        ) implies i == j by {
        assert(entry_at(t, q, i) && entry_at(t, q, j));
    }
    assert forall|q: Endpoint| #[trigger] present(b, q) implies pending_present(b, q) by {
        assert(present(t, q));
        assert(pending_present(t, q));
        assert forall|k: int| 0 <= k < proc(b, q).async_pending.len() implies present(
            b,
            #[trigger] proc(b, q).async_pending[k],
        ) by {
            assert(present(t, proc(t, q).async_pending[k]));
        }
    }
}

/// A synchronous call by a running process keeps the invariant.
pub proof fn lemma_sync_ipc_keeps_inv(
    t: TableView,
    caller: Endpoint,
    call_nr: u64,
    dest_src: Endpoint,
)
    requires
        ipc_inv(t),
        present(t, caller),
        proc(t, caller).state is Running,
    ensures
        ipc_inv(sync_ipc_spec(t, caller, call_nr, dest_src).0),
{
    let c = proc(t, caller);
    if dest_src == crate::utils::endpoint::ANY && call_nr != super::ipcconst::RECEIVE {
    } else if dest_src != crate::utils::endpoint::ANY && !present(t, dest_src) {
    } else if call_nr == super::ipcconst::SEND {
        lemma_send_keeps_inv(t, caller, dest_src, false);
    } else if call_nr == super::ipcconst::RECEIVE {
        let cleared = put(t, caller, c.with_reply_pending(false));
        lemma_mark_keeps_inv(t, caller, false);
        lemma_receive_keeps_inv(cleared, caller, dest_src);
    } else if call_nr == super::ipcconst::SENDREC {
        let marked = put(t, caller, c.with_reply_pending(true));
        lemma_mark_keeps_inv(t, caller, true);
        lemma_send_keeps_inv(marked, caller, dest_src, false);
        lemma_send_caller_state(marked, caller, dest_src, false);
        let sent = send_spec(marked, caller, dest_src, false).0;
        assert(present(sent, caller));
        lemma_receive_keeps_inv(sent, caller, dest_src);
    } else if call_nr == super::ipcconst::NOTIFY {
        lemma_notify_quiet(t, caller, dest_src);
        lemma_quiet_keeps_inv(t, notify_spec(t, caller, dest_src).0);
    } else if call_nr == super::ipcconst::SENDNB {
        lemma_send_keeps_inv(t, caller, dest_src, true);
    }
}

/// The empty table meets the invariant.
pub proof fn law_empty_table_is_sound(t: TableView)
    requires
        forall|i: int| 0 <= i < t.len() ==> t[i] is None,
    ensures
        ipc_inv(t),
{
}

/// Entering a fresh process in a free slot keeps the invariant.
pub proof fn law_insert_keeps_invariant(t: TableView, endpoint: Endpoint, pid: i32, name: Seq<char>)
    requires
        ipc_inv(t),
        0 <= endpoint < t.len(),
        !present(t, endpoint),
    ensures
        ipc_inv(put(t, endpoint, MinixProcess::fresh(pid, name))),
{
    let b = put(t, endpoint, MinixProcess::fresh(pid, name));
    assert forall|q: Endpoint, i: int| #[trigger] entry_at(b, q, i) implies entry_blocked(
        b,
        q,
        i,
    ) by {
        assert(entry_at(t, q, i));
        assert(entry_blocked(t, q, i));
    }
    assert forall|p: Endpoint| #[trigger] present(b, p) implies blocked_queued(b, p) by {
        if p != endpoint {
            assert(present(t, p));
            assert(blocked_queued(t, p));
            if target(proc(b, p)) is Some {
                let q = target(proc(t, p))->0;
                let i = choose|i: int| #[trigger] entry_at(t, q, i) && sender_at(t, q, i) == p;
                assert(entry_at(b, q, i) && sender_at(b, q, i) == p);
            }
        }
    }
    assert forall|q: Endpoint, i: int, j: int|
        #![trigger entry_at(b, q, i), entry_at(b, q, j)]
        entry_at(b, q, i) && entry_at(b, q, j) && sender_at(b, q, i) == sender_at(
            b,
            q,
            j,
        ) implies i == j by {
        assert(entry_at(t, q, i) && entry_at(t, q, j));
    }
    assert forall|q: Endpoint| #[trigger] present(b, q) implies pending_present(b, q) by {
        if q != endpoint {
            assert(present(t, q));
            assert(pending_present(t, q));
            assert forall|k: int| 0 <= k < proc(b, q).async_pending.len() implies present(
                b,
                #[trigger] proc(b, q).async_pending[k],
            ) by {
                assert(present(t, proc(t, q).async_pending[k]));
            }
        }
    }
}

/// The dispatch of an IPC trap of a running process keeps the invariant:
/// what holds of the sender queues and of the pending asynchronous senders
/// before the call holds after it, whatever the call was and however it
/// ended.
pub proof fn law_ipc_keeps_invariant(t: TableView, caller: Endpoint)
    requires
        ipc_inv(t),
        present(t, caller),
        proc(t, caller).state is Running,
    ensures
        ipc_inv(ipc_spec(t, caller).0),
{
    let c = proc(t, caller);
    let regs = super::past_trap(c.regs);
    let at_entry = entered(t, caller);
    lemma_put_quiet_same(t, caller, c.set_regs(regs));
    lemma_quiet_keeps_inv(t, at_entry);
    if regs.rcx == super::ipcconst::MINIX_KERNINFO {
        lemma_put_quiet_same(at_entry, caller, kerninfo_spec(proc(at_entry, caller)));
        lemma_quiet_keeps_inv(at_entry, ipc_spec(t, caller).0);
    } else {
        let (after, outcome) = call_spec(at_entry, caller, regs);
        if super::ipcconst::SEND <= regs.rcx <= super::ipcconst::SENDNB {
            lemma_sync_ipc_keeps_inv(
                at_entry,
                caller,
                regs.rcx,
                crate::utils::wire::low_i32(regs.rax),
            );
            lemma_sync_ipc_same_slots(
                at_entry,
                caller,
                regs.rcx,
                crate::utils::wire::low_i32(regs.rax),
            );
        } else if regs.rcx == super::ipcconst::SENDA {
            lemma_senda_quiet(at_entry, caller, regs.rbx, regs.rax);
            lemma_quiet_keeps_inv(at_entry, after);
        }
        match outcome {
            Ok(result) => {
                if proc(after, caller).state is Running {
                    lemma_put_quiet_same(
                        after,
                        caller,
                        super::with_return_value(proc(after, caller), result).resumed(None),
                    );
                    lemma_quiet_keeps_inv(after, completed(after, caller, result));
                }
            },
            Err(_) => {},
        }
    }
}

/// A synchronous call leaves every process in its slot.
pub proof fn lemma_sync_ipc_same_slots(
    t: TableView,
    caller: Endpoint,
    call_nr: u64,
    dest_src: Endpoint,
)
    requires
        present(t, caller),
    ensures
        same_slots(t, sync_ipc_spec(t, caller, call_nr, dest_src).0),
{
    let c = proc(t, caller);
    if dest_src == crate::utils::endpoint::ANY && call_nr != super::ipcconst::RECEIVE {
    } else if dest_src != crate::utils::endpoint::ANY && !present(t, dest_src) {
    } else if call_nr == super::ipcconst::SEND {
        lemma_send_same_slots(t, caller, dest_src, false);
    } else if call_nr == super::ipcconst::RECEIVE {
        let cleared = put(t, caller, c.with_reply_pending(false));
        lemma_receive_same_slots(cleared, caller, dest_src);
        super::lemma_same_slots_trans(t, cleared, receive_spec(cleared, caller, dest_src).0);
    } else if call_nr == super::ipcconst::SENDREC {
        let marked = put(t, caller, c.with_reply_pending(true));
        lemma_send_same_slots(marked, caller, dest_src, false);
        let sent = send_spec(marked, caller, dest_src, false).0;
        assert(present(sent, caller));
        lemma_receive_same_slots(sent, caller, dest_src);
        super::lemma_same_slots_trans(marked, sent, receive_spec(sent, caller, dest_src).0);
        super::lemma_same_slots_trans(t, marked, sendrec_spec(t, caller, dest_src).0);
    } else if call_nr == super::ipcconst::NOTIFY {
        lemma_notify_quiet(t, caller, dest_src);
    } else if call_nr == super::ipcconst::SENDNB {
        lemma_send_same_slots(t, caller, dest_src, true);
    }
}

/// A send leaves every process in its slot.
pub proof fn lemma_send_same_slots(
    t: TableView,
    caller: Endpoint,
    dst: Endpoint,
    non_blocking: bool,
)
    requires
        present(t, caller),
        present(t, dst),
    ensures
        same_slots(t, send_spec(t, caller, dst, non_blocking).0),
{
    let c = proc(t, caller);
    match c.message_at(c.regs.rbx) {
        Err(_) => {},
        Ok(message) => {
            lemma_delivered_quiet(t, dst, message.with_source(caller));
        },
    }
}

/// A receive leaves every process in its slot.
pub proof fn lemma_receive_same_slots(t: TableView, caller: Endpoint, src: Endpoint)
    requires
        present(t, caller),
    ensures
        same_slots(t, receive_spec(t, caller, src).0),
{
    let c = proc(t, caller);
    match c.state {
        ProcessState::Sending(dst) => {},
        _ => {
            let pending = first_accepted(c.notify_pending, src);
            if !c.reply_pending && pending is Some {
            } else {
                let waiting = put(t, caller, c.with_state(ProcessState::Receiving(src)));
                lemma_try_async_from_quiet(waiting, caller, proc(waiting, caller).async_pending, 0);
                let (scanned, outcome) = try_async_spec(waiting, caller);
                let restored = put(scanned, caller, proc(scanned, caller).with_state(c.state));
                super::lemma_same_slots_trans(t, waiting, scanned);
                super::lemma_same_slots_trans(t, scanned, restored);
                let last = receive_from_queue(restored, caller, src).0;
                assert(same_slots(restored, last));
                super::lemma_same_slots_trans(t, restored, last);
            }
        },
    }
}

/// Every process has in `b` the mark of a pending answer that it has in `a`.
pub open spec fn marks_kept(a: TableView, b: TableView) -> bool {
    &&& same_slots(a, b)
    &&& forall|e: Endpoint| #[trigger]
        present(a, e) ==> proc(b, e).reply_pending == proc(a, e).reply_pending
}

proof fn lemma_marks_kept_trans(a: TableView, b: TableView, c: TableView)
    requires
        marks_kept(a, b),
        marks_kept(b, c),
    ensures
        marks_kept(a, c),
{
    super::lemma_same_slots_trans(a, b, c);
    assert forall|e: Endpoint| #[trigger] present(a, e) implies proc(c, e).reply_pending == proc(
        a,
        e,
    ).reply_pending by {
        assert(present(b, e));
    }
}

proof fn lemma_quiet_marks_kept(a: TableView, b: TableView)
    requires
        quiet(a, b),
    ensures
        marks_kept(a, b),
{
    assert forall|e: Endpoint| #[trigger] present(a, e) implies proc(b, e).reply_pending == proc(
        a,
        e,
    ).reply_pending by {
        assert(kept(a, b, e));
    }
}

/// A send changes no mark of a pending answer.
proof fn lemma_send_marks_kept(t: TableView, caller: Endpoint, dst: Endpoint, non_blocking: bool)
    requires
        present(t, caller),
        present(t, dst),
    ensures
        marks_kept(t, send_spec(t, caller, dst, non_blocking).0),
{
    let c = proc(t, caller);
    match c.message_at(c.regs.rbx) {
        Err(_) => {},
        Ok(message) => {
            lemma_delivered_quiet(t, dst, message.with_source(caller));
            lemma_quiet_marks_kept(t, delivered(t, dst, message.with_source(caller)).0);
        },
    }
}

/// A receive changes no mark of a pending answer.
proof fn lemma_receive_marks_kept(t: TableView, caller: Endpoint, src: Endpoint)
    requires
        present(t, caller),
    ensures
        marks_kept(t, receive_spec(t, caller, src).0),
{
    let c = proc(t, caller);
    match c.state {
        ProcessState::Sending(dst) => {},
        _ => {
            let pending = first_accepted(c.notify_pending, src);
            if !c.reply_pending && pending is Some {
            } else {
                let waiting = put(t, caller, c.with_state(ProcessState::Receiving(src)));
                lemma_try_async_from_quiet(waiting, caller, proc(waiting, caller).async_pending, 0);
                let (scanned, outcome) = try_async_spec(waiting, caller);
                lemma_quiet_marks_kept(waiting, scanned);
                let restored = put(scanned, caller, proc(scanned, caller).with_state(c.state));
                assert(marks_kept(t, waiting));
                lemma_marks_kept_trans(t, waiting, scanned);
                assert(marks_kept(scanned, restored));
                lemma_marks_kept_trans(t, scanned, restored);
                let last = receive_from_queue(restored, caller, src).0;
                assert(marks_kept(restored, last));
                lemma_marks_kept_trans(t, restored, last);
            }
        },
    }
}

/// The call `call_nr` with the peer `dest_src` is let through to the engine:
/// the peer is `ANY` for RECEIVE alone, and any other peer has a slot.
pub open spec fn admitted(t: TableView, call_nr: u64, dest_src: Endpoint) -> bool {
    if dest_src == crate::utils::endpoint::ANY {
        call_nr == super::ipcconst::RECEIVE
    } else {
        present(t, dest_src)
    }
}

/// The mark of a pending answer is set by the SENDREC of its process and
/// cleared by its RECEIVE, and by nothing else: a synchronous call changes
/// the mark of no process but the caller, the caller's mark is set after a
/// SENDREC and clear after a RECEIVE, and after any other call it is what it
/// was.
pub proof fn law_reply_pending_is_the_callers(
    t: TableView,
    caller: Endpoint,
    call_nr: u64,
    dest_src: Endpoint,
    e: Endpoint,
)
    requires
        present(t, caller),
        present(t, e),
    ensures
        e != caller ==> proc(sync_ipc_spec(t, caller, call_nr, dest_src).0, e).reply_pending
            == proc(t, e).reply_pending,
        proc(sync_ipc_spec(t, caller, call_nr, dest_src).0, caller).reply_pending == (if admitted(
            t,
            call_nr,
            dest_src,
        ) && call_nr == super::ipcconst::SENDREC {
            true
        } else if admitted(t, call_nr, dest_src) && call_nr == super::ipcconst::RECEIVE {
            false
        } else {
            proc(t, caller).reply_pending
        }),
{
    let c = proc(t, caller);
    if !admitted(t, call_nr, dest_src) {
    } else if call_nr == super::ipcconst::SEND {
        lemma_send_marks_kept(t, caller, dest_src, false);
    } else if call_nr == super::ipcconst::RECEIVE {
        let cleared = put(t, caller, c.with_reply_pending(false));
        lemma_receive_marks_kept(cleared, caller, dest_src);
        assert(present(cleared, e));
        assert(present(cleared, caller));
    } else if call_nr == super::ipcconst::SENDREC {
        let marked = put(t, caller, c.with_reply_pending(true));
        lemma_send_marks_kept(marked, caller, dest_src, false);
        let sent = send_spec(marked, caller, dest_src, false).0;
        assert(present(sent, caller));
        lemma_receive_marks_kept(sent, caller, dest_src);
        lemma_marks_kept_trans(marked, sent, receive_spec(sent, caller, dest_src).0);
        assert(present(marked, e));
        assert(present(marked, caller));
    } else if call_nr == super::ipcconst::NOTIFY {
        lemma_notify_quiet(t, caller, dest_src);
        lemma_quiet_marks_kept(t, notify_spec(t, caller, dest_src).0);
    } else if call_nr == super::ipcconst::SENDNB {
        lemma_send_marks_kept(t, caller, dest_src, true);
    }
}

/// Where a SENDREC leaves a running caller, if no access to guest memory
/// failed: marked as waiting for an answer, and either still blocked in
/// the send and bound to receive after it, or blocked waiting for the
/// answer, or running, with a message received at once.
pub proof fn law_sendrec_outcome(t: TableView, caller: Endpoint, dst: Endpoint)
    requires
        present(t, caller),
        present(t, dst),
        proc(t, caller).state is Running,
        sendrec_spec(t, caller, dst).1 is Ok,
    ensures
        proc(sendrec_spec(t, caller, dst).0, caller).reply_pending,
        ({
            let state = proc(sendrec_spec(t, caller, dst).0, caller).state;
            ||| state == ProcessState::SendReceiving(dst)
            ||| state == ProcessState::Receiving(dst)
            ||| state == ProcessState::Running
        }),
{
    let c = proc(t, caller);
    let marked = put(t, caller, c.with_reply_pending(true));
    lemma_send_marks_kept(marked, caller, dst, false);
    let sent = send_spec(marked, caller, dst, false).0;
    assert(present(marked, caller));
    assert(present(sent, caller));
    lemma_receive_marks_kept(sent, caller, dst);
    lemma_marks_kept_trans(marked, sent, receive_spec(sent, caller, dst).0);
    let s = proc(sent, caller);
    match s.state {
        ProcessState::Sending(_) => {},
        _ => {
            assert(s.state is Running);
            let waiting = put(sent, caller, s.with_state(ProcessState::Receiving(dst)));
            let (scanned, outcome) = try_async_spec(waiting, caller);
            lemma_try_async_from_quiet(waiting, caller, proc(waiting, caller).async_pending, 0);
            let restored = put(scanned, caller, proc(scanned, caller).with_state(s.state));
            assert(proc(restored, caller).state is Running);
        },
    }
}

/// A kernel call is a quiet step: it touches the memory, the registers and
/// the effects of the caller, and nothing else.
pub proof fn lemma_kernel_call_quiet(t: TableView, caller: Endpoint)
    requires
        present(t, caller),
    ensures
        quiet(t, crate::sys::kernel_call_spec(t, caller).0),
{
    let c = proc(t, caller);
    let at_entry = entered(t, caller);
    lemma_put_quiet_same(t, caller, c.set_regs(super::past_trap(c.regs)));
    let addr = super::past_trap(c.regs).rax;
    match proc(at_entry, caller).message_at(addr) {
        Err(_) => {},
        Ok(request) => {
            let message = request.with_source(caller);
            let (after, outcome) = crate::sys::invoke_spec(at_entry, caller, message);
            let p = proc(at_entry, caller);
            let changed = proc(after, caller);
            assert(changed.queue == p.queue && target(changed) == target(p)
                && changed.reply_pending == p.reply_pending && changed.async_pending
                == p.async_pending);
            assert(after == at_entry || after == put(at_entry, caller, changed));
            lemma_put_quiet_same(at_entry, caller, changed);
            lemma_quiet_refl(at_entry);
            lemma_quiet_trans(t, at_entry, after);
            match outcome {
                Ok(result) => {
                    match proc(after, caller).message_at(addr) {
                        Ok(answer) => {
                            let last = crate::sys::kernel_call_spec(t, caller).0;
                            lemma_put_quiet_same(after, caller, proc(last, caller));
                            lemma_quiet_trans(t, after, last);
                        },
                        Err(_) => {},
                    }
                },
                Err(_) => {},
            }
        },
    }
}

/// Whatever a guest stops with, handling the stop keeps the invariant, as
/// long as the guest that stopped was running.
pub proof fn law_stop_keeps_invariant(
    t: TableView,
    pids: Map<i32, Endpoint>,
    pid: i32,
    signal: i32,
)
    requires
        ipc_inv(t),
        pids.dom().contains(pid) && present(t, pids[pid]) ==> proc(t, pids[pid]).state is Running,
    ensures
        ipc_inv(crate::trap::stop_spec(t, pids, pid, signal).0),
{
    if pids.dom().contains(pid) && present(t, pids[pid]) {
        let caller = pids[pid];
        let p = proc(t, caller);
        lemma_put_quiet_same(t, caller, p.resumed(Some(signal)));
        lemma_put_quiet_same(t, caller, p.resumed(Some(crate::trap::SIGSEGV)));
        lemma_quiet_keeps_inv(t, crate::trap::handed_on(t, caller, signal));
        lemma_quiet_keeps_inv(t, crate::trap::handed_on(t, caller, crate::trap::SIGSEGV));
        lemma_kernel_call_quiet(t, caller);
        lemma_quiet_keeps_inv(t, crate::sys::kernel_call_spec(t, caller).0);
        law_ipc_keeps_invariant(t, caller);
    }
}

} // verus!
