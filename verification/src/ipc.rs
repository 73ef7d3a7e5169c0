//! The synchronous IPC calls and the dispatch of an IPC trap.

pub mod asyn;
pub mod asyn_flags;
pub mod invariants;
pub mod ipcconst;
pub mod laws;

use asyn::{do_senda, senda_spec, try_async, try_async_spec};
use crate::utils::endpoint::{Endpoint, ANY};
use crate::utils::guest_memory::{mapped, Error};
use crate::utils::message::{Message, MESSAGE_SIZE, NOTIFY_MESSAGE};
use crate::utils::message_queue::is_first_match;
use crate::utils::minix_errno::{EBADCALL, EDEADSRCDST, EINVAL, ENOTREADY, OK};
use crate::utils::minix_process::{MinixProcess, ProcessState, ProcessView, Registers};
use crate::utils::minix_process_table::{present, proc, put, MinixProcessTable, TableView};
use crate::utils::minix_shared::SHARED_BASE_ADDR;
use crate::utils::wire::{low_bits, low_i32, sign_extend, widen};
use ipcconst::{MINIX_KERNINFO, NOTIFY, RECEIVE, SEND, SENDA, SENDNB, SENDREC};
use vstd::prelude::*;

verus! {

/// The two tables have a process in the same slots.
pub open spec fn same_slots(a: TableView, b: TableView) -> bool {
    &&& a.len() == b.len()
    &&& forall|e: Endpoint| present(a, e) == present(b, e)
}

/// Having a process in the same slots carries over from step to step.
pub proof fn lemma_same_slots_trans(a: TableView, b: TableView, c: TableView)
    requires
        same_slots(a, b),
        same_slots(b, c),
    ensures
        same_slots(a, c),
{
    assert forall|e: Endpoint| present(a, e) == present(c, e) by {
        assert(present(a, e) == present(b, e));
    }
}

/// A change to a process that has a slot changes no slot's having one.
pub proof fn lemma_put_same_slots(t: TableView, e: Endpoint, p: ProcessView)
    requires
        present(t, e),
    ensures
        same_slots(t, put(t, e, p)),
{
}

/// A receiver that waits for `receive_e` takes a message from `sender`.
pub open spec fn can_receive_spec(receive_e: Endpoint, sender: Endpoint) -> bool {
    sender != ANY && (receive_e == ANY || receive_e == sender)
}

/// Whether a receiver that waits for `receive_e` takes a message from
/// `sender`.
#[verifier::when_used_as_spec(can_receive_spec)]
pub fn can_receive(receive_e: Endpoint, sender: Endpoint) -> (r: bool)
    ensures
        r == can_receive_spec(receive_e, sender),
{
    sender != ANY && (receive_e == ANY || receive_e == sender)
}

/// `dst` is blocked in a receive that takes a message from `src`.
pub open spec fn will_receive_spec(t: TableView, src: Endpoint, dst: Endpoint) -> bool {
    present(t, dst) && match proc(t, dst).state {
        ProcessState::Receiving(receive_e) => can_receive_spec(receive_e, src),
        _ => false,
    }
}

/// Whether `dst` is blocked in a receive that takes a message from `src`.
pub fn will_receive(src: Endpoint, dst: Endpoint, process_table: &MinixProcessTable) -> (r: bool)
    ensures
        r == will_receive_spec(process_table@, src, dst),
{
    match process_table.get(dst) {
        Some(process) => match process.state {
            ProcessState::Receiving(receive_e) => can_receive(receive_e, src),
            _ => false,
        },
        None => false,
    }
}

/// The message that stands for a notification from `src`.
pub open spec fn notify_message(src: Endpoint) -> Message {
    Message {
        source: src,
        m_type: NOTIFY_MESSAGE,
        payload: [0u32, 0, 0, 0, 0, 0, 0, 0, 0, 0, 0, 0, 0, 0],
    }
}

/// The message that stands for a notification from `src`.
pub fn build_notify_message(src: Endpoint) -> (message: Message)
    ensures
        message == notify_message(src),
{
    let message = Message { m_type: NOTIFY_MESSAGE, source: src, payload: [0u32;14] };
    proof {
        assert(message.payload =~= notify_message(src).payload);
    }
    message
}

/// A receiver after a message was put in its buffer: one that only received
/// runs again, one that also has a message to send goes on to send it.
pub open spec fn after_delivery(p: ProcessView) -> ProcessView {
    match p.state {
        ProcessState::Receiving(_) => p.resumed(None).with_state(ProcessState::Running),
        ProcessState::SendReceiving(peer) => p.with_state(ProcessState::Sending(peer)),
        _ => p,
    }
}

/// The table after `message` was handed to the blocked receiver `dst`: the
/// message is in its buffer, at `rbx`, and then its state moves on. Where the
/// buffer is not in the window nothing changes.
pub open spec fn delivered(t: TableView, dst: Endpoint, message: Message) -> (
    TableView,
    Result<(), Error>,
) {
    let d = proc(t, dst);
    if mapped(d.memory, d.regs.rbx, MESSAGE_SIZE as nat) {
        (put(t, dst, after_delivery(d.wrote(d.regs.rbx, message.words()))), Ok(()))
    } else {
        (t, Err(Error::Fault(d.regs.rbx)))
    }
}

/// Hands `message` to the blocked receiver `dst`.
pub fn deliver(dst: Endpoint, message: Message, process_table: &mut MinixProcessTable) -> (r:
    Result<(), Error>)
    requires
        present(old(process_table)@, dst),
    ensures
        (final(process_table)@, r) == delivered(old(process_table)@, dst, message),
        same_slots(old(process_table)@, final(process_table)@),
        final(process_table).pids() == old(process_table).pids(),
        final(process_table).shared() == old(process_table).shared(),
{
    let receiver = process_table.get_mut(dst).unwrap();
    let addr: u64 = receiver.get_regs().rbx;
    match receiver.write_message(addr, message) {
        Ok(()) => {},
        Err(e) => {
            return Err(e);
        },
    }
    match receiver.state {
        ProcessState::SendReceiving(peer) => {
            receiver.state = ProcessState::Sending(peer);
        },
        ProcessState::Receiving(_) => {
            receiver.cont();
            receiver.state = ProcessState::Running;
        },
        _ => {},
    }
    Ok(())
}

/// What a send of `caller` to `dst` does. The message is read from the
/// caller's buffer, at `rbx`. A receiver that waits for it gets it, with the
/// caller as its source. Otherwise a send that may not block fails with
/// `ENOTREADY`, and one that may leaves the caller blocked, with its message
/// in the queue of `dst`.
pub open spec fn send_spec(t: TableView, caller: Endpoint, dst: Endpoint, non_blocking: bool) -> (
    TableView,
    Result<i32, Error>,
) {
    let c = proc(t, caller);
    match c.message_at(c.regs.rbx) {
        Err(e) => (t, Err(e)),
        Ok(message) => if will_receive_spec(t, caller, dst) {
            match delivered(t, dst, message.with_source(caller)) {
                (after, Ok(_)) => (after, Ok(OK)),
                (after, Err(e)) => (after, Err(e)),
            }
        } else if non_blocking {
            (t, Ok(ENOTREADY))
        } else {
            let blocked = put(t, caller, c.with_state(ProcessState::Sending(dst)));
            let d = proc(blocked, dst);
            (put(blocked, dst, d.with_queue(d.queue.push((caller, message)))), Ok(OK))
        },
    }
}

/// SEND and SENDNB: sends the message in the caller's buffer to `dst`.
pub fn do_send(
    caller: Endpoint,
    dst: Endpoint,
    process_table: &mut MinixProcessTable,
    non_blocking: bool,
) -> (r: Result<i32, Error>)
    requires
        present(old(process_table)@, caller),
        present(old(process_table)@, dst),
    ensures
        (final(process_table)@, r) == send_spec(old(process_table)@, caller, dst, non_blocking),
        same_slots(old(process_table)@, final(process_table)@),
        final(process_table).pids() == old(process_table).pids(),
        final(process_table).shared() == old(process_table).shared(),
{
    let sender = process_table.get(caller).unwrap();
    let addr: u64 = sender.get_regs().rbx;
    let mut message = match sender.read_message(addr) {
        Ok(m) => m,
        Err(e) => {
            return Err(e);
        },
    };
    if will_receive(caller, dst, process_table) {
        message.source = caller;
        match deliver(dst, message, process_table) {
            Ok(()) => Ok(OK),
            Err(e) => Err(e),
        }
    } else {
        if non_blocking {
            return Ok(ENOTREADY);
        }
        let sender = process_table.get_mut(caller).unwrap();
        sender.state = ProcessState::Sending(dst);
        process_table.get_mut(dst).unwrap().queue.insert(caller, message);
        Ok(OK)
    }
}

/// What a notification of `dst` in the name of `caller` does. A receiver
/// that waits for it gets the notify message at once; otherwise `caller` is
/// put down in the list of pending notifications of `dst`.
pub open spec fn notify_spec(t: TableView, caller: Endpoint, dst: Endpoint) -> (
    TableView,
    Result<i32, Error>,
) {
    if !present(t, dst) {
        (t, Ok(EDEADSRCDST))
    } else if !will_receive_spec(t, caller, dst) {
        let d = proc(t, dst);
        (put(t, dst, d.with_notify_pending(d.notify_pending.push(caller))), Ok(OK))
    } else {
        match delivered(t, dst, notify_message(caller)) {
            (after, Ok(_)) => (after, Ok(OK)),
            (after, Err(e)) => (after, Err(e)),
        }
    }
}

/// NOTIFY: notifies `dst` in the name of `caller`.
pub fn do_notify(caller: Endpoint, dst: Endpoint, process_table: &mut MinixProcessTable) -> (r:
    Result<i32, Error>)
    ensures
        (final(process_table)@, r) == notify_spec(old(process_table)@, caller, dst),
        same_slots(old(process_table)@, final(process_table)@),
        final(process_table).pids() == old(process_table).pids(),
        final(process_table).shared() == old(process_table).shared(),
{
    if process_table.get(dst).is_none() {
        return Ok(EDEADSRCDST);
    }
    if !will_receive(caller, dst, process_table) {
        process_table.get_mut(dst).unwrap().notify_pending.push(caller);
        return Ok(OK);
    }
    let message = build_notify_message(caller);
    match deliver(dst, message, process_table) {
        Ok(()) => Ok(OK),
        Err(e) => Err(e),
    }
}

/// `i` is the place of the first of `senders` that a receiver waiting for
/// `receive_e` takes a message from.
pub open spec fn is_first_accepted(senders: Seq<Endpoint>, receive_e: Endpoint, i: int) -> bool {
    &&& 0 <= i < senders.len()
    &&& can_receive_spec(receive_e, senders[i])
    &&& forall|j: int| 0 <= j < i ==> !can_receive_spec(receive_e, #[trigger] senders[j])
}

/// The place of the first of `senders` that a receiver waiting for
/// `receive_e` takes a message from.
pub open spec fn first_accepted(senders: Seq<Endpoint>, receive_e: Endpoint) -> Option<int> {
    if exists|i: int| is_first_accepted(senders, receive_e, i) {
        Some(choose|i: int| is_first_accepted(senders, receive_e, i))
    } else {
        None
    }
}

/// The senders of the entries of a queue, in the order of the queue.
pub open spec fn queue_senders(queue: Seq<(Endpoint, Message)>) -> Seq<Endpoint> {
    Seq::new(queue.len(), |i: int| queue[i].0)
}

/// A blocked sender after its message was received: one that only sent runs
/// again, one that also waits for the answer goes on to wait for it.
pub open spec fn after_receipt(p: ProcessView) -> ProcessView {
    match p.state {
        ProcessState::SendReceiving(peer) => p.with_state(ProcessState::Receiving(peer)),
        ProcessState::Sending(_) => p.resumed(None).with_state(ProcessState::Running),
        _ => p,
    }
}

/// The last step of a receive: the first blocked sender that `src` admits
/// leaves the queue and its message goes to the caller's buffer, with the
/// caller as its source. Without such a sender the caller blocks.
pub open spec fn receive_from_queue(t: TableView, caller: Endpoint, src: Endpoint) -> (
    TableView,
    Result<i32, Error>,
) {
    let c = proc(t, caller);
    match first_accepted(queue_senders(c.queue), src) {
        None => (put(t, caller, c.with_state(ProcessState::Receiving(src))), Ok(OK)),
        Some(i) => {
            let (sender, message) = c.queue[i];
            if mapped(c.memory, c.regs.rbx, MESSAGE_SIZE as nat) {
                let received = put(
                    t,
                    caller,
                    c.wrote(c.regs.rbx, message.with_source(caller).words()).with_queue(
                        c.queue.remove(i),
                    ),
                );
                if present(received, sender) {
                    (put(received, sender, after_receipt(proc(received, sender))), Ok(OK))
                } else {
                    (received, Ok(OK))
                }
            } else {
                (t, Err(Error::Fault(c.regs.rbx)))
            }
        },
    }
}

/// What a receive of `caller` from `src` does.
///
/// A caller that is still blocked in the send of a SENDREC only goes on to
/// wait for the answer as well. Otherwise what is there for the caller is
/// looked for in this order: a pending notification, unless the caller waits
/// for the answer to a SENDREC; a pending asynchronous message, for which
/// the caller counts as receiving from `src` while the tables are scanned;
/// the message of a blocked sender. Without any of these the caller blocks.
pub open spec fn receive_spec(t: TableView, caller: Endpoint, src: Endpoint) -> (
    TableView,
    Result<i32, Error>,
) {
    let c = proc(t, caller);
    match c.state {
        ProcessState::Sending(dst) => (
            put(t, caller, c.with_state(ProcessState::SendReceiving(dst))),
            Ok(OK),
        ),
        _ => {
            let pending = first_accepted(c.notify_pending, src);
            if !c.reply_pending && pending is Some {
                let i = pending->0;
                if mapped(c.memory, c.regs.rbx, MESSAGE_SIZE as nat) {
                    (
                        put(
                            t,
                            caller,
                            c.wrote(
                                c.regs.rbx,
                                notify_message(c.notify_pending[i]).words(),
                            ).with_notify_pending(c.notify_pending.remove(i)),
                        ),
                        Ok(OK),
                    )
                } else {
                    (t, Err(Error::Fault(c.regs.rbx)))
                }
            } else {
                let waiting = put(t, caller, c.with_state(ProcessState::Receiving(src)));
                let (scanned, outcome) = try_async_spec(waiting, caller);
                let restored = put(scanned, caller, proc(scanned, caller).with_state(c.state));
                match outcome {
                    Err(e) => (restored, Err(e)),
                    Ok(code) => if code == OK {
                        (restored, Ok(OK))
                    } else {
                        receive_from_queue(restored, caller, src)
                    },
                }
            }
        },
    }
}

/// The place of the first of `pending` that a receiver waiting for `src`
/// takes a notification from.
fn find_accepted(pending: &Vec<Endpoint>, src: Endpoint) -> (r: Option<usize>)
    ensures
        match r {
            Some(i) => first_accepted(pending@, src) == Some(i as int) && i < pending@.len(),
            None => first_accepted(pending@, src) is None,
        },
{
    let mut i: usize = 0;
    while i < pending.len()
        invariant
            i <= pending@.len(),
            forall|j: int| 0 <= j < i ==> !can_receive_spec(src, #[trigger] pending@[j]),
        decreases pending@.len() - i,
    {
        if can_receive(src, pending[i]) {
            proof {
                assert(is_first_accepted(pending@, src, i as int));
            }
            return Some(i);
        }
        i = i + 1;
    }
    None
}

/// RECEIVE: receives a message from `src` in the caller's buffer.
pub fn do_receive(caller: Endpoint, src: Endpoint, process_table: &mut MinixProcessTable) -> (r:
    Result<i32, Error>)
    requires
        present(old(process_table)@, caller),
    ensures
        (final(process_table)@, r) == receive_spec(old(process_table)@, caller, src),
        same_slots(old(process_table)@, final(process_table)@),
        final(process_table).pids() == old(process_table).pids(),
        final(process_table).shared() == old(process_table).shared(),
{
    let receiver = process_table.get(caller).unwrap();
    let prior = receiver.state;
    if let ProcessState::Sending(dst) = prior {
        process_table.get_mut(caller).unwrap().state = ProcessState::SendReceiving(dst);
        return Ok(OK);
    }
    if !receiver.reply_pending {
        match find_accepted(&receiver.notify_pending, src) {
            Some(index) => {
                let message = build_notify_message(receiver.notify_pending[index]);
                let receiver = process_table.get_mut(caller).unwrap();
                let addr: u64 = receiver.get_regs().rbx;
                match receiver.write_message(addr, message) {
                    Ok(()) => {},
                    Err(e) => {
                        return Err(e);
                    },
                }
                receiver.notify_pending.remove(index);
                return Ok(OK);
            },
            None => {},
        }
    }
    process_table.get_mut(caller).unwrap().state = ProcessState::Receiving(src);
    let ghost waiting = process_table@;
    let outcome = try_async(caller, process_table);
    let ghost scanned = process_table@;
    process_table.get_mut(caller).unwrap().state = prior;
    proof {
        lemma_put_same_slots(
            old(process_table)@,
            caller,
            proc(old(process_table)@, caller).with_state(ProcessState::Receiving(src)),
        );
        lemma_same_slots_trans(old(process_table)@, waiting, scanned);
        lemma_put_same_slots(scanned, caller, proc(scanned, caller).with_state(prior));
        lemma_same_slots_trans(old(process_table)@, scanned, process_table@);
    }
    match outcome {
        Err(e) => {
            return Err(e);
        },
        Ok(code) => {
            if code == OK {
                return Ok(OK);
            }
        },
    }
    let ghost restored = process_table@;
    let r = take_queued(caller, src, process_table);
    proof {
        lemma_same_slots_trans(old(process_table)@, restored, process_table@);
    }
    r
}

/// The first of `queue` that a receiver waiting for `src` takes a message
/// from is the first that the test `admits` accepts.
proof fn lemma_first_match_accepted<F: Fn(Endpoint) -> bool>(
    queue: Seq<(Endpoint, Message)>,
    admits: F,
    src: Endpoint,
    i: int,
)
    requires
        forall|e: Endpoint, b: bool| call_ensures(admits, (e,), b) ==> b == can_receive_spec(
            src,
            e,
        ),
        is_first_match(queue, admits, i),
    ensures
        first_accepted(queue_senders(queue), src) == Some(i),
{
    let senders = queue_senders(queue);
    assert forall|j: int| 0 <= j < i implies !can_receive_spec(src, #[trigger] senders[j]) by {
        assert(call_ensures(admits, (queue[j].0,), false));
    }
    assert(is_first_accepted(senders, src, i));
    let k = choose|k: int| is_first_accepted(senders, src, k);
    if k < i {
        assert(!can_receive_spec(src, senders[k]));
    }
    if i < k {
        assert(!can_receive_spec(src, senders[i]));
    }
}

/// The test `admits` accepts none of `queue`, so a receiver waiting for
/// `src` takes a message from none of it.
proof fn lemma_no_match_accepted<F: Fn(Endpoint) -> bool>(
    queue: Seq<(Endpoint, Message)>,
    admits: F,
    src: Endpoint,
)
    requires
        forall|e: Endpoint, b: bool| call_ensures(admits, (e,), b) ==> b == can_receive_spec(
            src,
            e,
        ),
        crate::utils::message_queue::no_match(queue, admits),
    ensures
        first_accepted(queue_senders(queue), src) is None,
{
    let senders = queue_senders(queue);
    assert forall|k: int| !is_first_accepted(senders, src, k) by {
        if 0 <= k < senders.len() {
            assert(call_ensures(admits, (queue[k].0,), false));
        }
    }
}

/// Hands the caller the message of the first blocked sender that `src`
/// admits, or blocks the caller.
fn take_queued(caller: Endpoint, src: Endpoint, process_table: &mut MinixProcessTable) -> (r:
    Result<i32, Error>)
    requires
        present(old(process_table)@, caller),
    ensures
        (final(process_table)@, r) == receive_from_queue(old(process_table)@, caller, src),
        same_slots(old(process_table)@, final(process_table)@),
        final(process_table).pids() == old(process_table).pids(),
        final(process_table).shared() == old(process_table).shared(),
{
    let receiver = process_table.get_mut(caller).unwrap();
    let ghost queue = receiver@.queue;
    let admits = |sender: Endpoint| -> (b: bool)
        ensures
            b == can_receive_spec(src, sender)
        { can_receive(src, sender) };
    let found = receiver.queue.peek(admits);
    match found {
        Some((sender, message)) => {
            let ghost place = choose|i: int|
                is_first_match(queue, admits, i) && queue[i] == (sender, message);
            proof {
                lemma_first_match_accepted(queue, admits, src, place);
            }
            let mut message = message;
            message.source = caller;
            let addr: u64 = receiver.get_regs().rbx;
            match receiver.write_message(addr, message) {
                Ok(()) => {},
                Err(e) => {
                    return Err(e);
                },
            }
            let taken = receiver.queue.get(admits);
            proof {
                match taken {
                    Some(entry) => {
                        let again = choose|i: int|
                            {
                                &&& is_first_match(queue, admits, i)
                                &&& queue[i] == entry
                                &&& receiver@.queue == queue.remove(i)
                            };
                        lemma_first_match_accepted(queue, admits, src, again);
                    },
                    None => {
                        lemma_no_match_accepted(queue, admits, src);
                    },
                }
            }
            let ghost received = process_table@;
            match process_table.get_mut(sender) {
                Some(process) => {
                    match process.state {
                        ProcessState::SendReceiving(peer) => {
                            process.state = ProcessState::Receiving(peer);
                        },
                        ProcessState::Sending(_) => {
                            process.cont();
                            process.state = ProcessState::Running;
                        },
                        _ => {},
                    }
                },
                None => {},
            }
            proof {
                lemma_same_slots_trans(old(process_table)@, received, process_table@);
            }
            Ok(OK)
        },
        None => {
            proof {
                lemma_no_match_accepted(queue, admits, src);
            }
            receiver.state = ProcessState::Receiving(src);
            Ok(OK)
        },
    }
}

/// What SENDREC does: the caller is marked as waiting for an answer, sends
/// to `dst`, and then receives from `dst`.
pub open spec fn sendrec_spec(t: TableView, caller: Endpoint, dst: Endpoint) -> (
    TableView,
    Result<i32, Error>,
) {
    let marked = put(t, caller, proc(t, caller).with_reply_pending(true));
    match send_spec(marked, caller, dst, false) {
        (sent, Err(e)) => (sent, Err(e)),
        (sent, Ok(code)) => if code != OK {
            (sent, Ok(code))
        } else {
            receive_spec(sent, caller, dst)
        },
    }
}

/// SENDREC: sends the message in the caller's buffer to `dst` and receives
/// the answer in the same buffer.
pub fn do_sendrec(caller: Endpoint, dst: Endpoint, process_table: &mut MinixProcessTable) -> (r:
    Result<i32, Error>)
    requires
        present(old(process_table)@, caller),
        present(old(process_table)@, dst),
    ensures
        (final(process_table)@, r) == sendrec_spec(old(process_table)@, caller, dst),
        same_slots(old(process_table)@, final(process_table)@),
        final(process_table).pids() == old(process_table).pids(),
        final(process_table).shared() == old(process_table).shared(),
{
    process_table.get_mut(caller).unwrap().reply_pending = true;
    let send_result = match do_send(caller, dst, process_table, false) {
        Ok(code) => code,
        Err(e) => {
            return Err(e);
        },
    };
    if send_result != OK {
        return Ok(send_result);
    }
    do_receive(caller, dst, process_table)
}

/// What one of the synchronous calls does. `ANY` is a source for RECEIVE
/// and nothing else: any other call with it fails with `EINVAL`. A call
/// that names a process without a slot fails with `EDEADSRCDST`, and a call
/// number that names none of the five calls with `EBADCALL`.
pub open spec fn sync_ipc_spec(
    t: TableView,
    caller: Endpoint,
    call_nr: u64,
    dest_src: Endpoint,
) -> (
    TableView,
    Result<i32, Error>,
) {
    if dest_src == ANY && call_nr != RECEIVE {
        (t, Ok(EINVAL))
    } else if dest_src != ANY && !present(t, dest_src) {
        (t, Ok(EDEADSRCDST))
    } else if call_nr == SEND {
        send_spec(t, caller, dest_src, false)
    } else if call_nr == RECEIVE {
        receive_spec(
            put(t, caller, proc(t, caller).with_reply_pending(false)),
            caller,
            dest_src,
        )
    } else if call_nr == SENDREC {
        sendrec_spec(t, caller, dest_src)
    } else if call_nr == NOTIFY {
        notify_spec(t, caller, dest_src)
    } else if call_nr == SENDNB {
        send_spec(t, caller, dest_src, true)
    } else {
        (t, Ok(EBADCALL))
    }
}

/// Carries out the synchronous call `call_nr` of `caller` with the peer
/// `dest_src`.
pub fn do_sync_ipc(
    caller: Endpoint,
    call_nr: u64,
    dest_src: Endpoint,
    process_table: &mut MinixProcessTable,
) -> (r: Result<i32, Error>)
    requires
        present(old(process_table)@, caller),
    ensures
        (final(process_table)@, r) == sync_ipc_spec(
            old(process_table)@,
            caller,
            call_nr,
            dest_src,
        ),
        same_slots(old(process_table)@, final(process_table)@),
        final(process_table).pids() == old(process_table).pids(),
        final(process_table).shared() == old(process_table).shared(),
{
    if dest_src == ANY && call_nr != RECEIVE {
        return Ok(EINVAL);
    }
    if dest_src != ANY && process_table.get(dest_src).is_none() {
        return Ok(EDEADSRCDST);
    }
    if call_nr == SEND {
        do_send(caller, dest_src, process_table, false)
    } else if call_nr == RECEIVE {
        process_table.get_mut(caller).unwrap().reply_pending = false;
        do_receive(caller, dest_src, process_table)
    } else if call_nr == SENDREC {
        do_sendrec(caller, dest_src, process_table)
    } else if call_nr == NOTIFY {
        do_notify(caller, dest_src, process_table)
    } else if call_nr == SENDNB {
        do_send(caller, dest_src, process_table, true)
    } else {
        Ok(EBADCALL)
    }
}

/// The registers with the program counter behind the two bytes of the trap
/// instruction.
pub open spec fn past_trap(regs: Registers) -> Registers {
    Registers { rip: ((regs.rip + 2) % 0x1_0000_0000_0000_0000) as u64, ..regs }
}

/// Moves the program counter behind the two bytes of the trap instruction.
pub fn skip_trap(regs: Registers) -> (r: Registers)
    ensures
        r == past_trap(regs),
{
    let mut regs = regs;
    if regs.rip > u64::MAX - 2 {
        regs.rip = regs.rip - (u64::MAX - 1);
    } else {
        regs.rip = regs.rip + 2;
    }
    regs
}

/// The process after `value` was put in `rax` as the result of its call.
pub open spec fn with_return_value(p: ProcessView, value: i32) -> ProcessView {
    p.set_regs(Registers { rax: sign_extend(value), ..p.regs })
}

/// Puts `value` in `rax`, as the result of the call of `process`.
pub fn set_return_value(process: &mut MinixProcess, value: i32)
    ensures
        final(process)@ == with_return_value(old(process)@, value),
{
    let mut regs = process.get_regs();
    regs.rax = widen(value);
    process.set_regs(regs);
}

/// The answer to a request for the kernel information page: the page is
/// mapped at `SHARED_BASE_ADDR` unless it is already, its address goes to
/// `rbx`, the result to `rax`, and the guest runs again.
pub open spec fn kerninfo_spec(p: ProcessView) -> ProcessView {
    let mapped_in = if p.minix_kerninfo_addr is None {
        p.attached(SHARED_BASE_ADDR as u64).with_kerninfo(Some(SHARED_BASE_ADDR))
    } else {
        p
    };
    let addr = mapped_in.minix_kerninfo_addr->0 as u64;
    let result = if addr == 0 {
        EDEADSRCDST
    } else {
        OK
    };
    mapped_in.set_regs(
        Registers { rbx: addr, rax: sign_extend(result), ..mapped_in.regs },
    ).resumed(None)
}

/// The table after the trap of `caller` was entered: its program counter is
/// behind the trap instruction.
pub open spec fn entered(t: TableView, caller: Endpoint) -> TableView {
    put(t, caller, proc(t, caller).set_regs(past_trap(proc(t, caller).regs)))
}

/// The table after the call of `caller` ended with `result`: a caller that
/// is not blocked has the result in `rax` and runs again.
pub open spec fn completed(t: TableView, caller: Endpoint, result: i32) -> TableView {
    if proc(t, caller).state is Running {
        put(t, caller, with_return_value(proc(t, caller), result).resumed(None))
    } else {
        t
    }
}

/// What the call that the registers `regs` of `caller` ask for does.
pub open spec fn call_spec(t: TableView, caller: Endpoint, regs: Registers) -> (
    TableView,
    Result<i32, Error>,
) {
    if SEND <= regs.rcx <= SENDNB {
        sync_ipc_spec(t, caller, regs.rcx, low_i32(regs.rax))
    } else if regs.rcx == SENDA {
        senda_spec(t, caller, regs.rbx, regs.rax)
    } else {
        (t, Ok(EBADCALL))
    }
}

/// What the dispatch of an IPC trap of `caller` does. The program counter
/// moves behind the trap. `rcx` selects the call, `rax` holds the peer, or
/// for SENDA the size of the table, and `rbx` the buffer or the table. A
/// call number that names no call gives `EBADCALL`. A caller that is not
/// blocked when the call is over gets the result in `rax` and runs again.
pub open spec fn ipc_spec(t: TableView, caller: Endpoint) -> (TableView, Result<(), Error>) {
    let regs = past_trap(proc(t, caller).regs);
    if regs.rcx == MINIX_KERNINFO {
        (put(entered(t, caller), caller, kerninfo_spec(proc(entered(t, caller), caller))), Ok(()))
    } else {
        match call_spec(entered(t, caller), caller, regs) {
            (after, Err(e)) => (after, Err(e)),
            (after, Ok(result)) => (completed(after, caller, result), Ok(())),
        }
    }
}

/// Enters the trap of `caller`: moves its program counter behind the trap
/// instruction.
fn enter_trap(caller: Endpoint, process_table: &mut MinixProcessTable) -> (regs: Registers)
    requires
        present(old(process_table)@, caller),
    ensures
        final(process_table)@ == entered(old(process_table)@, caller),
        regs == past_trap(proc(old(process_table)@, caller).regs),
        same_slots(old(process_table)@, final(process_table)@),
        final(process_table).pids() == old(process_table).pids(),
        final(process_table).shared() == old(process_table).shared(),
{
    let process = process_table.get_mut(caller).unwrap();
    let regs = skip_trap(process.get_regs());
    process.set_regs(regs);
    regs
}

/// Answers a request for the kernel information page.
fn do_kerninfo(process: &mut MinixProcess)
    ensures
        final(process)@ == kerninfo_spec(old(process)@),
{
    if process.minix_kerninfo_addr.is_none() {
        process.attach_shared(SHARED_BASE_ADDR as u64);
        process.minix_kerninfo_addr = Some(SHARED_BASE_ADDR);
    }
    let mut regs = process.get_regs();
    regs.rbx = process.minix_kerninfo_addr.unwrap() as u64;
    regs.rax = widen(
        if regs.rbx == 0 {
            EDEADSRCDST
        } else {
            OK
        },
    );
    process.set_regs(regs);
    process.cont();
}

/// Carries out the call that the registers `regs` of `caller` ask for.
fn do_call(caller: Endpoint, regs: Registers, process_table: &mut MinixProcessTable) -> (r: Result<
    i32,
    Error,
>)
    requires
        present(old(process_table)@, caller),
    ensures
        (final(process_table)@, r) == call_spec(old(process_table)@, caller, regs),
        same_slots(old(process_table)@, final(process_table)@),
        final(process_table).pids() == old(process_table).pids(),
        final(process_table).shared() == old(process_table).shared(),
{
    let call_nr: u64 = regs.rcx;
    if SEND <= call_nr && call_nr <= SENDNB {
        do_sync_ipc(caller, call_nr, low_bits(regs.rax), process_table)
    } else if call_nr == SENDA {
        do_senda(caller, regs.rbx, regs.rax, process_table)
    } else {
        Ok(EBADCALL)
    }
}

/// Ends the call of `caller` with `result`.
fn complete(caller: Endpoint, result: i32, process_table: &mut MinixProcessTable)
    requires
        present(old(process_table)@, caller),
    ensures
        final(process_table)@ == completed(old(process_table)@, caller, result),
        same_slots(old(process_table)@, final(process_table)@),
        final(process_table).pids() == old(process_table).pids(),
        final(process_table).shared() == old(process_table).shared(),
{
    let process = process_table.get_mut(caller).unwrap();
    if let ProcessState::Running = process.state {
        set_return_value(process, result);
        process.cont();
    }
}

/// Handles the IPC trap of `caller`.
pub fn do_ipc(caller_endpoint: Endpoint, process_table: &mut MinixProcessTable) -> (r: Result<
    (),
    Error,
>)
    requires
        present(old(process_table)@, caller_endpoint),
    ensures
        (final(process_table)@, r) == ipc_spec(old(process_table)@, caller_endpoint),
        same_slots(old(process_table)@, final(process_table)@),
        final(process_table).pids() == old(process_table).pids(),
        final(process_table).shared() == old(process_table).shared(),
        invariants::ipc_inv(old(process_table)@) && proc(
            old(process_table)@,
            caller_endpoint,
        ).state is Running ==> invariants::ipc_inv(final(process_table)@),
{
    proof {
        if invariants::ipc_inv(old(process_table)@) && proc(
            old(process_table)@,
            caller_endpoint,
        ).state is Running {
            invariants::law_ipc_keeps_invariant(old(process_table)@, caller_endpoint);
        }
    }
    let regs = enter_trap(caller_endpoint, process_table);
    let ghost at_entry = process_table@;
    if regs.rcx == MINIX_KERNINFO {
        do_kerninfo(process_table.get_mut(caller_endpoint).unwrap());
        proof {
            lemma_put_same_slots(
                at_entry,
                caller_endpoint,
                kerninfo_spec(proc(at_entry, caller_endpoint)),
            );
            lemma_same_slots_trans(old(process_table)@, at_entry, process_table@);
        }
        return Ok(());
    }
    let outcome = do_call(caller_endpoint, regs, process_table);
    let ghost after = process_table@;
    proof {
        lemma_same_slots_trans(old(process_table)@, at_entry, after);
    }
    match outcome {
        Ok(result) => {
            complete(caller_endpoint, result, process_table);
            proof {
                lemma_same_slots_trans(old(process_table)@, after, process_table@);
            }
            Ok(())
        },
        Err(e) => Err(e),
    }
}

} // verus!
