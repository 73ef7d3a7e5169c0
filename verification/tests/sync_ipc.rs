use minix_ipc::ipc::ipcconst::{MINIX_KERNINFO, NOTIFY, RECEIVE, SEND, SENDNB, SENDREC};
use minix_ipc::ipc::{
    build_notify_message, can_receive, do_ipc, do_notify, do_receive, do_send, do_sendrec,
    do_sync_ipc, set_return_value, will_receive,
};
use minix_ipc::utils::endpoint::{ANY, ASYNCM};
use minix_ipc::utils::guest_memory::Error;
use minix_ipc::utils::message::Message;
use minix_ipc::utils::minix_errno::{EBADCALL, EDEADSRCDST, EINVAL, ENOTREADY, OK};
use minix_ipc::utils::minix_process::{Effect, MinixProcess, ProcessState};
use minix_ipc::utils::minix_process_table::MinixProcessTable;

const SENDER: i32 = 41;
const RECEIVER: i32 = 42;
const SENDER_BUF: u64 = 0x1000;
const RECEIVER_BUF: u64 = 0x2000;

fn guest(pid: i32, buffer: u64) -> MinixProcess {
    let mut process = MinixProcess::new(pid, "guest");
    process.regs.rbx = buffer;
    process.regs.rip = 0x400000;
    process.memory.extend(buffer, &[0u8; 64]);
    process
}

fn table() -> MinixProcessTable {
    let mut table = MinixProcessTable::new();
    table.insert(guest(1041, SENDER_BUF), SENDER).unwrap();
    table.insert(guest(1042, RECEIVER_BUF), RECEIVER).unwrap();
    table
}

fn message(m_type: u32) -> Message {
    Message {
        source: 0,
        m_type,
        payload: [1, 2, 3, 4, 5, 6, 7, 8, 9, 10, 11, 12, 13, 14],
    }
}

fn put_message(table: &mut MinixProcessTable, endpoint: i32, message: Message) {
    let process = table.get_mut(endpoint).unwrap();
    let addr = process.regs.rbx;
    process.memory.extend(addr, &message.to_bytes());
}

fn buffer(table: &MinixProcessTable, endpoint: i32) -> Message {
    let process = table.get(endpoint).unwrap();
    process.read_message(process.regs.rbx).unwrap()
}

fn trap(table: &mut MinixProcessTable, caller: i32, call: u64, peer: i32) -> Result<(), Error> {
    let process = table.get_mut(caller).unwrap();
    process.effects.clear();
    process.regs.rcx = call;
    process.regs.rax = peer as u32 as u64;
    do_ipc(caller, table)
}

fn resumed(table: &MinixProcessTable, endpoint: i32) -> bool {
    table.get(endpoint).unwrap().effects.last() == Some(&Effect::Continue { signal: None })
}

#[test]
fn can_receive_from_the_awaited_sender_or_from_any() {
    assert!(can_receive(ANY, 41));
    assert!(can_receive(41, 41));
    assert!(!can_receive(42, 41));
    assert!(!can_receive(ANY, ANY));
    assert!(!can_receive(41, ANY));
    assert!(can_receive(ANY, ASYNCM));
}

#[test]
fn will_receive_needs_a_blocked_receiver() {
    let mut table = table();
    assert!(!will_receive(SENDER, RECEIVER, &table));
    table.get_mut(RECEIVER).unwrap().state = ProcessState::Receiving(ANY);
    assert!(will_receive(SENDER, RECEIVER, &table));
    table.get_mut(RECEIVER).unwrap().state = ProcessState::Receiving(SENDER);
    assert!(will_receive(SENDER, RECEIVER, &table));
    assert!(!will_receive(43, RECEIVER, &table));
    table.get_mut(RECEIVER).unwrap().state = ProcessState::SendReceiving(SENDER);
    assert!(!will_receive(SENDER, RECEIVER, &table));
    table.get_mut(RECEIVER).unwrap().state = ProcessState::Sending(SENDER);
    assert!(!will_receive(SENDER, RECEIVER, &table));
    assert!(!will_receive(SENDER, 43, &table));
    assert!(!will_receive(SENDER, -1, &table));
}

#[test]
fn notify_message_is_empty() {
    assert_eq!(
        build_notify_message(41),
        Message { source: 41, m_type: 0x1000, payload: [0; 14] }
    );
}

#[test]
fn rendezvous_receive_first() {
    let mut table = table();
    put_message(&mut table, SENDER, message(0x10));

    assert_eq!(trap(&mut table, RECEIVER, RECEIVE, SENDER), Ok(()));
    assert_eq!(table.get(RECEIVER).unwrap().state, ProcessState::Receiving(SENDER));
    assert!(!resumed(&table, RECEIVER));
    assert_eq!(table.get(RECEIVER).unwrap().regs.rip, 0x400002);

    assert_eq!(trap(&mut table, SENDER, SEND, RECEIVER), Ok(()));
    assert_eq!(
        buffer(&table, RECEIVER),
        Message {
            source: 41,
            m_type: 0x10,
            payload: [1, 2, 3, 4, 5, 6, 7, 8, 9, 10, 11, 12, 13, 14],
        }
    );
    assert_eq!(table.get(RECEIVER).unwrap().state, ProcessState::Running);
    assert!(resumed(&table, RECEIVER));
    // the message is stored before the receiver runs again
    let effects = &table.get(RECEIVER).unwrap().effects;
    assert_eq!(effects.len(), 10);
    assert!(matches!(effects[0], Effect::SetRegs(_)));
    assert_eq!(effects[1], Effect::Write { addr: RECEIVER_BUF, data: 41 | (0x10 << 32) });
    assert_eq!(effects[8], Effect::Write { addr: RECEIVER_BUF + 56, data: 13 | (14 << 32) });
    assert_eq!(effects[9], Effect::Continue { signal: None });

    let sender = table.get(SENDER).unwrap();
    assert_eq!(sender.state, ProcessState::Running);
    assert_eq!(sender.regs.rax, OK as u64);
    assert_eq!(sender.regs.rip, 0x400002);
    assert_eq!(sender.effects.len(), 3);
    assert_eq!(sender.effects[1], Effect::SetRegs(sender.regs));
    assert_eq!(sender.effects[2], Effect::Continue { signal: None });
}

#[test]
fn rendezvous_send_first() {
    let mut table = table();
    put_message(&mut table, SENDER, message(0x20));

    assert_eq!(trap(&mut table, SENDER, SEND, RECEIVER), Ok(()));
    assert_eq!(table.get(SENDER).unwrap().state, ProcessState::Sending(RECEIVER));
    assert!(!resumed(&table, SENDER));
    assert_eq!(
        table.get(RECEIVER).unwrap().queue.peek(|_| true),
        Some((SENDER, message(0x20)))
    );

    assert_eq!(trap(&mut table, RECEIVER, RECEIVE, ANY), Ok(()));
    let received = buffer(&table, RECEIVER);
    assert_eq!(received.m_type, 0x20);
    assert_eq!(received.payload, [1, 2, 3, 4, 5, 6, 7, 8, 9, 10, 11, 12, 13, 14]);
    assert_eq!(received.source, RECEIVER);
    assert_eq!(table.get(RECEIVER).unwrap().queue.peek(|_| true), None);
    assert_eq!(table.get(SENDER).unwrap().state, ProcessState::Running);
    assert_eq!(table.get(RECEIVER).unwrap().state, ProcessState::Running);
    assert!(resumed(&table, SENDER));
    assert!(resumed(&table, RECEIVER));
    assert_eq!(table.get(RECEIVER).unwrap().regs.rax, OK as u64);
}

#[test]
fn receive_takes_the_first_sender_that_the_source_admits() {
    let mut table = table();
    table.insert(guest(1043, 0x3000), 43).unwrap();
    put_message(&mut table, SENDER, message(1));
    put_message(&mut table, 43, message(2));
    assert_eq!(trap(&mut table, SENDER, SEND, RECEIVER), Ok(()));
    assert_eq!(trap(&mut table, 43, SEND, RECEIVER), Ok(()));

    assert_eq!(trap(&mut table, RECEIVER, RECEIVE, 43), Ok(()));
    assert_eq!(buffer(&table, RECEIVER).m_type, 2);
    assert_eq!(table.get(43).unwrap().state, ProcessState::Running);
    assert_eq!(table.get(SENDER).unwrap().state, ProcessState::Sending(RECEIVER));

    assert_eq!(trap(&mut table, RECEIVER, RECEIVE, 43), Ok(()));
    assert_eq!(table.get(RECEIVER).unwrap().state, ProcessState::Receiving(43));
    assert_eq!(table.get(SENDER).unwrap().state, ProcessState::Sending(RECEIVER));
}

#[test]
fn sendrec_with_a_deferred_reply() {
    let mut table = table();
    put_message(&mut table, SENDER, message(0x30));

    // the send of the SENDREC blocks, and the receive is put off
    assert_eq!(do_send(SENDER, RECEIVER, &mut table, false), Ok(OK));
    assert_eq!(table.get(SENDER).unwrap().state, ProcessState::Sending(RECEIVER));
    assert_eq!(do_receive(SENDER, RECEIVER, &mut table), Ok(OK));
    assert_eq!(table.get(SENDER).unwrap().state, ProcessState::SendReceiving(RECEIVER));

    // the same through the trap
    let mut table = self::table();
    put_message(&mut table, SENDER, message(0x30));
    assert_eq!(trap(&mut table, SENDER, SENDREC, RECEIVER), Ok(()));
    assert_eq!(table.get(SENDER).unwrap().state, ProcessState::SendReceiving(RECEIVER));
    assert!(table.get(SENDER).unwrap().reply_pending);
    assert!(!resumed(&table, SENDER));

    assert_eq!(trap(&mut table, RECEIVER, RECEIVE, ANY), Ok(()));
    assert_eq!(buffer(&table, RECEIVER).m_type, 0x30);
    assert_eq!(table.get(SENDER).unwrap().state, ProcessState::Receiving(RECEIVER));
    assert!(table.get(SENDER).unwrap().reply_pending);
    assert!(!resumed(&table, SENDER));
    assert_eq!(table.get(RECEIVER).unwrap().state, ProcessState::Running);

    put_message(&mut table, RECEIVER, message(0x31));
    assert_eq!(trap(&mut table, RECEIVER, SEND, SENDER), Ok(()));
    let reply = buffer(&table, SENDER);
    assert_eq!(reply.source, RECEIVER);
    assert_eq!(reply.m_type, 0x31);
    assert_eq!(table.get(SENDER).unwrap().state, ProcessState::Running);
    assert!(resumed(&table, SENDER));
    assert!(table.get(SENDER).unwrap().reply_pending);
    assert_eq!(table.get(RECEIVER).unwrap().regs.rax, OK as u64);

    assert_eq!(trap(&mut table, SENDER, RECEIVE, ANY), Ok(()));
    assert!(!table.get(SENDER).unwrap().reply_pending);
    assert_eq!(table.get(SENDER).unwrap().state, ProcessState::Receiving(ANY));
}

#[test]
fn sendrec_to_a_waiting_receiver() {
    let mut table = table();
    put_message(&mut table, SENDER, message(0x30));
    table.get_mut(RECEIVER).unwrap().state = ProcessState::Receiving(ANY);
    assert_eq!(do_sendrec(SENDER, RECEIVER, &mut table), Ok(OK));
    assert_eq!(buffer(&table, RECEIVER).source, SENDER);
    assert_eq!(table.get(RECEIVER).unwrap().state, ProcessState::Running);
    assert_eq!(table.get(SENDER).unwrap().state, ProcessState::Receiving(RECEIVER));
    assert!(table.get(SENDER).unwrap().reply_pending);
}

#[test]
fn notify_is_queued_for_a_busy_process() {
    let mut table = table();
    assert_eq!(trap(&mut table, SENDER, NOTIFY, RECEIVER), Ok(()));
    assert_eq!(table.get(RECEIVER).unwrap().notify_pending, vec![SENDER]);
    assert_eq!(table.get(SENDER).unwrap().state, ProcessState::Running);
    assert_eq!(table.get(SENDER).unwrap().regs.rax, OK as u64);
    assert!(resumed(&table, SENDER));

    assert_eq!(trap(&mut table, RECEIVER, RECEIVE, ANY), Ok(()));
    assert_eq!(
        buffer(&table, RECEIVER),
        Message { source: 41, m_type: 0x1000, payload: [0; 14] }
    );
    assert!(table.get(RECEIVER).unwrap().notify_pending.is_empty());
    assert_eq!(table.get(RECEIVER).unwrap().state, ProcessState::Running);
    assert_eq!(table.get(RECEIVER).unwrap().regs.rax, OK as u64);
    assert!(resumed(&table, RECEIVER));
}

#[test]
fn notify_reaches_a_waiting_receiver_at_once() {
    let mut table = table();
    table.get_mut(RECEIVER).unwrap().state = ProcessState::Receiving(SENDER);
    assert_eq!(do_notify(SENDER, RECEIVER, &mut table), Ok(OK));
    assert_eq!(buffer(&table, RECEIVER), build_notify_message(SENDER));
    assert_eq!(table.get(RECEIVER).unwrap().state, ProcessState::Running);
    assert!(table.get(RECEIVER).unwrap().notify_pending.is_empty());
    assert!(resumed(&table, RECEIVER));
    assert_eq!(do_notify(SENDER, 99, &mut table), Ok(EDEADSRCDST));
}

#[test]
fn notifications_come_before_queued_messages_and_respect_the_source() {
    let mut table = table();
    table.insert(guest(1043, 0x3000), 43).unwrap();
    put_message(&mut table, SENDER, message(7));
    assert_eq!(trap(&mut table, SENDER, SEND, RECEIVER), Ok(()));
    assert_eq!(trap(&mut table, 43, NOTIFY, RECEIVER), Ok(()));
    assert_eq!(do_notify(ASYNCM, RECEIVER, &mut table), Ok(OK));
    assert_eq!(table.get(RECEIVER).unwrap().notify_pending, vec![43, ASYNCM]);

    // a receive from the sender passes over the notifications of others
    assert_eq!(trap(&mut table, RECEIVER, RECEIVE, SENDER), Ok(()));
    assert_eq!(buffer(&table, RECEIVER).m_type, 7);
    assert_eq!(table.get(RECEIVER).unwrap().notify_pending, vec![43, ASYNCM]);

    assert_eq!(do_receive(RECEIVER, ASYNCM, &mut table), Ok(OK));
    assert_eq!(buffer(&table, RECEIVER), build_notify_message(ASYNCM));
    assert_eq!(table.get(RECEIVER).unwrap().notify_pending, vec![43]);

    assert_eq!(trap(&mut table, RECEIVER, RECEIVE, ANY), Ok(()));
    assert_eq!(buffer(&table, RECEIVER), build_notify_message(43));
    assert!(table.get(RECEIVER).unwrap().notify_pending.is_empty());
}

#[test]
fn pending_answer_holds_notifications_back() {
    let mut table = table();
    assert_eq!(do_notify(43, SENDER, &mut table), Ok(OK));
    put_message(&mut table, SENDER, message(0x30));
    table.get_mut(RECEIVER).unwrap().state = ProcessState::Receiving(ANY);
    assert_eq!(trap(&mut table, SENDER, SENDREC, RECEIVER), Ok(()));
    assert_eq!(table.get(SENDER).unwrap().state, ProcessState::Receiving(RECEIVER));
    assert_eq!(table.get(SENDER).unwrap().notify_pending, vec![43]);
}

#[test]
fn any_is_a_peer_for_receive_only() {
    for call in [SEND, SENDREC, NOTIFY, SENDNB] {
        let mut table = table();
        put_message(&mut table, SENDER, message(1));
        assert_eq!(do_sync_ipc(SENDER, call, ANY, &mut table), Ok(EINVAL));
        assert_eq!(table.get(SENDER).unwrap().state, ProcessState::Running);
        assert_eq!(trap(&mut table, SENDER, call, ANY), Ok(()));
        assert_eq!(table.get(SENDER).unwrap().regs.rax, EINVAL as i64 as u64);
        assert_eq!(table.get(SENDER).unwrap().state, ProcessState::Running);
        assert!(resumed(&table, SENDER));
        assert!(table.get(RECEIVER).unwrap().notify_pending.is_empty());
    }
    let mut table = table();
    assert_eq!(do_sync_ipc(SENDER, RECEIVE, ANY, &mut table), Ok(OK));
    assert_eq!(table.get(SENDER).unwrap().state, ProcessState::Receiving(ANY));
    assert_eq!(do_sync_ipc(SENDER, 0, ANY, &mut self::table()), Ok(EINVAL));
}

#[test]
fn send_to_a_process_that_does_not_receive() {
    let mut table = table();
    put_message(&mut table, SENDER, message(5));
    assert_eq!(trap(&mut table, SENDER, SENDNB, RECEIVER), Ok(()));
    assert_eq!(table.get(SENDER).unwrap().regs.rax, ENOTREADY as i64 as u64);
    assert_eq!(table.get(SENDER).unwrap().state, ProcessState::Running);
    assert_eq!(table.get(RECEIVER).unwrap().queue.peek(|_| true), None);
    assert!(resumed(&table, SENDER));
    assert_eq!(do_send(SENDER, RECEIVER, &mut table, true), Ok(ENOTREADY));

    assert_eq!(trap(&mut table, SENDER, SEND, RECEIVER), Ok(()));
    assert_eq!(table.get(SENDER).unwrap().state, ProcessState::Sending(RECEIVER));
    assert!(!resumed(&table, SENDER));
    assert_eq!(
        table.get(RECEIVER).unwrap().queue.peek(|s| s == SENDER),
        Some((SENDER, message(5)))
    );
}

#[test]
fn sendnb_to_a_waiting_receiver_delivers() {
    let mut table = table();
    put_message(&mut table, SENDER, message(5));
    table.get_mut(RECEIVER).unwrap().state = ProcessState::Receiving(SENDER);
    assert_eq!(do_send(SENDER, RECEIVER, &mut table, true), Ok(OK));
    assert_eq!(buffer(&table, RECEIVER).m_type, 5);
    assert_eq!(buffer(&table, RECEIVER).source, SENDER);
}

#[test]
fn delivery_to_a_process_that_also_sends() {
    let mut table = table();
    put_message(&mut table, SENDER, message(5));
    table.get_mut(RECEIVER).unwrap().state = ProcessState::SendReceiving(43);
    assert!(!will_receive(SENDER, RECEIVER, &table));
    assert_eq!(do_send(SENDER, RECEIVER, &mut table, true), Ok(ENOTREADY));
    assert_eq!(minix_ipc::ipc::deliver(RECEIVER, message(9), &mut table), Ok(()));
    assert_eq!(table.get(RECEIVER).unwrap().state, ProcessState::Sending(43));
    assert!(table.get(RECEIVER).unwrap().effects.iter().all(|e| !matches!(
        e,
        Effect::Continue { .. },
    )));
}

#[test]
fn peer_without_a_slot() {
    let mut table = table();
    put_message(&mut table, SENDER, message(5));
    for call in [SEND, RECEIVE, SENDREC, NOTIFY, SENDNB] {
        assert_eq!(do_sync_ipc(SENDER, call, 43, &mut table), Ok(EDEADSRCDST));
        assert_eq!(do_sync_ipc(SENDER, call, -1, &mut table), Ok(EDEADSRCDST));
        assert_eq!(do_sync_ipc(SENDER, call, 256, &mut table), Ok(EDEADSRCDST));
    }
    assert_eq!(table.get(SENDER).unwrap().state, ProcessState::Running);
    assert_eq!(trap(&mut table, SENDER, SEND, 43), Ok(()));
    assert_eq!(table.get(SENDER).unwrap().regs.rax, EDEADSRCDST as i64 as u64);
}

#[test]
fn call_number_that_names_no_call() {
    let mut table = table();
    assert_eq!(do_sync_ipc(SENDER, 0, RECEIVER, &mut table), Ok(EBADCALL));
    assert_eq!(do_sync_ipc(SENDER, 6, RECEIVER, &mut table), Ok(EBADCALL));
    for call in [0u64, 7, 15, 17, u64::MAX] {
        assert_eq!(trap(&mut table, SENDER, call, RECEIVER), Ok(()));
        assert_eq!(table.get(SENDER).unwrap().regs.rax, EBADCALL as i64 as u64);
        assert!(resumed(&table, SENDER));
    }
}

#[test]
fn unreadable_buffers_fail_and_change_nothing() {
    let mut table = table();
    table.get_mut(SENDER).unwrap().regs.rbx = 0x9000;
    assert_eq!(do_send(SENDER, RECEIVER, &mut table, false), Err(Error::Fault(0x9000)));
    assert_eq!(table.get(SENDER).unwrap().state, ProcessState::Running);
    assert_eq!(trap(&mut table, SENDER, SEND, RECEIVER), Err(Error::Fault(0x9000)));
    assert!(!resumed(&table, SENDER));

    // the buffer of the receiver is not in the window
    let mut table = self::table();
    put_message(&mut table, SENDER, message(5));
    table.get_mut(RECEIVER).unwrap().state = ProcessState::Receiving(ANY);
    table.get_mut(RECEIVER).unwrap().regs.rbx = 0x9000;
    assert_eq!(do_send(SENDER, RECEIVER, &mut table, false), Err(Error::Fault(0x9000)));
    assert_eq!(table.get(RECEIVER).unwrap().state, ProcessState::Receiving(ANY));
    assert_eq!(table.get(SENDER).unwrap().state, ProcessState::Running);
    assert_eq!(do_notify(SENDER, RECEIVER, &mut table), Err(Error::Fault(0x9000)));
    assert!(table.get(RECEIVER).unwrap().notify_pending.is_empty());

    // a queued sender stays queued when the receiver cannot take its message
    let mut table = self::table();
    put_message(&mut table, SENDER, message(5));
    assert_eq!(do_send(SENDER, RECEIVER, &mut table, false), Ok(OK));
    table.get_mut(RECEIVER).unwrap().regs.rbx = 0x9000;
    assert_eq!(do_receive(RECEIVER, ANY, &mut table), Err(Error::Fault(0x9000)));
    assert_eq!(table.get(SENDER).unwrap().state, ProcessState::Sending(RECEIVER));
    assert_eq!(
        table.get(RECEIVER).unwrap().queue.peek(|_| true),
        Some((SENDER, message(5)))
    );
    assert_eq!(table.get(RECEIVER).unwrap().state, ProcessState::Running);
}

#[test]
fn return_value_goes_to_rax() {
    let mut process = guest(1, 0x1000);
    set_return_value(&mut process, -201);
    assert_eq!(process.regs.rax, 0xFFFF_FFFF_FFFF_FF37);
    assert_eq!(process.effects, vec![Effect::SetRegs(process.regs)]);
    set_return_value(&mut process, 0);
    assert_eq!(process.regs.rax, 0);
}

#[test]
fn kernel_information_page_is_mapped_once() {
    let mut table = table();
    assert_eq!(trap(&mut table, SENDER, MINIX_KERNINFO, 0), Ok(()));
    let process = table.get(SENDER).unwrap();
    assert_eq!(process.minix_kerninfo_addr, Some(0xF1002000));
    assert_eq!(process.regs.rbx, 0xF1002000);
    assert_eq!(process.regs.rax, OK as u64);
    assert_eq!(process.regs.rip, 0x400002);
    assert_eq!(process.effects.len(), 4);
    assert_eq!(process.effects[1], Effect::AttachShared { addr: 0xF1002000 });
    assert_eq!(process.effects[2], Effect::SetRegs(process.regs));
    assert_eq!(process.effects[3], Effect::Continue { signal: None });

    assert_eq!(trap(&mut table, SENDER, MINIX_KERNINFO, 0), Ok(()));
    let process = table.get(SENDER).unwrap();
    assert_eq!(process.regs.rbx, 0xF1002000);
    assert_eq!(process.effects.len(), 3);
    assert!(process.effects.iter().all(|e| !matches!(e, Effect::AttachShared { .. })));
}

#[test]
fn program_counter_wraps_at_the_last_address() {
    let mut table = table();
    table.get_mut(SENDER).unwrap().regs.rip = u64::MAX;
    assert_eq!(trap(&mut table, SENDER, NOTIFY, RECEIVER), Ok(()));
    assert_eq!(table.get(SENDER).unwrap().regs.rip, 1);
}
