use minix_ipc::ipc::asyn::{
    do_senda, has_pending_asend, may_asynsend_to, read_asynmsg, try_async, try_one,
    write_asynmsg, AsynMsg, ASYNMSG_SIZE,
};
use minix_ipc::ipc::asyn_flags::{
    AMF_DONE, AMF_EMPTY, AMF_NOREPLY, AMF_NOTIFY, AMF_NOTIFY_ERR, AMF_VALID,
};
use minix_ipc::ipc::do_ipc;
use minix_ipc::ipc::ipcconst::{RECEIVE, SENDA};
use minix_ipc::utils::endpoint::{ANY, ASYNCM};
use minix_ipc::utils::guest_memory::Error;
use minix_ipc::utils::message::Message;
use minix_ipc::utils::minix_errno::{EAGAIN, EDEADSRCDST, EINVAL, ESRCH, OK};
use minix_ipc::utils::minix_process::{Effect, MinixProcess, ProcessState};
use minix_ipc::utils::minix_process_table::MinixProcessTable;

const SENDER: i32 = 41;
const RECEIVER: i32 = 42;
const TABLE: u64 = 0x3000;

fn guest(pid: i32, buffer: u64) -> MinixProcess {
    let mut process = MinixProcess::new(pid, "guest");
    process.regs.rbx = buffer;
    process.regs.rip = 0x400000;
    process.memory.extend(buffer, &[0u8; 64]);
    process
}

fn message(m_type: u32) -> Message {
    Message { source: 0, m_type, payload: [m_type; 14] }
}

fn entry(flags: u32, dst: i32, m_type: u32) -> AsynMsg {
    AsynMsg { flags, dst, result: 0, msg: message(m_type) }
}

/// A table with the sender, whose table of `entries` lies at `TABLE`, and
/// the receiver.
fn table(entries: &[AsynMsg]) -> MinixProcessTable {
    let mut table = MinixProcessTable::new();
    let mut sender = guest(1041, 0x1000);
    let mut bytes = Vec::new();
    for entry in entries {
        bytes.extend(entry.to_bytes());
    }
    bytes.extend([0xEE; 4]);
    sender.memory.extend(TABLE, &bytes);
    table.insert(sender, SENDER).unwrap();
    table.insert(guest(1042, 0x2000), RECEIVER).unwrap();
    table
}

fn slot(table: &MinixProcessTable, owner: i32, index: u64) -> AsynMsg {
    read_asynmsg(TABLE + index * 76, table.get(owner).unwrap()).unwrap()
}

fn buffer(table: &MinixProcessTable, endpoint: i32) -> Message {
    let process = table.get(endpoint).unwrap();
    process.read_message(process.regs.rbx).unwrap()
}

fn trap(
    table: &mut MinixProcessTable,
    caller: i32,
    rcx: u64,
    rax: u64,
    rbx: u64,
) -> Result<(), Error> {
    let process = table.get_mut(caller).unwrap();
    process.effects.clear();
    process.regs.rcx = rcx;
    process.regs.rax = rax;
    process.regs.rbx = rbx;
    do_ipc(caller, table)
}

fn resumed(table: &MinixProcessTable, endpoint: i32) -> bool {
    table.get(endpoint).unwrap().effects.last() == Some(&Effect::Continue { signal: None })
}

fn mixed() -> Vec<AsynMsg> {
    vec![
        entry(AMF_VALID, RECEIVER, 0x50),
        entry(AMF_VALID, 43, 0x51),
        entry(AMF_EMPTY, 0, 0),
    ]
}

#[test]
fn entry_takes_76_bytes_in_field_order() {
    let entry = AsynMsg { flags: AMF_VALID | AMF_NOTIFY, dst: 42, result: -202, msg: message(9) };
    let bytes = entry.to_bytes();
    assert_eq!(bytes.len(), ASYNMSG_SIZE);
    assert_eq!(&bytes[0..4], &[5, 0, 0, 0]);
    assert_eq!(&bytes[4..8], &[42, 0, 0, 0]);
    assert_eq!(&bytes[8..12], &[0x36, 0xFF, 0xFF, 0xFF]);
    assert_eq!(&bytes[12..76], &message(9).to_bytes()[..]);
    assert_eq!(AsynMsg::from_bytes(&bytes), entry);
}

#[test]
fn entries_are_read_and_written_in_place() {
    let mut table = table(&mixed());
    assert_eq!(slot(&table, SENDER, 0), entry(AMF_VALID, RECEIVER, 0x50));
    assert_eq!(slot(&table, SENDER, 1), entry(AMF_VALID, 43, 0x51));
    assert_eq!(slot(&table, SENDER, 2), entry(AMF_EMPTY, 0, 0));
    assert_eq!(
        read_asynmsg(TABLE + 3 * 76, table.get(SENDER).unwrap()),
        Err(Error::Fault(TABLE + 3 * 76))
    );
    let changed = AsynMsg { flags: AMF_VALID | AMF_DONE, dst: 7, result: -22, msg: message(1) };
    assert_eq!(write_asynmsg(changed, TABLE + 76, table.get_mut(SENDER).unwrap()), Ok(()));
    assert_eq!(slot(&table, SENDER, 0), entry(AMF_VALID, RECEIVER, 0x50));
    assert_eq!(slot(&table, SENDER, 1), changed);
    assert_eq!(slot(&table, SENDER, 2), entry(AMF_EMPTY, 0, 0));
    assert_eq!(
        write_asynmsg(changed, TABLE + 3 * 76, table.get_mut(SENDER).unwrap()),
        Err(Error::Fault(TABLE + 3 * 76))
    );
    // the bytes behind the table stay as they are
    assert_eq!(write_asynmsg(changed, TABLE + 2 * 76, table.get_mut(SENDER).unwrap()), Ok(()));
    assert_eq!(table.get(SENDER).unwrap().memory.byte(TABLE + 3 * 76), Some(0xEE));
    assert_eq!(table.get(SENDER).unwrap().memory.byte(TABLE + 3 * 76 + 3), Some(0xEE));
}

#[test]
fn senda_with_a_busy_receiver() {
    let mut table = table(&mixed());
    assert_eq!(trap(&mut table, SENDER, SENDA, 3, TABLE), Ok(()));

    // entry 0 waits for the receiver
    assert_eq!(slot(&table, SENDER, 0), entry(AMF_VALID, RECEIVER, 0x50));
    assert_eq!(table.get(RECEIVER).unwrap().async_pending, vec![SENDER]);
    // entry 1 names a process without a slot
    assert_eq!(
        slot(&table, SENDER, 1),
        AsynMsg { flags: AMF_VALID | AMF_DONE, dst: 43, result: EDEADSRCDST, msg: message(0x51) }
    );
    assert_eq!(slot(&table, SENDER, 2), entry(AMF_EMPTY, 0, 0));

    let sender = table.get(SENDER).unwrap();
    assert_eq!(sender.privileges.s_asyntab, TABLE as u32);
    assert_eq!(sender.privileges.s_asynsize, 3);
    assert_eq!(sender.privileges.s_asynendpoint, SENDER);
    assert_eq!(sender.regs.rax, OK as u64);
    assert_eq!(sender.state, ProcessState::Running);
    assert!(sender.notify_pending.is_empty());
    assert!(resumed(&table, SENDER));
    assert!(has_pending_asend(RECEIVER, SENDER, &table));
    assert!(has_pending_asend(RECEIVER, ANY, &table));
    assert!(!has_pending_asend(RECEIVER, 43, &table));
    assert!(!has_pending_asend(SENDER, ANY, &table));
}

#[test]
fn senda_with_a_waiting_receiver() {
    let mut table = table(&mixed());
    table.get_mut(RECEIVER).unwrap().state = ProcessState::Receiving(ANY);
    assert_eq!(trap(&mut table, SENDER, SENDA, 3, TABLE), Ok(()));

    assert_eq!(
        buffer(&table, RECEIVER),
        Message { source: SENDER, m_type: 0x50, payload: [0x50; 14] }
    );
    assert_eq!(table.get(RECEIVER).unwrap().state, ProcessState::Running);
    assert!(resumed(&table, RECEIVER));
    assert!(table.get(RECEIVER).unwrap().async_pending.is_empty());
    assert_eq!(
        slot(&table, SENDER, 0),
        AsynMsg { flags: AMF_VALID | AMF_DONE, dst: RECEIVER, result: OK, msg: message(0x50) }
    );
    assert_eq!(
        slot(&table, SENDER, 1),
        AsynMsg { flags: AMF_VALID | AMF_DONE, dst: 43, result: EDEADSRCDST, msg: message(0x51) }
    );
    assert_eq!(slot(&table, SENDER, 2), entry(AMF_EMPTY, 0, 0));
    // nothing stays undone, so the table is not kept on record
    assert_eq!(table.get(SENDER).unwrap().privileges.s_asynsize, 0);
    assert_eq!(table.get(SENDER).unwrap().privileges.s_asyntab, 0xFFFF_FFFF);
}

#[test]
fn receive_triggers_the_pending_delivery() {
    let mut table = table(&mixed());
    assert_eq!(trap(&mut table, SENDER, SENDA, 3, TABLE), Ok(()));
    assert_eq!(trap(&mut table, RECEIVER, RECEIVE, ANY as u64, 0x2000), Ok(()));

    assert_eq!(
        buffer(&table, RECEIVER),
        Message { source: SENDER, m_type: 0x50, payload: [0x50; 14] }
    );
    assert_eq!(
        slot(&table, SENDER, 0),
        AsynMsg { flags: AMF_VALID | AMF_DONE, dst: RECEIVER, result: OK, msg: message(0x50) }
    );
    assert_eq!(table.get(RECEIVER).unwrap().state, ProcessState::Running);
    assert_eq!(table.get(RECEIVER).unwrap().regs.rax, OK as u64);
    assert!(resumed(&table, RECEIVER));
    // the scan met an entry that was not done, so the sender is looked at again
    assert_eq!(table.get(RECEIVER).unwrap().async_pending, vec![SENDER]);
    assert_eq!(table.get(SENDER).unwrap().privileges.s_asynsize, 3);
    assert!(table.get(SENDER).unwrap().notify_pending.is_empty());

    // with every entry done the table is given up and the receiver blocks
    assert_eq!(trap(&mut table, RECEIVER, RECEIVE, ANY as u64, 0x2000), Ok(()));
    assert_eq!(table.get(RECEIVER).unwrap().state, ProcessState::Receiving(ANY));
    assert!(table.get(RECEIVER).unwrap().async_pending.is_empty());
    assert_eq!(table.get(SENDER).unwrap().privileges.s_asynsize, 0);
    assert_eq!(table.get(SENDER).unwrap().privileges.s_asyntab, 0xFFFF_FFFF);
}

#[test]
fn delivery_notifies_the_sender_that_asks_for_it() {
    let mut table = table(&[entry(AMF_VALID | AMF_NOTIFY, RECEIVER, 0x60)]);
    assert_eq!(do_senda(SENDER, TABLE, 1, &mut table), Ok(OK));
    assert!(table.get(SENDER).unwrap().notify_pending.is_empty());
    table.get_mut(RECEIVER).unwrap().state = ProcessState::Receiving(SENDER);
    assert_eq!(try_one(SENDER, RECEIVER, &mut table), Ok(OK));
    assert_eq!(buffer(&table, RECEIVER).m_type, 0x60);
    assert_eq!(table.get(SENDER).unwrap().notify_pending, vec![ASYNCM]);
    assert_eq!(slot(&table, SENDER, 0).flags, AMF_VALID | AMF_NOTIFY | AMF_DONE);

    // a sender that waits for the notification gets it at once
    let mut table = self::table(&[entry(AMF_VALID | AMF_NOTIFY, RECEIVER, 0x60)]);
    assert_eq!(do_senda(SENDER, TABLE, 1, &mut table), Ok(OK));
    table.get_mut(SENDER).unwrap().state = ProcessState::Receiving(ANY);
    table.get_mut(RECEIVER).unwrap().state = ProcessState::Receiving(ANY);
    assert_eq!(try_one(SENDER, RECEIVER, &mut table), Ok(OK));
    assert_eq!(
        buffer(&table, SENDER),
        Message { source: ASYNCM, m_type: 0x1000, payload: [0; 14] }
    );
    assert_eq!(table.get(SENDER).unwrap().state, ProcessState::Running);
}

#[test]
fn senda_notifies_once_for_the_whole_table() {
    let mut table = table(&[
        entry(AMF_VALID | AMF_NOTIFY_ERR, 43, 1),
        entry(AMF_VALID | AMF_NOTIFY, 44, 2),
        entry(AMF_VALID | AMF_NOTIFY_ERR, RECEIVER, 3),
    ]);
    table.get_mut(RECEIVER).unwrap().state = ProcessState::Receiving(ANY);
    assert_eq!(do_senda(SENDER, TABLE, 3, &mut table), Ok(OK));
    assert_eq!(table.get(SENDER).unwrap().notify_pending, vec![ASYNCM]);
    assert_eq!(slot(&table, SENDER, 0).result, EDEADSRCDST);
    assert_eq!(slot(&table, SENDER, 1).result, EDEADSRCDST);
    assert_eq!(slot(&table, SENDER, 2).result, OK);
    assert_eq!(slot(&table, SENDER, 2).flags, AMF_VALID | AMF_NOTIFY_ERR | AMF_DONE);

    // a message that arrives asks for no notification on failure
    let mut table = self::table(&[entry(AMF_VALID | AMF_NOTIFY_ERR, RECEIVER, 3)]);
    table.get_mut(RECEIVER).unwrap().state = ProcessState::Receiving(ANY);
    assert_eq!(do_senda(SENDER, TABLE, 1, &mut table), Ok(OK));
    assert!(table.get(SENDER).unwrap().notify_pending.is_empty());
}

#[test]
fn senda_without_entries_gives_up_the_table() {
    let mut table = table(&mixed());
    assert_eq!(do_senda(SENDER, TABLE, 3, &mut table), Ok(OK));
    assert_eq!(table.get(SENDER).unwrap().privileges.s_asynsize, 3);
    assert_eq!(trap(&mut table, SENDER, SENDA, 0, 0x1234), Ok(()));
    let sender = table.get(SENDER).unwrap();
    assert_eq!(sender.privileges.s_asynsize, 0);
    assert_eq!(sender.privileges.s_asyntab, 0xFFFF_FFFF);
    assert_eq!(sender.regs.rax, OK as u64);
    assert!(resumed(&table, SENDER));
    // the receiver still has the sender on its list, and finds it without a table
    assert_eq!(table.get(RECEIVER).unwrap().async_pending, vec![SENDER]);
    assert_eq!(try_one(SENDER, RECEIVER, &mut table), Ok(EAGAIN));
    assert!(table.get(RECEIVER).unwrap().async_pending.is_empty());
}

#[test]
fn malformed_entries() {
    let unknown_bit = entry(AMF_VALID | 32, RECEIVER, 1);
    let no_message = entry(AMF_NOTIFY, RECEIVER, 2);
    let mut table = table(&[unknown_bit, no_message, entry(AMF_VALID, RECEIVER, 3)]);
    table.get_mut(RECEIVER).unwrap().state = ProcessState::Receiving(ANY);

    // SENDA leaves them as they are
    assert_eq!(do_senda(SENDER, TABLE, 3, &mut table), Ok(OK));
    assert_eq!(slot(&table, SENDER, 0), unknown_bit);
    assert_eq!(slot(&table, SENDER, 1), no_message);
    assert_eq!(slot(&table, SENDER, 2).flags, AMF_VALID | AMF_DONE);
    assert_eq!(buffer(&table, RECEIVER).m_type, 3);
    assert!(table.get(SENDER).unwrap().notify_pending.is_empty());

    // the scan for a receiver ends at the first of them with EINVAL
    table.get_mut(SENDER).unwrap().privileges.s_asyntab = TABLE as u32;
    table.get_mut(SENDER).unwrap().privileges.s_asynsize = 3;
    table.get_mut(RECEIVER).unwrap().async_pending.push(SENDER);
    assert_eq!(try_one(SENDER, RECEIVER, &mut table), Ok(EINVAL));
    assert_eq!(
        slot(&table, SENDER, 0),
        AsynMsg { flags: AMF_VALID | 32 | AMF_DONE, dst: RECEIVER, result: EINVAL, msg: message(1) }
    );
    assert_eq!(slot(&table, SENDER, 1), no_message);
    assert_eq!(table.get(RECEIVER).unwrap().async_pending, vec![SENDER]);
    assert!(table.get(SENDER).unwrap().notify_pending.is_empty());
    // and at the same entry again, whose flags stay what they are
    assert_eq!(try_one(SENDER, RECEIVER, &mut table), Ok(EINVAL));
    assert_eq!(slot(&table, SENDER, 0).flags, AMF_VALID | 32 | AMF_DONE);
    assert_eq!(slot(&table, SENDER, 1), no_message);

    // an entry without a message, which asks for a notification
    let mut table = self::table(&[no_message]);
    table.get_mut(SENDER).unwrap().privileges.s_asyntab = TABLE as u32;
    table.get_mut(SENDER).unwrap().privileges.s_asynsize = 1;
    assert_eq!(try_one(SENDER, RECEIVER, &mut table), Ok(EINVAL));
    assert_eq!(
        slot(&table, SENDER, 0),
        AsynMsg { flags: AMF_NOTIFY | AMF_DONE, dst: RECEIVER, result: EINVAL, msg: message(2) }
    );
    assert_eq!(table.get(SENDER).unwrap().notify_pending, vec![ASYNCM]);
    assert_eq!(table.get(RECEIVER).unwrap().async_pending, vec![SENDER]);
}

#[test]
fn done_entries_are_stable() {
    let done = AsynMsg {
        flags: AMF_VALID | AMF_DONE | AMF_NOTIFY, dst: RECEIVER, result: -7, msg: message(1),
    };
    let mut table = table(&[done, entry(AMF_VALID, RECEIVER, 2), done]);
    table.get_mut(RECEIVER).unwrap().state = ProcessState::Receiving(ANY);
    assert_eq!(do_senda(SENDER, TABLE, 3, &mut table), Ok(OK));
    assert_eq!(slot(&table, SENDER, 0), done);
    assert_eq!(slot(&table, SENDER, 2), done);
    assert_eq!(buffer(&table, RECEIVER).m_type, 2);
    assert!(table.get(SENDER).unwrap().notify_pending.is_empty());

    table.get_mut(SENDER).unwrap().privileges.s_asyntab = TABLE as u32;
    table.get_mut(SENDER).unwrap().privileges.s_asynsize = 3;
    table.get_mut(RECEIVER).unwrap().state = ProcessState::Receiving(ANY);
    assert_eq!(try_one(SENDER, RECEIVER, &mut table), Ok(EAGAIN));
    assert_eq!(slot(&table, SENDER, 0), done);
    assert_eq!(slot(&table, SENDER, 2), done);
    assert_eq!(table.get(SENDER).unwrap().privileges.s_asynsize, 0);
}

#[test]
fn scan_for_a_receiver_passes_over_what_is_not_for_it() {
    let mut table = table(&[
        entry(AMF_VALID, 43, 1),
        entry(AMF_VALID, RECEIVER, 2),
        entry(AMF_VALID, RECEIVER, 3),
    ]);
    table.get_mut(SENDER).unwrap().privileges.s_asyntab = TABLE as u32;
    table.get_mut(SENDER).unwrap().privileges.s_asynsize = 3;
    table.get_mut(RECEIVER).unwrap().async_pending = vec![43, SENDER, SENDER];

    // a receiver that does not wait for the sender gets nothing
    table.get_mut(RECEIVER).unwrap().state = ProcessState::Receiving(43);
    assert_eq!(try_one(SENDER, RECEIVER, &mut table), Ok(EAGAIN));
    assert_eq!(table.get(RECEIVER).unwrap().async_pending, vec![43, SENDER, SENDER]);
    assert_eq!(slot(&table, SENDER, 1).flags, AMF_VALID);

    table.get_mut(RECEIVER).unwrap().state = ProcessState::Receiving(ANY);
    assert_eq!(try_one(SENDER, RECEIVER, &mut table), Ok(OK));
    assert_eq!(buffer(&table, RECEIVER).m_type, 2);
    assert_eq!(slot(&table, SENDER, 0).flags, AMF_VALID);
    assert_eq!(slot(&table, SENDER, 1).flags, AMF_VALID | AMF_DONE);
    assert_eq!(slot(&table, SENDER, 2).flags, AMF_VALID);
    assert_eq!(table.get(RECEIVER).unwrap().async_pending, vec![43, SENDER, SENDER]);
    // the receiver still counts as receiving: the controller of the call moves it on
    assert_eq!(table.get(RECEIVER).unwrap().state, ProcessState::Receiving(ANY));
    assert!(!resumed(&table, RECEIVER));
}

#[test]
fn answers_and_other_messages_while_an_answer_is_pending() {
    let mut table = table(&[
        entry(AMF_VALID, RECEIVER, 1),
        entry(AMF_VALID | AMF_NOREPLY, RECEIVER, 2),
    ]);
    table.get_mut(SENDER).unwrap().privileges.s_asyntab = TABLE as u32;
    table.get_mut(SENDER).unwrap().privileges.s_asynsize = 2;
    table.get_mut(RECEIVER).unwrap().state = ProcessState::Receiving(SENDER);
    table.get_mut(RECEIVER).unwrap().reply_pending = true;
    assert_eq!(try_one(SENDER, RECEIVER, &mut table), Ok(OK));
    assert_eq!(buffer(&table, RECEIVER).m_type, 2);
    assert_eq!(slot(&table, SENDER, 0).flags, AMF_VALID);

    // SENDA keeps back what is no answer
    let mut table = self::table(&[
        entry(AMF_VALID, RECEIVER, 1),
        entry(AMF_VALID | AMF_NOREPLY, RECEIVER, 2),
    ]);
    table.get_mut(RECEIVER).unwrap().state = ProcessState::Receiving(SENDER);
    table.get_mut(RECEIVER).unwrap().reply_pending = true;
    assert_eq!(do_senda(SENDER, TABLE, 2, &mut table), Ok(OK));
    assert_eq!(buffer(&table, RECEIVER).m_type, 2);
    assert_eq!(slot(&table, SENDER, 0).flags, AMF_VALID);
    assert_eq!(slot(&table, SENDER, 1).flags, AMF_VALID | AMF_NOREPLY | AMF_DONE);
    assert_eq!(table.get(RECEIVER).unwrap().async_pending, vec![SENDER]);
    assert_eq!(table.get(SENDER).unwrap().privileges.s_asynsize, 2);
}

#[test]
fn try_async_goes_through_the_pending_senders() {
    let mut table = table(&[entry(AMF_VALID, RECEIVER, 9)]);
    assert_eq!(try_async(RECEIVER, &mut table), Ok(ESRCH));
    table.insert(guest(1043, 0x5000), 43).unwrap();
    table.get_mut(SENDER).unwrap().privileges.s_asyntab = TABLE as u32;
    table.get_mut(SENDER).unwrap().privileges.s_asynsize = 1;
    table.get_mut(RECEIVER).unwrap().async_pending = vec![99, 43, SENDER, 43];
    table.get_mut(RECEIVER).unwrap().state = ProcessState::Receiving(ANY);
    assert_eq!(try_async(RECEIVER, &mut table), Ok(OK));
    assert_eq!(buffer(&table, RECEIVER).m_type, 9);
    // 43 has no table and leaves the list; the sender is put at its end again
    assert_eq!(table.get(RECEIVER).unwrap().async_pending, vec![99, 43, SENDER]);
    assert!(may_asynsend_to(SENDER, RECEIVER, &table));
}

#[test]
fn table_outside_the_window() {
    let mut table = table(&mixed());
    assert_eq!(do_senda(SENDER, TABLE, 4, &mut table), Err(Error::Fault(TABLE + 3 * 76)));
    assert_eq!(table.get(SENDER).unwrap().privileges.s_asynsize, 0);
    let mut table = self::table(&mixed());
    assert_eq!(do_senda(SENDER, 0x8000, 1, &mut table), Err(Error::Fault(0x8000)));
    assert_eq!(
        do_senda(SENDER, u64::MAX - 10, 2, &mut table),
        Err(Error::Fault(u64::MAX - 10))
    );
    assert_eq!(trap(&mut table, SENDER, SENDA, 1, 0x8000), Err(Error::Fault(0x8000)));
    assert!(!resumed(&table, SENDER));
}
