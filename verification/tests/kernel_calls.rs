use minix_ipc::sys::do_diagctl::do_diagctl;
use minix_ipc::sys::do_getinfo::{do_getinfo, get_whoami, getinfo_window, write_result};
use minix_ipc::sys::payloads::{MessageSysDiagCtl, MessageSysGetInfo};
use minix_ipc::sys::request::{GET_HZ, GET_IMAGE, GET_KINFO, GET_MONPARAMS, GET_PRIV, GET_WHOAMI};
use minix_ipc::sys::types::boot_image::{BootImage, ProcName};
use minix_ipc::sys::types::privileges::{Priv, PRIV_SIZE};
use minix_ipc::sys::types::bitmap_chunks;
use minix_ipc::sys::{
    call_vec, do_kernel_call, kernel_call_windows, sys_unimplemented, KernelCall, KERNEL_CALL,
    NR_KERNEL_CALLS,
};
use minix_ipc::trap::Window;
use minix_ipc::utils::guest_memory::Error;
use minix_ipc::utils::message::{Message, Payload};
use minix_ipc::utils::minix_errno::{E2BIG, EBADREQUEST, EINVAL, OK};
use minix_ipc::utils::minix_process::{Effect, MinixProcess};
use minix_ipc::utils::minix_process_table::MinixProcessTable;

const CALLER: i32 = 12;
const MESSAGE: u64 = 0x1000;
const ANSWER: u32 = 0x4000;

fn request(request: i32, val_ptr: u32, val_len: i32) -> MessageSysGetInfo {
    MessageSysGetInfo {
        request,
        endpt: 0,
        val_ptr,
        val_len,
        val_ptr2: 0,
        val_len2_e: 0,
        padding: [0; 32],
    }
}

fn getinfo(info: MessageSysGetInfo) -> Message {
    Message { source: 0, m_type: 0x600 + 26, payload: info.into_payload() }
}

fn table(message: Message) -> MinixProcessTable {
    let mut process = MinixProcess::new(2012, "server_bin/is");
    process.s_flags = 0x100;
    process.regs.rip = 0x400000;
    process.regs.rax = MESSAGE;
    process.memory.extend(MESSAGE, &message.to_bytes());
    process.memory.extend(ANSWER as u64, &[0x55; 1100]);
    let mut table = MinixProcessTable::new();
    table.insert(process, CALLER).unwrap();
    table
}

fn message_in_guest(table: &MinixProcessTable) -> Message {
    table.get(CALLER).unwrap().read_message(MESSAGE).unwrap()
}

fn answer(table: &MinixProcessTable, len: usize) -> Vec<u8> {
    let process = table.get(CALLER).unwrap();
    (0..len).map(|i| process.memory.byte(ANSWER as u64 + i as u64).unwrap()).collect()
}

#[test]
fn table_of_handlers() {
    assert_eq!(KERNEL_CALL, 0x600);
    assert_eq!(NR_KERNEL_CALLS, 58);
    let handlers = call_vec();
    for (index, handler) in handlers.iter().enumerate() {
        if index == 26 {
            assert_eq!(*handler, KernelCall::GetInfo);
        } else {
            assert_eq!(*handler, KernelCall::Unimplemented);
        }
    }
    let mut table = table(getinfo(request(GET_HZ, ANSWER, 0)));
    assert_eq!(
        sys_unimplemented(CALLER, getinfo(request(GET_HZ, ANSWER, 0)), &mut table),
        Ok(EBADREQUEST)
    );
}

#[test]
fn clock_frequency() {
    let mut table = table(getinfo(request(GET_HZ, ANSWER, 4)));
    assert_eq!(do_kernel_call(CALLER, &mut table), Ok(()));
    assert_eq!(answer(&table, 8), vec![0, 0, 0, 1, 0x55, 0x55, 0x55, 0x55]);
    let answered = message_in_guest(&table);
    assert_eq!(answered.m_type, OK as u32);
    assert_eq!(answered.source, 0);
    assert_eq!(answered.payload, request(GET_HZ, ANSWER, 4).into_payload());
    let process = table.get(CALLER).unwrap();
    assert_eq!(process.regs.rip, 0x400002);
    assert_eq!(process.regs.rax, MESSAGE);
    assert_eq!(process.effects.len(), 11);
    assert!(matches!(process.effects[0], Effect::SetRegs(_)));
    assert_eq!(
        process.effects[1],
        Effect::Write { addr: ANSWER as u64, data: 0x5555_5555_0100_0000 },
    );
    assert_eq!(process.effects[2], Effect::Write { addr: MESSAGE, data: 0 });
    assert_eq!(process.effects[10], Effect::Continue { signal: None });
}

#[test]
fn request_with_too_short_a_buffer() {
    let mut table = table(getinfo(request(GET_HZ, ANSWER, 3)));
    assert_eq!(do_kernel_call(CALLER, &mut table), Ok(()));
    assert_eq!(message_in_guest(&table).m_type, E2BIG as u32);
    assert_eq!(answer(&table, 4), vec![0x55; 4]);

    let mut table = self::table(getinfo(request(GET_MONPARAMS, ANSWER, 127)));
    assert_eq!(
        do_getinfo(CALLER, getinfo(request(GET_MONPARAMS, ANSWER, 127)), &mut table),
        Ok(E2BIG)
    );
    assert_eq!(
        do_getinfo(CALLER, getinfo(request(GET_MONPARAMS, ANSWER, 128)), &mut table),
        Ok(OK)
    );
    assert_eq!(answer(&table, 1024), vec![0; 1024]);
    assert_eq!(answer(&table, 1025)[1024], 0x55);
}

#[test]
fn who_am_i() {
    let mut table = table(getinfo(request(GET_WHOAMI, 0, 0)));
    assert_eq!(do_kernel_call(CALLER, &mut table), Ok(()));
    let answered = message_in_guest(&table);
    assert_eq!(answered.m_type, OK as u32);
    assert_eq!(answered.payload, [12, 0x100, 0, 0, 0, 0, 0, 0, 0, 0, 0, 0, 0, 0]);

    let mut process = MinixProcess::new(1, "rs");
    process.s_flags = 0x8000;
    process.regs.rax = 0x2000;
    process.memory.extend(0x2000, &[0xAA; 64]);
    assert_eq!(get_whoami(2, &mut process), Ok(OK));
    let answered = process.read_message(0x2000).unwrap();
    assert_eq!(answered.source, 0xAAAAAAAAu32 as i32);
    assert_eq!(answered.m_type, 0xAAAAAAAA);
    assert_eq!(answered.payload, [2, 0x8000, 0, 0, 0, 0, 0, 0, 0, 0, 0, 0, 0, 0]);
    process.regs.rax = u64::MAX - 3;
    assert_eq!(get_whoami(2, &mut process), Err(Error::Fault(u64::MAX - 3)));
    process.regs.rax = 0x2008;
    assert_eq!(get_whoami(2, &mut process), Err(Error::Fault(0x2010)));
}

#[test]
fn boot_image_table() {
    let image = BootImage::image();
    assert_eq!(image.len(), 68);
    // asyncm: number and endpoint -5
    assert_eq!(image[0], 0x6E79_7361_FFFF_FFFB);
    assert_eq!(image[1], u64::from_le_bytes([b'c', b'm', 0, 0, 0, 0, 0, 0]));
    assert_eq!(image[2], 0xFFFF_FFFB_0000_0000);
    assert_eq!(image[3], 0);
    // init is the last entry
    assert_eq!(image[64], 11 | (u64::from_le_bytes([0, 0, 0, 0, b'i', b'n', b'i', b't'])));
    assert_eq!(image[66], 11 << 32);
    assert_eq!(image[67], 0);

    let mut table = table(getinfo(request(GET_IMAGE, ANSWER, 0)));
    assert_eq!(do_kernel_call(CALLER, &mut table), Ok(()));
    assert_eq!(message_in_guest(&table).m_type, OK as u32);
    let bytes = answer(&table, 544 + 1);
    assert_eq!(&bytes[0..4], &[0xFB, 0xFF, 0xFF, 0xFF]);
    assert_eq!(&bytes[4..20], b"asyncm\0\0\0\0\0\0\0\0\0\0");
    assert_eq!(&bytes[32 * 10..32 * 10 + 4], &[3, 0, 0, 0]);
    assert_eq!(&bytes[32 * 10 + 4..32 * 10 + 10], b"memory");
    assert_eq!(bytes[544], 0x55);

    let entry = BootImage::new(5, b"tty");
    assert_eq!(entry.proc_nr, 5);
    assert_eq!(entry.endpoint, 5);
    assert_eq!(entry.start_addr, 0);
    assert_eq!(entry.len, 0);
    assert_eq!(entry.proc_name, ProcName::from(b"tty"));
}

#[test]
fn process_names_fill_sixteen_bytes() {
    assert_eq!(ProcName::from(b"rs").bytes, *b"rs\0\0\0\0\0\0\0\0\0\0\0\0\0\0");
    assert_eq!(ProcName::from(b"").bytes, [0; 16]);
    assert_eq!(ProcName::from(b"0123456789abcdef").bytes, *b"0123456789abcdef");
    assert_eq!(ProcName::from(b"0123456789abcdefgh").bytes, *b"0123456789abcdef");
}

#[test]
fn privilege_structure() {
    assert_eq!(PRIV_SIZE, 884);
    let mut privileges = Priv::default();
    assert_eq!(privileges.as_buf(), [0u8; 884]);
    privileges.s_proc_nr = -2;
    privileges.s_id = -3;
    privileges.s_flags = 0x100;
    privileges.s_asyntab = 0x3000;
    privileges.s_asynsize = 3;
    privileges.s_asynendpoint = 41;
    privileges.s_trap_mask = 0x0102;
    privileges.s_ipc_to.chunk[1].0 = 0xA1A2A3A4;
    privileges.s_diag_sig = 9;
    privileges.s_nr_io_range = 1;
    privileges.s_io_tab[63].ior_limit = 0xB1B2B3B4;
    privileges.s_mem_tab[0].mr_base = 0xC1C2C3C4;
    privileges.s_irq_tab[15] = -1;
    privileges.s_state_entries = 0x01020304;
    let bytes = privileges.as_buf();
    assert_eq!(&bytes[0..4], &[0xFE, 0xFF, 0xFF, 0xFF]);
    assert_eq!(&bytes[4..6], &[0xFD, 0xFF]);
    assert_eq!(&bytes[6..8], &[0x00, 0x01]);
    assert_eq!(&bytes[12..16], &[0x00, 0x30, 0, 0]);
    assert_eq!(&bytes[16..20], &[3, 0, 0, 0]);
    assert_eq!(&bytes[20..24], &[41, 0, 0, 0]);
    assert_eq!(&bytes[24..28], &[0x02, 0x01, 0, 0]);
    assert_eq!(&bytes[32..36], &[0xA4, 0xA3, 0xA2, 0xA1]);
    assert_eq!(&bytes[112..116], &[9, 0, 0, 0]);
    assert_eq!(&bytes[116..120], &[1, 0, 0, 0]);
    assert_eq!(&bytes[628..632], &[0xB4, 0xB3, 0xB2, 0xB1]);
    assert_eq!(&bytes[636..640], &[0xC4, 0xC3, 0xC2, 0xC1]);
    assert_eq!(&bytes[860..864], &[0xFF; 4]);
    assert_eq!(&bytes[880..884], &[4, 3, 2, 1]);

    let mut table = table(getinfo(request(GET_PRIV, ANSWER, 0)));
    table.get_mut(CALLER).unwrap().privileges = privileges;
    assert_eq!(do_kernel_call(CALLER, &mut table), Ok(()));
    assert_eq!(message_in_guest(&table).m_type, OK as u32);
    assert_eq!(answer(&table, 884), bytes.to_vec());
    assert_eq!(answer(&table, 888)[884..], [0x55; 4]);
}

#[test]
fn chunks_of_a_bit_map() {
    assert_eq!(bitmap_chunks(0), 0);
    assert_eq!(bitmap_chunks(1), 1);
    assert_eq!(bitmap_chunks(32), 1);
    assert_eq!(bitmap_chunks(33), 2);
    assert_eq!(bitmap_chunks(58), 2);
    assert_eq!(bitmap_chunks(64), 2);
    assert_eq!(bitmap_chunks(usize::MAX), usize::MAX / 32 + 1);
}

#[test]
fn request_that_is_not_served() {
    let mut table = table(getinfo(request(GET_KINFO, ANSWER, 0)));
    assert_eq!(do_kernel_call(CALLER, &mut table), Ok(()));
    assert_eq!(message_in_guest(&table).m_type, EINVAL as u32);
    assert_eq!(answer(&table, 8), vec![0x55; 8]);
}

#[test]
fn call_that_is_not_served() {
    for m_type in [0u32, 0x5FF, 0x600, 0x600 + 25, 0x600 + 27, 0x600 + 57, 0x600 + 58, u32::MAX] {
        let mut message = getinfo(request(GET_HZ, ANSWER, 0));
        message.m_type = m_type;
        let mut table = table(message);
        assert_eq!(do_kernel_call(CALLER, &mut table), Ok(()));
        assert_eq!(message_in_guest(&table).m_type, EBADREQUEST as u32);
        assert_eq!(answer(&table, 8), vec![0x55; 8]);
        assert_eq!(
            table.get(CALLER).unwrap().effects.last(),
            Some(&Effect::Continue { signal: None })
        );
    }
}

#[test]
fn message_or_answer_outside_the_window() {
    let mut table = table(getinfo(request(GET_HZ, 0x9000, 0)));
    assert_eq!(do_kernel_call(CALLER, &mut table), Err(Error::Fault(0x9000)));
    assert_eq!(message_in_guest(&table), getinfo(request(GET_HZ, 0x9000, 0)));
    let process = table.get(CALLER).unwrap();
    assert_eq!(process.effects.len(), 1);

    let mut table = self::table(getinfo(request(GET_HZ, ANSWER, 0)));
    table.get_mut(CALLER).unwrap().regs.rax = 0x9000;
    assert_eq!(do_kernel_call(CALLER, &mut table), Err(Error::Fault(0x9000)));
    assert_eq!(answer(&table, 4), vec![0x55; 4]);
}

#[test]
fn result_is_written_where_the_request_says() {
    let mut process = MinixProcess::new(1, "rs");
    process.memory.extend(0x4000, &[0x55; 24]);
    assert_eq!(write_result(&[1, 2, 3], request(0, 0x4008, 0), &mut process), Ok(OK));
    assert_eq!(process.read(0x4008), Ok(0x5555555555030201));
    assert_eq!(write_result(&[9; 16], request(0, 0x4000, 1), &mut process), Ok(E2BIG));
    assert_eq!(write_result(&[9; 16], request(0, 0x4000, 2), &mut process), Ok(OK));
    assert_eq!(process.read(0x4008), Ok(0x0909090909090909));
    assert_eq!(write_result(&[9; 16], request(0, 0x4000, -1), &mut process), Ok(OK));
    assert_eq!(
        write_result(&[9; 17], request(0, 0x4008, 0), &mut process),
        Err(Error::Fault(0x4008))
    );
}

#[test]
fn windows_of_a_kernel_call() {
    let table = table(getinfo(request(GET_PRIV, ANSWER, 0)));
    assert_eq!(
        kernel_call_windows(CALLER, &table),
        vec![
            Window { endpoint: CALLER, addr: MESSAGE, len: 64 },
            Window { endpoint: CALLER, addr: ANSWER as u64, len: 888 },
        ]
    );
    let table = self::table(getinfo(request(GET_WHOAMI, ANSWER, 0)));
    assert_eq!(
        kernel_call_windows(CALLER, &table),
        vec![Window { endpoint: CALLER, addr: MESSAGE, len: 64 }]
    );
    let mut table = self::table(getinfo(request(GET_HZ, ANSWER, 0)));
    table.get_mut(CALLER).unwrap().regs.rax = 0x9000;
    assert_eq!(
        kernel_call_windows(CALLER, &table),
        vec![Window { endpoint: CALLER, addr: 0x9000, len: 64 }]
    );
    let message = getinfo(request(GET_IMAGE, 7, 0));
    assert_eq!(
        getinfo_window(3, &message),
        Some(Window { endpoint: 3, addr: 7, len: 544 })
    );
    assert_eq!(
        getinfo_window(3, &getinfo(request(GET_MONPARAMS, 7, 0))),
        Some(Window { endpoint: 3, addr: 7, len: 1024 })
    );
    assert_eq!(
        getinfo_window(3, &getinfo(request(GET_HZ, 7, 0))),
        Some(Window { endpoint: 3, addr: 7, len: 8 })
    );
    assert_eq!(getinfo_window(3, &getinfo(request(GET_KINFO, 7, 0))), None);
}

#[test]
fn diagnostics() {
    let diag = |code: i32, buf: u32, len: i32| Message {
        source: 0,
        m_type: 0x600 + 44,
        payload: MessageSysDiagCtl { code, buf, len, endpoint: 0, padding: [0; 40] }.into_payload(),
    };
    let mut table = table(diag(1, ANSWER, 5));
    table.get_mut(CALLER).unwrap().memory.extend(ANSWER as u64, b"hello, world");
    assert_eq!(do_diagctl(CALLER, diag(1, ANSWER, 5), &table), Ok((OK, b"hello".to_vec())));
    assert_eq!(do_diagctl(CALLER, diag(1, ANSWER, 0), &table), Ok((OK, vec![])));
    assert_eq!(do_diagctl(CALLER, diag(1, ANSWER, -1), &table), Ok((EINVAL, vec![])));
    assert_eq!(do_diagctl(CALLER, diag(1, 0x9000, 5), &table), Err(Error::Fault(0x9000)));
    assert_eq!(do_diagctl(CALLER, diag(2, ANSWER, 5), &table), Ok((EBADREQUEST, vec![])));
    assert_eq!(do_diagctl(CALLER, diag(3, ANSWER, 5), &table), Ok((EBADREQUEST, vec![])));
    assert_eq!(do_diagctl(CALLER, diag(4, ANSWER, 5), &table), Ok((EBADREQUEST, vec![])));
    assert_eq!(do_diagctl(CALLER, diag(0, ANSWER, 5), &table), Ok((EINVAL, vec![])));
    assert_eq!(do_diagctl(CALLER, diag(5, ANSWER, 5), &table), Ok((EINVAL, vec![])));
    // the call is not in the table of handlers
    assert_eq!(do_kernel_call(CALLER, &mut table), Ok(()));
    assert_eq!(message_in_guest(&table).m_type, EBADREQUEST as u32);
}
