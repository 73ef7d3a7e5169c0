use minix_ipc::utils::guest_memory::{Error, GuestMemory};
use minix_ipc::utils::message::Message;
use minix_ipc::utils::minix_process::{Effect, Instruction, MinixProcess, ProcessState, Registers};

fn guest() -> MinixProcess {
    let mut process = MinixProcess::new(777, "test_bin/guest");
    let bytes: Vec<u8> = (0..64u8).collect();
    process.memory.extend(0x1000, &bytes);
    process
}

#[test]
fn fresh_process() {
    let process = MinixProcess::new(1234, "server_bin/rs");
    assert_eq!(process.pid(), 1234);
    assert_eq!(process.state, ProcessState::Running);
    assert_eq!(process.name, "server_bin/rs");
    assert!(!process.reply_pending);
    assert_eq!(process.s_flags, 0);
    assert!(process.notify_pending.is_empty());
    assert!(process.async_pending.is_empty());
    assert_eq!(process.minix_kerninfo_addr, None);
    assert_eq!(process.privileges.s_asynsize, 0);
    assert_eq!(process.privileges.s_asyntab, 0xFFFF_FFFF);
    assert_eq!(process.get_regs(), Registers::default());
    assert!(process.effects.is_empty());
    assert_eq!(process.read(0), Err(Error::Fault(0)));
}

#[test]
fn window_holds_what_was_fetched() {
    let mut memory = GuestMemory::new();
    assert_eq!(memory.byte(5), None);
    assert!(memory.is_mapped(5, 0));
    assert!(!memory.is_mapped(5, 1));
    memory.extend(4, &[1, 2, 3, 4, 5, 6, 7, 8, 9]);
    assert_eq!(memory.byte(3), None);
    assert_eq!(memory.byte(4), Some(1));
    assert_eq!(memory.byte(12), Some(9));
    assert_eq!(memory.byte(13), None);
    assert!(memory.is_mapped(4, 9));
    assert!(!memory.is_mapped(4, 10));
    assert!(memory.words_mapped(4, 1));
    assert!(!memory.words_mapped(4, 2));
    assert_eq!(memory.read(4), Ok(0x0807060504030201));
    assert_eq!(memory.read(5), Ok(0x0908070605040302));
    assert_eq!(memory.read(6), Err(Error::Fault(6)));
    assert_eq!(memory.write(6, 0), Err(Error::Fault(6)));
    assert_eq!(memory.write(5, 0x1122334455667788), Ok(()));
    assert_eq!(memory.byte(4), Some(1));
    assert_eq!(memory.byte(5), Some(0x88));
    assert_eq!(memory.byte(12), Some(0x11));
    memory.clear();
    assert_eq!(memory.byte(4), None);
}

#[test]
fn window_ends_at_the_last_address() {
    let mut memory = GuestMemory::new();
    memory.extend(u64::MAX - 3, &[1, 2, 3, 4, 5, 6]);
    assert_eq!(memory.byte(u64::MAX), Some(4));
    assert_eq!(memory.byte(0), None);
    assert!(memory.is_mapped(u64::MAX - 3, 4));
    assert!(!memory.is_mapped(u64::MAX - 3, 5));
    assert_eq!(memory.read(u64::MAX - 3), Err(Error::Fault(u64::MAX - 3)));
}

#[test]
fn word_access_goes_to_the_effects() {
    let mut process = guest();
    assert_eq!(process.read(0x1008), Ok(0x0F0E0D0C0B0A0908));
    assert_eq!(process.write(0x1008, 42), Ok(()));
    assert_eq!(process.read(0x1008), Ok(42));
    assert_eq!(process.write(0x0FFF, 42), Err(Error::Fault(0x0FFF)));
    assert_eq!(process.effects, vec![Effect::Write { addr: 0x1008, data: 42 }]);
    assert_eq!(
        process.take_effects(),
        vec![Effect::Write { addr: 0x1008, data: 42 }]
    );
    assert!(process.effects.is_empty());
}

#[test]
fn bytes_are_read_word_by_word() {
    let process = guest();
    assert_eq!(process.read_buf_u8(0x1003, 5), Ok(vec![3, 4, 5, 6, 7]));
    assert_eq!(process.read_buf_u8(0x1003, 0), Ok(vec![]));
    assert_eq!(process.read_buf_u8(0x1038, 8), Ok(vec![56, 57, 58, 59, 60, 61, 62, 63]));
    // the last word of the read reaches behind the window
    assert_eq!(process.read_buf_u8(0x1038, 9), Err(Error::Fault(0x1038)));
    assert_eq!(process.read_buf_u8(0x1039, 1), Err(Error::Fault(0x1039)));
}

#[test]
fn bytes_are_written_without_touching_what_lies_behind() {
    let mut process = guest();
    assert_eq!(
        process.write_buf_u8(0x1002, &[0xA0, 0xA1, 0xA2, 0xA3, 0xA4, 0xA5, 0xA6, 0xA7, 0xA8, 0xA9]),
        Ok(()),
    );
    assert_eq!(
        process.read_buf_u8(0x1000, 16),
        Ok(vec![0, 1, 0xA0, 0xA1, 0xA2, 0xA3, 0xA4, 0xA5, 0xA6, 0xA7, 0xA8, 0xA9, 12, 13, 14, 15])
    );
    assert_eq!(
        process.effects,
        vec![
            Effect::Write { addr: 0x1002, data: 0xA7A6A5A4A3A2A1A0 },
            Effect::Write { addr: 0x100A, data: 0x11100F0E0D0CA9A8 },
        ]
    );
    let before = process.effects.len();
    assert_eq!(process.write_buf_u8(0x103C, &[1, 2, 3, 4]), Err(Error::Fault(0x103C)));
    assert_eq!(process.effects.len(), before);
    assert_eq!(process.read_buf_u8(0x1038, 8), Ok(vec![56, 57, 58, 59, 60, 61, 62, 63]));
}

#[test]
fn words_are_written_all_or_none() {
    let mut process = guest();
    assert_eq!(process.write_buf(0x1030, &[1, 2, 3]), Err(Error::Fault(0x1030)));
    assert!(process.effects.is_empty());
    assert_eq!(process.read(0x1030), Ok(0x3736353433323130));
    assert_eq!(process.write_buf(0x1030, &[1, 2]), Ok(()));
    assert_eq!(process.read(0x1030), Ok(1));
    assert_eq!(process.read(0x1038), Ok(2));
    assert_eq!(
        process.effects,
        vec![
            Effect::Write { addr: 0x1030, data: 1 },
            Effect::Write { addr: 0x1038, data: 2 },
        ]
    );
}

#[test]
fn a_32_bit_value_leaves_the_next_four_bytes() {
    let mut process = guest();
    assert_eq!(process.write_32(0x1010, 0x01000000), Ok(()));
    assert_eq!(process.read(0x1010), Ok(0x1716151401000000));
    assert_eq!(process.write_32(0x103C, 1), Err(Error::Fault(0x103C)));
}

#[test]
fn message_in_guest_memory() {
    let mut process = guest();
    let message = Message {
        source: -5,
        m_type: 0x1000,
        payload: [9, 8, 7, 6, 5, 4, 3, 2, 1, 0, 1, 2, 3, 0xFFFF_FFFF],
    };
    assert_eq!(process.write_message(0x1000, message), Ok(()));
    assert_eq!(process.read_message(0x1000), Ok(message));
    assert_eq!(process.effects.len(), 8);
    assert_eq!(process.effects[0], Effect::Write { addr: 0x1000, data: 0x0000_1000_FFFF_FFFB });
    assert_eq!(process.effects[7], Effect::Write { addr: 0x1038, data: 0xFFFF_FFFF_0000_0003 });
    assert_eq!(process.write_message(0x1008, message), Err(Error::Fault(0x1008)));
    assert_eq!(process.read_message(0x1008), Err(Error::Fault(0x1008)));
    assert_eq!(process.effects.len(), 8);
    assert_eq!(process.read_message(0x1000), Ok(message));
}

#[test]
fn instruction_at_the_program_counter() {
    let mut process = MinixProcess::new(1, "guest");
    process.memory.extend(0x400000, &[0xCD, 0x21, 0x90, 0x90, 0x90, 0x90, 0x90, 0x90, 0xCD, 0x20]);
    process.regs.rip = 0x400000;
    assert_eq!(process.read_instruction(), Ok(Instruction::Int(0x21)));
    process.regs.rip = 0x400001;
    assert_eq!(process.read_instruction(), Ok(Instruction::Other));
    process.regs.rip = 0x400002;
    assert_eq!(process.read_instruction(), Ok(Instruction::Other));
    process.regs.rip = 0x400003;
    assert_eq!(process.read_instruction(), Err(Error::Fault(0x400003)));
    process.memory.extend(0x40000A, &[0; 8]);
    process.regs.rip = 0x400008;
    assert_eq!(process.read_instruction(), Ok(Instruction::Int(0x20)));
}

#[test]
fn registers_and_resuming_go_to_the_effects() {
    let mut process = MinixProcess::new(1, "guest");
    let mut regs = process.get_regs();
    regs.rax = 7;
    regs.rsp = 0x7000;
    process.set_regs(regs);
    assert_eq!(process.get_regs().rax, 7);
    process.cont();
    process.cause_signal(Some(11));
    process.attach_shared(0xF100_2000);
    assert_eq!(
        process.effects,
        vec![
            Effect::SetRegs(regs),
            Effect::Continue { signal: None },
            Effect::Continue { signal: Some(11) },
            Effect::AttachShared { addr: 0xF100_2000 },
        ]
    );
}
