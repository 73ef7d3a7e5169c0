//! One guest: its place in the IPC protocol and the supervisor's picture of
//! the stopped host process behind it.

use crate::sys::types::privileges::{Priv, NO_ASYN_TABLE};
use super::endpoint::Endpoint;
use super::guest_memory::{
    bytes_at, extended, lemma_mapped_sub, lemma_range_split, lemma_store_append, lemma_store_frame,
    lemma_store_read, mapped, store, word_at, Error, GuestMemory,
};
use super::message::{lemma_words_wire, Message, MESSAGE_SIZE};
use super::message_queue::MessageQueue;
use super::wire::{lemma_u64s_wire_push, read_u64, u64_at, u64s_wire};
use vstd::bytes::*;
use vstd::prelude::*;

verus! {

/// Where a process stands in the IPC protocol.
#[derive(Debug, Clone, Copy, PartialEq, Eq, Structural)]
pub enum ProcessState {
    Running,
    /// Blocked until the target receives.
    Sending(Endpoint),
    /// Blocked until a message from the source arrives.
    Receiving(Endpoint),
    /// Blocked until the peer receives, and then until it answers.
    SendReceiving(Endpoint),
}

/// What stands at the program counter of a stopped guest.
#[derive(Debug, Clone, Copy, PartialEq, Eq, Structural)]
pub enum Instruction {
    /// A software interrupt with its vector.
    Int(u8),
    Other,
}

/// The general registers of a guest.
#[derive(Debug, Clone, Copy, PartialEq, Eq, Structural)]
pub struct Registers {
    pub r15: u64,
    pub r14: u64,
    pub r13: u64,
    pub r12: u64,
    pub rbp: u64,
    pub rbx: u64,
    pub r11: u64,
    pub r10: u64,
    pub r9: u64,
    pub r8: u64,
    pub rax: u64,
    pub rcx: u64,
    pub rdx: u64,
    pub rsi: u64,
    pub rdi: u64,
    pub orig_rax: u64,
    pub rip: u64,
    pub cs: u64,
    pub eflags: u64,
    pub rsp: u64,
    pub ss: u64,
    pub fs_base: u64,
    pub gs_base: u64,
    pub ds: u64,
    pub es: u64,
    pub fs: u64,
    pub gs: u64,
}

impl Default for Registers {
    fn default() -> (r: Registers)
        ensures
            r == Registers::zeroed(),
    {
        Registers {
            r15: 0,
            r14: 0,
            r13: 0,
            r12: 0,
            rbp: 0,
            rbx: 0,
            r11: 0,
            r10: 0,
            r9: 0,
            r8: 0,
            rax: 0,
            rcx: 0,
            rdx: 0,
            rsi: 0,
            rdi: 0,
            orig_rax: 0,
            rip: 0,
            cs: 0,
            eflags: 0,
            rsp: 0,
            ss: 0,
            fs_base: 0,
            gs_base: 0,
            ds: 0,
            es: 0,
            fs: 0,
            gs: 0,
        }
    }
}

impl Registers {
    /// Every register zero.
    pub open spec fn zeroed() -> Registers {
        Registers {
            r15: 0,
            r14: 0,
            r13: 0,
            r12: 0,
            rbp: 0,
            rbx: 0,
            r11: 0,
            r10: 0,
            r9: 0,
            r8: 0,
            rax: 0,
            rcx: 0,
            rdx: 0,
            rsi: 0,
            rdi: 0,
            orig_rax: 0,
            rip: 0,
            cs: 0,
            eflags: 0,
            rsp: 0,
            ss: 0,
            fs_base: 0,
            gs_base: 0,
            ds: 0,
            es: 0,
            fs: 0,
            gs: 0,
        }
    }
}

/// Something the supervisor has decided and the host process has not seen
/// yet. The controller carries the effects of a guest out in their order.
#[derive(Debug, Clone, Copy, PartialEq, Eq, Structural)]
pub enum Effect {
    /// Set the registers.
    SetRegs(Registers),
    /// Store one word.
    Write { addr: u64, data: u64 },
    /// Let the guest run again, with a signal or without one.
    Continue { signal: Option<i32> },
    /// Map the shared kernel information page at `addr`.
    AttachShared { addr: u64 },
}

/// Size of the record of the arguments of a guest, in bytes.
pub const PS_STRINGS_SIZE: u64 = 16;

/// The record of the arguments and of the environment that a guest was
/// started with. At its start a guest finds a pointer to it in `rbx`.
#[derive(Debug, Clone, Copy, PartialEq, Eq, Structural)]
pub struct PsStrings {
    /// Address of the argument strings.
    pub ps_argvstr: u32,
    /// Number of argument strings.
    pub ps_nargvstr: u32,
    /// Address of the environment strings.
    pub ps_envstr: u32,
    /// Number of environment strings.
    pub ps_nenvstr: u32,
}

impl PsStrings {
    /// The two words that hold the record in guest memory.
    pub open spec fn words(self) -> Seq<u64> {
        seq![
            (self.ps_argvstr + self.ps_nargvstr * 0x1_0000_0000) as u64,
            (self.ps_envstr + self.ps_nenvstr * 0x1_0000_0000) as u64,
        ]
    }

    /// The two words that hold the record in guest memory.
    pub fn to_words(&self) -> (words: [u64; 2])
        ensures
            words@ == self.words(),
    {
        let words: [u64; 2] = [
            self.ps_argvstr as u64 + self.ps_nargvstr as u64 * 0x1_0000_0000,
            self.ps_envstr as u64 + self.ps_nenvstr as u64 * 0x1_0000_0000,
        ];
        proof {
            assert(words@ =~= self.words());
        }
        words
    }
}

/// The number of bytes that the words covering `len` bytes take.
pub open spec fn padded_len(len: nat) -> nat {
    (8 * ((len + 7) / 8)) as nat
}

/// The effects of storing `words` from `addr` on, one word after the other.
pub open spec fn write_effects(addr: u64, words: Seq<u64>) -> Seq<Effect> {
    Seq::new(words.len(), |k: int| Effect::Write { addr: (addr + 8 * k) as u64, data: words[k] })
}

/// What the contracts say of a process: every field as a mathematical value.
pub struct ProcessView {
    pub pid: i32,
    pub state: ProcessState,
    pub queue: Seq<(Endpoint, Message)>,
    pub reply_pending: bool,
    pub name: Seq<char>,
    pub s_flags: u16,
    pub privileges: Priv,
    pub notify_pending: Seq<Endpoint>,
    pub async_pending: Seq<Endpoint>,
    pub minix_kerninfo_addr: Option<u32>,
    pub regs: Registers,
    pub memory: Map<u64, u8>,
    pub effects: Seq<Effect>,
}

impl ProcessView {
    pub open spec fn with_state(self, state: ProcessState) -> ProcessView {
        ProcessView { state, ..self }
    }

    pub open spec fn with_reply_pending(self, reply_pending: bool) -> ProcessView {
        ProcessView { reply_pending, ..self }
    }

    pub open spec fn with_queue(self, queue: Seq<(Endpoint, Message)>) -> ProcessView {
        ProcessView { queue, ..self }
    }

    pub open spec fn with_notify_pending(self, notify_pending: Seq<Endpoint>) -> ProcessView {
        ProcessView { notify_pending, ..self }
    }

    pub open spec fn with_async_pending(self, async_pending: Seq<Endpoint>) -> ProcessView {
        ProcessView { async_pending, ..self }
    }

    pub open spec fn with_privileges(self, privileges: Priv) -> ProcessView {
        ProcessView { privileges, ..self }
    }

    pub open spec fn with_kerninfo(self, addr: Option<u32>) -> ProcessView {
        ProcessView { minix_kerninfo_addr: addr, ..self }
    }

    /// The process after its registers were set.
    pub open spec fn set_regs(self, regs: Registers) -> ProcessView {
        ProcessView { regs, effects: self.effects.push(Effect::SetRegs(regs)), ..self }
    }

    /// The process after `words` were stored from `addr` on.
    pub open spec fn wrote(self, addr: u64, words: Seq<u64>) -> ProcessView {
        ProcessView {
            memory: store(self.memory, addr, u64s_wire(words)),
            effects: self.effects + write_effects(addr, words),
            ..self
        }
    }

    /// The bytes that are stored to write `data` at `addr`: the data, and
    /// behind it what the last word touched held before.
    pub open spec fn padded(self, addr: u64, data: Seq<u8>) -> Seq<u8> {
        data + bytes_at(
            self.memory,
            (addr + data.len()) as u64,
            (padded_len(data.len()) - data.len()) as nat,
        )
    }

    /// The process after the bytes `data` were stored from `addr` on.
    pub open spec fn wrote_bytes(self, addr: u64, data: Seq<u8>) -> ProcessView {
        let p = self.padded(addr, data);
        self.wrote(addr, Seq::new(p.len() / 8, |k: int| u64_at(p, 8 * k)))
    }

    /// The process after it was told to run again.
    pub open spec fn resumed(self, signal: Option<i32>) -> ProcessView {
        ProcessView { effects: self.effects.push(Effect::Continue { signal }), ..self }
    }

    /// The process after it was asked to map the shared page.
    pub open spec fn attached(self, addr: u64) -> ProcessView {
        ProcessView { effects: self.effects.push(Effect::AttachShared { addr }), ..self }
    }

    /// What reading a message at `addr` gives.
    pub open spec fn message_at(self, addr: u64) -> Result<Message, Error> {
        if mapped(self.memory, addr, MESSAGE_SIZE as nat) {
            Ok(Message::from_wire(bytes_at(self.memory, addr, MESSAGE_SIZE as nat)))
        } else {
            Err(Error::Fault(addr))
        }
    }

    /// What reading `len` bytes at `addr` gives. The read goes word by word,
    /// so every word that the bytes touch has to be in the window.
    pub open spec fn buf_at(self, addr: u64, len: nat) -> Result<Seq<u8>, Error> {
        if mapped(self.memory, addr, padded_len(len)) {
            Ok(bytes_at(self.memory, addr, len))
        } else {
            Err(Error::Fault(addr))
        }
    }

    /// What stands at the program counter.
    pub open spec fn instruction(self) -> Result<Instruction, Error> {
        if mapped(self.memory, self.regs.rip, 8) {
            if self.memory[self.regs.rip] == 0xCD {
                Ok(Instruction::Int(self.memory[(self.regs.rip + 1) as u64]))
            } else {
                Ok(Instruction::Other)
            }
        } else {
            Err(Error::Fault(self.regs.rip))
        }
    }
}

/// Storing words changes the bytes they cover and nothing else.
pub proof fn lemma_wrote_bytes_memory(p: ProcessView, addr: u64, data: Seq<u8>)
    requires
        mapped(p.memory, addr, padded_len(data.len())),
    ensures
        p.wrote_bytes(addr, data).memory == store(p.memory, addr, data),
        p.wrote_bytes(addr, data).memory.dom() == p.memory.dom(),
{
    lemma_auto_spec_u64_to_from_le_bytes();
    let pad = p.padded(addr, data);
    let words = Seq::new(pad.len() / 8, |k: int| u64_at(pad, 8 * k));
    assert(pad.len() == padded_len(data.len()));
    assert forall|i: int| 0 <= i < pad.len() implies u64s_wire(words)[i] == pad[i] by {
        let k = i / 8;
        assert(spec_u64_to_le_bytes(u64_at(pad, 8 * k)) == pad.subrange(8 * k, 8 * k + 8));
    }
    assert(u64s_wire(words) =~= pad);
    assert(store(p.memory, addr, pad) =~= store(p.memory, addr, data)) by {
        assert forall|a: u64| p.memory.dom().contains(a) implies store(p.memory, addr, pad)[a]
            == store(p.memory, addr, data)[a] by {
            if addr + data.len() <= a < addr + pad.len() {
                let i = a - addr - data.len();
                assert(pad[a - addr] == p.memory[((addr + data.len()) as u64 + i) as u64]);
            }
        }
    }
    lemma_store_frame(p.memory, addr, data);
}

/// A message that is stored in guest memory and read back from the same
/// address is byte for byte the message that was stored.
pub proof fn law_message_survives_memory(p: ProcessView, addr: u64, message: Message)
    requires
        mapped(p.memory, addr, MESSAGE_SIZE as nat),
    ensures
        p.wrote(addr, message.words()).memory == store(p.memory, addr, message.wire()),
        p.wrote(addr, message.words()).message_at(addr) == Ok::<Message, Error>(message),
{
    lemma_words_wire(message);
    message.lemma_wire_len();
    message.lemma_round_trip();
    lemma_store_frame(p.memory, addr, message.wire());
    lemma_store_read(p.memory, addr, message.wire());
}

/// A guest process and what the supervisor knows of it.
///
/// `regs` and `memory` hold the registers and the memory that the controller
/// fetched from the host process while it was stopped. What the supervisor
/// changes is changed there and is also put on `effects`, for the controller
/// to carry out on the host process.
pub struct MinixProcess {
    /// Process id on the host.
    pub pid: i32,
    pub state: ProcessState,
    /// The senders blocked on this process.
    pub queue: MessageQueue,
    /// Set by SENDREC until the next RECEIVE.
    pub reply_pending: bool,
    pub name: String,
    /// Privilege class bits.
    pub s_flags: u16,
    pub privileges: Priv,
    /// The endpoints that owe this process a notification.
    pub notify_pending: Vec<Endpoint>,
    /// The endpoints that hold asynchronous messages for this process.
    pub async_pending: Vec<Endpoint>,
    /// Where the shared kernel information page is mapped, once it is.
    pub minix_kerninfo_addr: Option<u32>,
    /// The registers of the stopped guest.
    pub regs: Registers,
    /// The part of the guest's memory that the supervisor holds.
    pub memory: GuestMemory,
    /// What is still to be done to the host process.
    pub effects: Vec<Effect>,
}

impl View for MinixProcess {
    type V = ProcessView;

    open spec fn view(&self) -> ProcessView {
        ProcessView {
            pid: self.pid,
            state: self.state,
            queue: self.queue@,
            reply_pending: self.reply_pending,
            name: self.name@,
            s_flags: self.s_flags,
            privileges: self.privileges,
            notify_pending: self.notify_pending@,
            async_pending: self.async_pending@,
            minix_kerninfo_addr: self.minix_kerninfo_addr,
            regs: self.regs,
            memory: self.memory@,
            effects: self.effects@,
        }
    }
}

impl MinixProcess {
    /// What a process is when its slot is made.
    pub open spec fn fresh(pid: i32, name: Seq<char>) -> ProcessView {
        ProcessView {
            pid,
            state: ProcessState::Running,
            queue: Seq::empty(),
            reply_pending: false,
            name,
            s_flags: 0,
            privileges: Priv::zeroed().with_asyn(NO_ASYN_TABLE, 0),
            notify_pending: Seq::empty(),
            async_pending: Seq::empty(),
            minix_kerninfo_addr: None,
            regs: Registers::zeroed(),
            memory: Map::empty(),
            effects: Seq::empty(),
        }
    }

    /// The slot of the host process `pid`, which runs the program `name`.
    pub fn new(pid: i32, name: &str) -> (p: MinixProcess)
        ensures
            p@ == MinixProcess::fresh(pid, name@),
    {
        let mut privileges = Priv::default();
        privileges.s_asyntab = NO_ASYN_TABLE;
        MinixProcess {
            pid,
            state: ProcessState::Running,
            queue: MessageQueue::new(),
            reply_pending: false,
            name: name.to_string(),
            s_flags: 0,
            privileges,
            notify_pending: Vec::new(),
            async_pending: Vec::new(),
            minix_kerninfo_addr: None,
            regs: Registers::default(),
            memory: GuestMemory::new(),
            effects: Vec::new(),
        }
    }

    /// The slot of a guest that was just started, ready to run.
    ///
    /// The host process `pid` runs the program `path` and is stopped before
    /// its first instruction, with the registers `regs`; `stack` holds the
    /// bytes of its memory that lie right below its stack pointer, the
    /// lowest first. The guest finds the record of its arguments, which here
    /// are none but the name of the program, on its stack and a pointer to
    /// that record in `rbx`. Fails where `stack` is too short to hold the
    /// record.
    pub fn spawn(pid: i32, path: &str, regs: Registers, stack: &[u8]) -> (r: Result<
        MinixProcess,
        Error,
    >)
        ensures
            match r {
                Ok(p) => MinixProcess::spawned(pid, path@, regs, stack@) == Ok::<
                    ProcessView,
                    Error,
                >(p@),
                Err(e) => MinixProcess::spawned(pid, path@, regs, stack@) == Err::<
                    ProcessView,
                    Error,
                >(e),
            },
    {
        let mut process = MinixProcess::new(pid, path);
        process.regs = regs;
        let len: usize = stack.len();
        let base: u64 = if len as u64 > regs.rsp {
            0
        } else {
            regs.rsp - len as u64
        };
        process.memory.extend(base, stack);
        let argv: u32 = (((regs.rsp % 0x1_0000_0000) + 4) % 0x1_0000_0000) as u32;
        let record = PsStrings { ps_argvstr: argv, ps_nargvstr: 1, ps_envstr: 0, ps_nenvstr: 0 };
        let mut regs = regs;
        regs.rsp = if regs.rsp >= PS_STRINGS_SIZE {
            regs.rsp - PS_STRINGS_SIZE
        } else {
            regs.rsp + (u64::MAX - PS_STRINGS_SIZE) + 1
        };
        regs.rbx = regs.rsp;
        let words = record.to_words();
        match process.write_buf(regs.rbx, &words) {
            Ok(()) => {},
            Err(e) => {
                return Err(e);
            },
        }
        process.set_regs(regs);
        process.cont();
        Ok(process)
    }

    /// What a guest is after `spawn`.
    pub open spec fn spawned(pid: i32, path: Seq<char>, regs: Registers, stack: Seq<u8>) -> Result<
        ProcessView,
        Error,
    > {
        let base = if stack.len() > regs.rsp {
            0
        } else {
            (regs.rsp - stack.len()) as u64
        };
        let fetched = ProcessView {
            regs,
            memory: extended(Map::empty(), base, stack),
            ..MinixProcess::fresh(pid, path)
        };
        let record = PsStrings {
            ps_argvstr: (((regs.rsp % 0x1_0000_0000) + 4) % 0x1_0000_0000) as u32,
            ps_nargvstr: 1,
            ps_envstr: 0,
            ps_nenvstr: 0,
        };
        let rsp = ((regs.rsp - PS_STRINGS_SIZE) % 0x1_0000_0000_0000_0000) as u64;
        let started = Registers { rsp, rbx: rsp, ..regs };
        if mapped(fetched.memory, rsp, PS_STRINGS_SIZE as nat) {
            Ok(fetched.wrote(rsp, record.words()).set_regs(started).resumed(None))
        } else {
            Err(Error::Fault(rsp))
        }
    }

    /// Process id on the host.
    pub fn pid(&self) -> (pid: i32)
        ensures
            pid == self@.pid,
    {
        self.pid
    }

    /// The registers of the stopped guest.
    pub fn get_regs(&self) -> (regs: Registers)
        ensures
            regs == self@.regs,
    {
        self.regs
    }

    /// Sets the registers of the guest.
    pub fn set_regs(&mut self, regs: Registers)
        ensures
            final(self)@ == old(self)@.set_regs(regs),
    {
        self.regs = regs;
        self.effects.push(Effect::SetRegs(regs));
    }

    /// Reads the word at `addr` in the guest.
    pub fn read(&self, addr: u64) -> (r: Result<u64, Error>)
        ensures
            r == (if mapped(self@.memory, addr, 8) {
                Ok::<u64, Error>(word_at(self@.memory, addr))
            } else {
                Err(Error::Fault(addr))
            }),
    {
        self.memory.read(addr)
    }

    /// Reads `len` bytes at `addr` in the guest, word by word.
    pub fn read_buf_u8(&self, addr: u64, len: usize) -> (r: Result<Vec<u8>, Error>)
        ensures
            match r {
                Ok(buf) => self@.buf_at(addr, len as nat) == Ok::<Seq<u8>, Error>(buf@),
                Err(e) => self@.buf_at(addr, len as nat) == Err::<Seq<u8>, Error>(e),
            },
    {
        let words: usize = if len % 8 == 0 {
            len / 8
        } else {
            len / 8 + 1
        };
        if !self.memory.words_mapped(addr, words) {
            return Err(Error::Fault(addr));
        }
        let mut buf: Vec<u8> = Vec::new();
        let mut k: usize = 0;
        while k < words
            invariant
                k <= words,
                8 * words == padded_len(len as nat),
                mapped(self@.memory, addr, (8 * words) as nat),
                buf@ == bytes_at(self@.memory, addr, (8 * k) as nat),
            decreases words - k,
        {
            proof {
                lemma_mapped_sub(self@.memory, addr, (8 * words) as nat, (8 * k) as nat, 8);
                lemma_range_split(self@.memory, addr, (8 * k) as nat, 8);
                lemma_auto_spec_u64_to_from_le_bytes();
            }
            let word = self.memory.read(addr + 8 * (k as u64));
            match word {
                Ok(w) => {
                    let mut bytes = u64_to_le_bytes(w);
                    buf.append(&mut bytes);
                },
                Err(_) => {},
            }
            k = k + 1;
        }
        buf.truncate(len);
        proof {
            assert(buf@ =~= bytes_at(self@.memory, addr, len as nat));
        }
        Ok(buf)
    }

    /// Stores the word `data` at `addr` in the guest.
    pub fn write(&mut self, addr: u64, data: u64) -> (r: Result<(), Error>)
        ensures
            mapped(old(self)@.memory, addr, 8) ==> r == Ok::<(), Error>(()) && final(self)@ == old(
                self,
            )@.wrote(addr, seq![data]),
            !mapped(old(self)@.memory, addr, 8) ==> r == Err::<(), Error>(Error::Fault(addr))
                && final(self)@ == old(self)@,
    {
        match self.memory.write(addr, data) {
            Ok(()) => {
                self.effects.push(Effect::Write { addr, data });
                proof {
                    lemma_auto_spec_u64_to_from_le_bytes();
                    assert(u64s_wire(seq![data]) =~= spec_u64_to_le_bytes(data));
                    assert(self@.effects =~= old(self)@.effects + write_effects(addr, seq![data]));
                }
                Ok(())
            },
            Err(e) => Err(e),
        }
    }

    /// Stores `data` from `addr` on in the guest, or nothing where a part of
    /// the range is not in the window.
    pub fn write_buf(&mut self, addr: u64, data: &[u64]) -> (r: Result<(), Error>)
        ensures
            mapped(old(self)@.memory, addr, 8 * data@.len()) ==> r == Ok::<(), Error>(())
                && final(self)@ == old(self)@.wrote(addr, data@),
            !mapped(old(self)@.memory, addr, 8 * data@.len()) ==> r == Err::<(), Error>(
                Error::Fault(addr),
            ) && final(self)@ == old(self)@,
    {
        let n: usize = data.len();
        if !self.memory.words_mapped(addr, n) {
            return Err(Error::Fault(addr));
        }
        let mut k: usize = 0;
        proof {
            assert(u64s_wire(data@.take(0)) =~= Seq::<u8>::empty());
            assert(store(self@.memory, addr, Seq::<u8>::empty()) =~= self@.memory);
            assert(self@.effects =~= old(self)@.effects + write_effects(addr, data@.take(0)));
        }
        while k < n
            invariant
                k <= n,
                n == data@.len(),
                mapped(old(self)@.memory, addr, (8 * n) as nat),
                self@ == old(self)@.wrote(addr, data@.take(k as int)),
            decreases n - k,
        {
            let ghost before = self@;
            proof {
                lemma_auto_spec_u64_to_from_le_bytes();
                let first = u64s_wire(data@.take(k as int));
                lemma_store_frame(old(self)@.memory, addr, first);
                lemma_mapped_sub(old(self)@.memory, addr, (8 * n) as nat, (8 * k) as nat, 8);
                lemma_u64s_wire_push(data@.take(k as int), data@[k as int]);
                assert(data@.take(k as int).push(data@[k as int]) =~= data@.take(k + 1));
                lemma_store_append(
                    old(self)@.memory,
                    addr,
                    first,
                    spec_u64_to_le_bytes(data@[k as int]),
                );
            }
            let r = self.memory.write(addr + 8 * (k as u64), data[k]);
            self.effects.push(Effect::Write { addr: addr + 8 * (k as u64), data: data[k] });
            proof {
                assert(self@.effects =~= old(self)@.effects + write_effects(
                    addr,
                    data@.take(k + 1),
                ));
            }
            k = k + 1;
        }
        proof {
            assert(data@.take(n as int) =~= data@);
        }
        Ok(())
    }

    /// Stores the bytes `data` from `addr` on in the guest. Whole words are
    /// stored; the last one keeps, behind the data, what it held before.
    pub fn write_buf_u8(&mut self, addr: u64, data: &[u8]) -> (r: Result<(), Error>)
        ensures
            mapped(old(self)@.memory, addr, padded_len(data@.len())) ==> r == Ok::<(), Error>(())
                && final(self)@ == old(self)@.wrote_bytes(addr, data@),
            !mapped(old(self)@.memory, addr, padded_len(data@.len())) ==> r == Err::<(), Error>(
                Error::Fault(addr),
            ) && final(self)@ == old(self)@,
    {
        let len: usize = data.len();
        let full: usize = len / 8;
        let rest: usize = len % 8;
        let count: usize = if rest == 0 {
            full
        } else {
            full + 1
        };
        if !self.memory.words_mapped(addr, count) {
            return Err(Error::Fault(addr));
        }
        let ghost pad = self@.padded(addr, data@);
        let mut words: Vec<u64> = Vec::new();
        let mut k: usize = 0;
        proof {
            assert(pad.len() == 8 * count);
        }
        while k < full
            invariant
                k <= full,
                full == len / 8,
                len == data@.len(),
                pad == self@.padded(addr, data@),
                words@ == Seq::new(k as nat, |j: int| u64_at(pad, 8 * j)),
            decreases full - k,
        {
            let w = read_u64(data, 8 * k);
            proof {
                assert(data@.subrange(8 * k as int, 8 * k + 8) =~= pad.subrange(
                    8 * k as int,
                    8 * k + 8,
                ));
            }
            words.push(w);
            proof {
                assert(words@ =~= Seq::new((k + 1) as nat, |j: int| u64_at(pad, 8 * j)));
            }
            k = k + 1;
        }
        if rest > 0 {
            proof {
                lemma_mapped_sub(self@.memory, addr, (8 * count) as nat, (8 * full) as nat, 8);
                lemma_auto_spec_u64_to_from_le_bytes();
            }
            let tail = self.memory.read(addr + 8 * (full as u64));
            match tail {
                Ok(before) => {
                    let kept = u64_to_le_bytes(before);
                    let mut last: Vec<u8> = Vec::new();
                    let mut i: usize = 0;
                    while i < 8
                        invariant
                            i <= 8,
                            0 < rest < 8,
                            len == 8 * full + rest,
                            len == data@.len(),
                            kept@.len() == 8,
                            last@.len() == i,
                            forall|j: int|
                                0 <= j < i ==> last@[j] == (if j < rest {
                                    data@[8 * full + j]
                                } else {
                                    kept@[j]
                                }),
                        decreases 8 - i,
                    {
                        if i < rest {
                            last.push(data[8 * full + i]);
                        } else {
                            last.push(kept[i]);
                        }
                        i = i + 1;
                    }
                    let w = read_u64(last.as_slice(), 0);
                    proof {
                        assert(kept@ == bytes_at(self@.memory, (addr + 8 * full) as u64, 8));
                        assert(last@.subrange(0, 8) =~= pad.subrange(8 * full as int, 8 * full + 8))
                            by {
                            assert forall|j: int| 0 <= j < 8 implies last@[j] == pad[8 * full
                                + j] by {
                                if j >= rest {
                                    assert(pad[8 * full + j] == self@.memory[((addr + len) as u64
                                        + (j - rest)) as u64]);
                                }
                            }
                        }
                    }
                    words.push(w);
                    proof {
                        assert(words@ =~= Seq::new((full + 1) as nat, |j: int| u64_at(pad, 8 * j)));
                    }
                },
                Err(_) => {},
            }
        }
        proof {
            assert(words@ =~= Seq::new(pad.len() / 8, |j: int| u64_at(pad, 8 * j)));
        }
        self.write_buf(addr, words.as_slice())
    }

    /// Stores the 32-bit value `data` at `addr` in the guest; the four bytes
    /// behind it stay as they are.
    pub fn write_32(&mut self, addr: u64, data: u32) -> (r: Result<(), Error>)
        ensures
            mapped(old(self)@.memory, addr, 8) ==> r == Ok::<(), Error>(()) && final(self)@ == old(
                self,
            )@.wrote_bytes(addr, spec_u32_to_le_bytes(data)),
            !mapped(old(self)@.memory, addr, 8) ==> r == Err::<(), Error>(Error::Fault(addr))
                && final(self)@ == old(self)@,
    {
        let bytes = u32_to_le_bytes(data);
        proof {
            lemma_auto_spec_u32_to_from_le_bytes();
        }
        self.write_buf_u8(addr, bytes.as_slice())
    }

    /// Reads the message at `addr` in the guest.
    pub fn read_message(&self, addr: u64) -> (r: Result<Message, Error>)
        ensures
            r == self@.message_at(addr),
    {
        match self.read_buf_u8(addr, MESSAGE_SIZE) {
            Ok(buf) => {
                proof {
                    assert(buf@.take(64) =~= buf@);
                }
                Ok(Message::from_bytes(buf.as_slice()))
            },
            Err(e) => Err(e),
        }
    }

    /// Stores `message` at `addr` in the guest.
    pub fn write_message(&mut self, addr: u64, message: Message) -> (r: Result<(), Error>)
        ensures
            mapped(old(self)@.memory, addr, MESSAGE_SIZE as nat) ==> r == Ok::<(), Error>(())
                && final(self)@ == old(self)@.wrote(addr, message.words()),
            !mapped(old(self)@.memory, addr, MESSAGE_SIZE as nat) ==> r == Err::<(), Error>(
                Error::Fault(addr),
            ) && final(self)@ == old(self)@,
    {
        let buf: [u64; 8] = message.into();
        proof {
            assert(buf@ =~= message.words());
        }
        self.write_buf(addr, buf.as_slice())
    }

    /// Reads what stands at the program counter of the guest.
    pub fn read_instruction(&self) -> (r: Result<Instruction, Error>)
        ensures
            r == self@.instruction(),
    {
        let regs = self.get_regs();
        match self.read(regs.rip) {
            Ok(word) => {
                let data = u64_to_le_bytes(word);
                proof {
                    lemma_auto_spec_u64_to_from_le_bytes();
                    let b = bytes_at(self@.memory, regs.rip, 8);
                    assert(data@ == b);
                    assert(b[0] == self@.memory[(regs.rip + 0) as u64]);
                    assert(b[1] == self@.memory[(regs.rip + 1) as u64]);
                }
                if data[0] == 0xCD {
                    Ok(Instruction::Int(data[1]))
                } else {
                    Ok(Instruction::Other)
                }
            },
            Err(e) => Err(e),
        }
    }

    /// Lets the guest run again and delivers `signal` to it.
    pub fn cause_signal(&mut self, signal: Option<i32>)
        ensures
            final(self)@ == old(self)@.resumed(signal),
    {
        self.effects.push(Effect::Continue { signal });
    }

    /// Lets the stopped guest run again.
    pub fn cont(&mut self)
        ensures
            final(self)@ == old(self)@.resumed(None),
    {
        self.effects.push(Effect::Continue { signal: None });
    }

    /// Asks for the shared kernel information page to be mapped at `addr` in
    /// the guest.
    pub fn attach_shared(&mut self, addr: u64)
        ensures
            final(self)@ == old(self)@.attached(addr),
    {
        self.effects.push(Effect::AttachShared { addr });
    }

    /// Hands over what is still to be done to the host process.
    pub fn take_effects(&mut self) -> (effects: Vec<Effect>)
        ensures
            effects@ == old(self)@.effects,
            final(self)@ == (ProcessView { effects: Seq::empty(), ..old(self)@ }),
    {
        let mut taken: Vec<Effect> = Vec::new();
        core::mem::swap(&mut self.effects, &mut taken);
        taken
    }
}

} // verus!
