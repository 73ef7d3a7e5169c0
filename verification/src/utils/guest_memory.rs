//! The window of a guest's address space that the supervisor holds.
//!
//! A guest is a process of its own; the supervisor reaches its memory word by
//! word while the guest is stopped. `GuestMemory` is the supervisor's copy of
//! the bytes it has fetched: an access succeeds exactly where every byte it
//! touches is in the window.

use std::collections::HashMap;
use vstd::bytes::*;
use vstd::prelude::*;

verus! {

/// The one kind of failure above the guests: an access to guest memory that is
/// not in the window. It names the address at which the access started.
#[derive(Debug, Clone, Copy, PartialEq, Eq, Structural)]
pub enum Error {
    Fault(u64),
}

/// Every byte of `[addr, addr + len)` is an address and is in the window.
pub open spec fn mapped(m: Map<u64, u8>, addr: u64, len: nat) -> bool {
    &&& addr + len <= 0x1_0000_0000_0000_0000
    &&& forall|i: int| 0 <= i < len ==> m.dom().contains(#[trigger] ((addr + i) as u64))
}

/// The `len` bytes from `addr` on.
pub open spec fn bytes_at(m: Map<u64, u8>, addr: u64, len: nat) -> Seq<u8> {
    Seq::new(len, |i: int| m[(addr + i) as u64])
}

/// The window after `data` was written from `addr` on.
pub open spec fn store(m: Map<u64, u8>, addr: u64, data: Seq<u8>) -> Map<u64, u8> {
    Map::new(
        |a: u64| m.dom().contains(a),
        |a: u64|
            if addr <= a < addr + data.len() {
                data[a - addr]
            } else {
                m[a]
            },
    )
}

/// The window after the bytes `data` of the guest, found from `addr` on, were
/// added to it.
pub open spec fn extended(m: Map<u64, u8>, addr: u64, data: Seq<u8>) -> Map<u64, u8> {
    Map::new(
        |a: u64| m.dom().contains(a) || addr <= a < addr + data.len(),
        |a: u64|
            if addr <= a < addr + data.len() {
                data[a - addr]
            } else {
                m[a]
            },
    )
}

/// The word at `addr`.
pub open spec fn word_at(m: Map<u64, u8>, addr: u64) -> u64 {
    spec_u64_from_le_bytes(bytes_at(m, addr, 8))
}

/// A write changes no address outside its range and keeps the window's extent.
pub proof fn lemma_store_frame(m: Map<u64, u8>, addr: u64, data: Seq<u8>)
    ensures
        store(m, addr, data).dom() == m.dom(),
        forall|a: u64, n: nat| #[trigger]
            mapped(store(m, addr, data), a, n) == mapped(m, a, n),
        forall|a: u64, n: nat|
            mapped(m, a, n) && (a + n <= addr || addr + data.len() <= a) ==> #[trigger] bytes_at(
                store(m, addr, data),
                a,
                n,
            ) == bytes_at(m, a, n),
{
    assert(store(m, addr, data).dom() =~= m.dom());
    assert forall|a: u64, n: nat|
        mapped(m, a, n) && (a + n <= addr || addr + data.len() <= a) implies #[trigger] bytes_at(
        store(m, addr, data),
        a,
        n,
    ) == bytes_at(m, a, n) by {
        assert(bytes_at(store(m, addr, data), a, n) =~= bytes_at(m, a, n));
    }
}

/// What was written to a range inside the window is what is read from it.
pub proof fn lemma_store_read(m: Map<u64, u8>, addr: u64, data: Seq<u8>)
    requires
        mapped(m, addr, data.len()),
    ensures
        bytes_at(store(m, addr, data), addr, data.len()) == data,
{
    assert(bytes_at(store(m, addr, data), addr, data.len()) =~= data);
}

/// Two writes, one behind the other, are one write of both pieces.
pub proof fn lemma_store_append(m: Map<u64, u8>, addr: u64, first: Seq<u8>, second: Seq<u8>)
    requires
        addr + first.len() + second.len() <= 0x1_0000_0000_0000_0000,
    ensures
        store(store(m, addr, first), (addr + first.len()) as u64, second) == store(
            m,
            addr,
            first + second,
        ),
{
    assert(store(store(m, addr, first), (addr + first.len()) as u64, second) =~= store(
        m,
        addr,
        first + second,
    ));
}

/// A range is in the window where its two halves are, and its bytes are those
/// of the halves.
pub proof fn lemma_range_split(m: Map<u64, u8>, addr: u64, first: nat, second: nat)
    requires
        addr + first <= 0xffff_ffff_ffff_ffff,
    ensures
        mapped(m, addr, first + second) == (mapped(m, addr, first) && mapped(
            m,
            (addr + first) as u64,
            second,
        )),
        bytes_at(m, addr, first + second) == bytes_at(m, addr, first) + bytes_at(
            m,
            (addr + first) as u64,
            second,
        ),
{
    let mid = (addr + first) as u64;
    if mapped(m, addr, first) && mapped(m, mid, second) {
        assert forall|i: int| 0 <= i < first + second implies m.dom().contains(
            #[trigger] ((addr + i) as u64),
        ) by {
            if i >= first {
                assert(m.dom().contains((mid + (i - first)) as u64));
            }
        }
    }
    if mapped(m, addr, first + second) {
        assert forall|i: int| 0 <= i < second implies m.dom().contains(
            #[trigger] ((mid + i) as u64),
        ) by {
            assert(m.dom().contains((addr + (first + i)) as u64));
        }
    }
    assert(bytes_at(m, addr, first + second) =~= bytes_at(m, addr, first) + bytes_at(
        m,
        mid,
        second,
    ));
}

/// A part of a range that is in the window is in the window, and holds its
/// part of the bytes.
pub proof fn lemma_mapped_sub(m: Map<u64, u8>, addr: u64, len: nat, off: nat, n: nat)
    requires
        mapped(m, addr, len),
        off + n <= len,
        n > 0,
    ensures
        addr + off <= 0xffff_ffff_ffff_ffff,
        mapped(m, (addr + off) as u64, n),
        bytes_at(m, (addr + off) as u64, n) == bytes_at(m, addr, len).subrange(
            off as int,
            (off + n) as int,
        ),
{
    let start = (addr + off) as u64;
    assert forall|i: int| 0 <= i < n implies m.dom().contains(#[trigger] ((start + i) as u64)) by {
        assert(m.dom().contains((addr + (off + i)) as u64));
    }
    assert(bytes_at(m, start, n) =~= bytes_at(m, addr, len).subrange(off as int, (off + n) as int));
}

/// The supervisor's copy of a part of a guest's memory.
pub struct GuestMemory {
    bytes: HashMap<u64, u8>,
}

impl View for GuestMemory {
    type V = Map<u64, u8>;

    closed spec fn view(&self) -> Map<u64, u8> {
        self.bytes@
    }
}

impl GuestMemory {
    /// An empty window.
    pub fn new() -> (m: GuestMemory)
        ensures
            m@ == Map::<u64, u8>::empty(),
    {
        GuestMemory { bytes: HashMap::new() }
    }

    /// Adds to the window the bytes `data`, which the guest holds from `addr`
    /// on. Bytes that would lie behind the last address are left out.
    pub fn extend(&mut self, addr: u64, data: &[u8])
        ensures
            final(self)@ == extended(old(self)@, addr, data@),
    {
        let mut i: usize = 0;
        let n: usize = data.len();
        while i < n
            invariant
                i <= n,
                n == data@.len(),
                self@ == extended(old(self)@, addr, data@.take(i as int)),
            decreases n - i,
        {
            if i as u64 > u64::MAX - addr {
                proof {
                    assert(extended(old(self)@, addr, data@.take(i as int)) =~= extended(
                        old(self)@,
                        addr,
                        data@,
                    ));
                }
                return ;
            }
            self.bytes.insert(addr + i as u64, data[i]);
            proof {
                assert(self@ =~= extended(old(self)@, addr, data@.take(i + 1)));
            }
            i = i + 1;
        }
        proof {
            assert(data@.take(n as int) =~= data@);
        }
    }

    /// Forgets the whole window.
    pub fn clear(&mut self)
        ensures
            final(self)@ == Map::<u64, u8>::empty(),
    {
        self.bytes.clear();
    }

    /// The byte at `addr`, if it is in the window.
    pub fn byte(&self, addr: u64) -> (r: Option<u8>)
        ensures
            r == (if self@.dom().contains(addr) {
                Some(self@[addr])
            } else {
                None
            }),
    {
        match self.bytes.get(&addr) {
            Some(b) => Some(*b),
            None => None,
        }
    }

    /// Whether the `len` bytes from `addr` on are all in the window.
    pub fn is_mapped(&self, addr: u64, len: usize) -> (r: bool)
        ensures
            r == mapped(self@, addr, len as nat),
    {
        if len == 0 {
            return true;
        }
        if (len - 1) as u64 > u64::MAX - addr {
            return false;
        }
        let mut i: usize = 0;
        while i < len
            invariant
                i <= len,
                addr + len <= 0x1_0000_0000_0000_0000,
                mapped(self@, addr, i as nat),
            decreases len - i,
        {
            if !self.bytes.contains_key(&(addr + i as u64)) {
                return false;
            }
            i = i + 1;
        }
        true
    }

    /// Whether the `count` words from `addr` on are all in the window.
    pub fn words_mapped(&self, addr: u64, count: usize) -> (r: bool)
        ensures
            r == mapped(self@, addr, (8 * count) as nat),
    {
        let mut k: usize = 0;
        while k < count
            invariant
                k <= count,
                mapped(self@, addr, (8 * k) as nat),
            decreases count - k,
        {
            if k as u64 > (u64::MAX - addr) / 8 || !self.is_mapped(addr + 8 * k as u64, 8) {
                proof {
                    if mapped(self@, addr, (8 * count) as nat) {
                        lemma_mapped_sub(self@, addr, (8 * count) as nat, (8 * k) as nat, 8);
                    }
                }
                return false;
            }
            proof {
                lemma_range_split(self@, addr, (8 * k) as nat, 8);
            }
            k = k + 1;
        }
        true
    }

    /// Reads the word at `addr`.
    pub fn read(&self, addr: u64) -> (r: Result<u64, Error>)
        ensures
            r == (if mapped(self@, addr, 8) {
                Ok::<u64, Error>(word_at(self@, addr))
            } else {
                Err(Error::Fault(addr))
            }),
    {
        if !self.is_mapped(addr, 8) {
            return Err(Error::Fault(addr));
        }
        let mut buf: Vec<u8> = Vec::new();
        let mut i: usize = 0;
        while i < 8
            invariant
                i <= 8,
                mapped(self@, addr, 8),
                buf@ == bytes_at(self@, addr, i as nat),
            decreases 8 - i,
        {
            let b = self.byte(addr + i as u64);
            proof {
                assert(self@.dom().contains((addr + i) as u64));
            }
            match b {
                Some(v) => {
                    buf.push(v);
                },
                None => {},
            }
            proof {
                assert(buf@ =~= bytes_at(self@, addr, (i + 1) as nat));
            }
            i = i + 1;
        }
        Ok(u64_from_le_bytes(buf.as_slice()))
    }

    /// Writes the word `data` at `addr`.
    pub fn write(&mut self, addr: u64, data: u64) -> (r: Result<(), Error>)
        ensures
            mapped(old(self)@, addr, 8) ==> r == Ok::<(), Error>(()) && final(self)@ == store(
                old(self)@,
                addr,
                spec_u64_to_le_bytes(data),
            ),
            !mapped(old(self)@, addr, 8) ==> r == Err::<(), Error>(Error::Fault(addr))
                && final(self)@ == old(self)@,
    {
        if !self.is_mapped(addr, 8) {
            return Err(Error::Fault(addr));
        }
        let bytes = u64_to_le_bytes(data);
        proof {
            lemma_auto_spec_u64_to_from_le_bytes();
        }
        let mut i: usize = 0;
        while i < 8
            invariant
                i <= 8,
                bytes@ == spec_u64_to_le_bytes(data),
                bytes@.len() == 8,
                mapped(old(self)@, addr, 8),
                self@ == store(old(self)@, addr, bytes@.take(i as int)),
            decreases 8 - i,
        {
            proof {
                assert(old(self)@.dom().contains((addr + i) as u64));
            }
            self.bytes.insert(addr + i as u64, bytes[i]);
            proof {
                assert(self@ =~= store(old(self)@, addr, bytes@.take(i + 1)));
            }
            i = i + 1;
        }
        proof {
            assert(bytes@.take(8) =~= bytes@);
        }
        Ok(())
    }
}

} // verus!
