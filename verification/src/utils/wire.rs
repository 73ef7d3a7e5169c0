//! Little-endian layout of integers in guest memory.

use vstd::bytes::*;
use vstd::prelude::*;
use vstd::slice::*;

verus! {

/// The 32 bits of a signed number, read as an unsigned one.
pub open spec fn i32_bits(x: i32) -> u32 {
    if x >= 0 {
        x as u32
    } else {
        (x + 0x1_0000_0000) as u32
    }
}

/// The signed number that 32 bits stand for in two's complement.
pub open spec fn bits_i32(u: u32) -> i32 {
    if u < 0x8000_0000 {
        u as i32
    } else {
        (u - 0x1_0000_0000) as i32
    }
}

/// The low 32 bits of a register, read as a signed number.
pub open spec fn low_i32(x: u64) -> i32 {
    bits_i32((x % 0x1_0000_0000) as u32)
}

/// A signed 32-bit number widened to a register with its sign.
pub open spec fn sign_extend(x: i32) -> u64 {
    if x >= 0 {
        x as u64
    } else {
        (x + 0x1_0000_0000_0000_0000) as u64
    }
}

pub fn to_bits(x: i32) -> (u: u32)
    ensures
        u == i32_bits(x),
{
    if x >= 0 {
        x as u32
    } else {
        (x as i64 + 0x1_0000_0000) as u32
    }
}

pub fn from_bits(u: u32) -> (x: i32)
    ensures
        x == bits_i32(u),
{
    if u < 0x8000_0000 {
        u as i32
    } else {
        (u as i64 - 0x1_0000_0000) as i32
    }
}

pub fn low_bits(x: u64) -> (r: i32)
    ensures
        r == low_i32(x),
{
    from_bits((x % 0x1_0000_0000) as u32)
}

pub fn widen(x: i32) -> (r: u64)
    ensures
        r == sign_extend(x),
{
    if x >= 0 {
        x as u64
    } else {
        (x as i128 + 0x1_0000_0000_0000_0000) as u64
    }
}

/// Reading a signed number as bits and back gives the number again, and the
/// other way round.
pub proof fn lemma_bits_round_trip(x: i32, u: u32)
    ensures
        bits_i32(i32_bits(x)) == x,
        i32_bits(bits_i32(u)) == u,
        low_i32(sign_extend(x)) == x,
{
    if x < 0 {
        let w: int = x + 0x1_0000_0000_0000_0000;
        assert(w % 0x1_0000_0000 == x + 0x1_0000_0000) by {
            assert(w == 0xffff_ffff * 0x1_0000_0000 + (x + 0x1_0000_0000));
            vstd::arithmetic::div_mod::lemma_fundamental_div_mod_converse(
                w,
                0x1_0000_0000,
                0xffff_ffff,
                x + 0x1_0000_0000,
            );
        }
    }
}

/// The unsigned 32-bit field that starts at `off`.
pub open spec fn u32_at(s: Seq<u8>, off: int) -> u32 {
    spec_u32_from_le_bytes(s.subrange(off, off + 4))
}

/// The signed 32-bit field that starts at `off`.
pub open spec fn i32_at(s: Seq<u8>, off: int) -> i32 {
    bits_i32(u32_at(s, off))
}

/// The 64-bit word that starts at `off`.
pub open spec fn u64_at(s: Seq<u8>, off: int) -> u64 {
    spec_u64_from_le_bytes(s.subrange(off, off + 8))
}

/// The bytes of a run of 32-bit fields.
pub open spec fn u32s_wire(p: Seq<u32>) -> Seq<u8> {
    Seq::new(4 * p.len(), |i: int| spec_u32_to_le_bytes(p[i / 4])[i % 4])
}

/// The bytes of a run of 64-bit words.
pub open spec fn u64s_wire(ws: Seq<u64>) -> Seq<u8> {
    Seq::new(8 * ws.len(), |i: int| spec_u64_to_le_bytes(ws[i / 8])[i % 8])
}

pub proof fn lemma_u32s_wire_push(p: Seq<u32>, x: u32)
    ensures
        u32s_wire(p.push(x)) == u32s_wire(p) + spec_u32_to_le_bytes(x),
{
    lemma_auto_spec_u32_to_from_le_bytes();
    assert(u32s_wire(p.push(x)) =~= u32s_wire(p) + spec_u32_to_le_bytes(x));
}

pub proof fn lemma_u64s_wire_push(p: Seq<u64>, x: u64)
    ensures
        u64s_wire(p.push(x)) == u64s_wire(p) + spec_u64_to_le_bytes(x),
{
    lemma_auto_spec_u64_to_from_le_bytes();
    assert(u64s_wire(p.push(x)) =~= u64s_wire(p) + spec_u64_to_le_bytes(x));
}

/// Each field can be read back from the bytes of a run of fields.
pub proof fn lemma_u32s_wire_field(p: Seq<u32>, k: int)
    requires
        0 <= k < p.len(),
    ensures
        u32_at(u32s_wire(p), 4 * k) == p[k],
        u32s_wire(p).subrange(4 * k, 4 * k + 4) == spec_u32_to_le_bytes(p[k]),
{
    lemma_auto_spec_u32_to_from_le_bytes();
    assert(u32s_wire(p).subrange(4 * k, 4 * k + 4) =~= spec_u32_to_le_bytes(p[k]));
}

pub proof fn lemma_u64s_wire_field(p: Seq<u64>, k: int)
    requires
        0 <= k < p.len(),
    ensures
        u64_at(u64s_wire(p), 8 * k) == p[k],
        u64s_wire(p).subrange(8 * k, 8 * k + 8) == spec_u64_to_le_bytes(p[k]),
{
    lemma_auto_spec_u64_to_from_le_bytes();
    assert(u64s_wire(p).subrange(8 * k, 8 * k + 8) =~= spec_u64_to_le_bytes(p[k]));
}

pub fn read_u32(buf: &[u8], off: usize) -> (x: u32)
    requires
        off + 4 <= buf@.len(),
    ensures
        x == u32_at(buf@, off as int),
{
    let n: usize = buf.len();
    u32_from_le_bytes(slice_subrange(buf, off, off + 4))
}

pub fn read_i32(buf: &[u8], off: usize) -> (x: i32)
    requires
        off + 4 <= buf@.len(),
    ensures
        x == i32_at(buf@, off as int),
{
    from_bits(read_u32(buf, off))
}

pub fn read_u64(buf: &[u8], off: usize) -> (x: u64)
    requires
        off + 8 <= buf@.len(),
    ensures
        x == u64_at(buf@, off as int),
{
    let n: usize = buf.len();
    u64_from_le_bytes(slice_subrange(buf, off, off + 8))
}

pub fn push_u32(buf: &mut Vec<u8>, x: u32)
    ensures
        final(buf)@ == old(buf)@ + spec_u32_to_le_bytes(x),
{
    let mut b = u32_to_le_bytes(x);
    buf.append(&mut b);
}

pub fn push_i32(buf: &mut Vec<u8>, x: i32)
    ensures
        final(buf)@ == old(buf)@ + spec_u32_to_le_bytes(i32_bits(x)),
{
    push_u32(buf, to_bits(x));
}

pub fn push_u64(buf: &mut Vec<u8>, x: u64)
    ensures
        final(buf)@ == old(buf)@ + spec_u64_to_le_bytes(x),
{
    let mut b = u64_to_le_bytes(x);
    buf.append(&mut b);
}

/// The 16 bits of a signed number, read as an unsigned one.
pub open spec fn i16_bits(x: i16) -> u16 {
    if x >= 0 {
        x as u16
    } else {
        (x + 0x1_0000) as u16
    }
}

pub fn push_u8(buf: &mut Vec<u8>, x: u8)
    ensures
        final(buf)@ == old(buf)@ + seq![x],
{
    buf.push(x);
    proof {
        assert(buf@ =~= old(buf)@ + seq![x]);
    }
}

pub fn push_u16(buf: &mut Vec<u8>, x: u16)
    ensures
        final(buf)@ == old(buf)@ + spec_u16_to_le_bytes(x),
{
    let mut b = u16_to_le_bytes(x);
    buf.append(&mut b);
}

pub fn push_i16(buf: &mut Vec<u8>, x: i16)
    ensures
        final(buf)@ == old(buf)@ + spec_u16_to_le_bytes(i16_bits(x)),
{
    let bits: u16 = if x >= 0 {
        x as u16
    } else {
        (x as i32 + 0x1_0000) as u16
    };
    push_u16(buf, bits);
}

/// Appends `count` zero bytes.
pub fn push_zeros(buf: &mut Vec<u8>, count: usize)
    ensures
        final(buf)@ == old(buf)@ + Seq::new(count as nat, |i: int| 0u8),
{
    let mut k: usize = 0;
    proof {
        assert(buf@ =~= old(buf)@ + Seq::new(0, |i: int| 0u8));
    }
    while k < count
        invariant
            k <= count,
            buf@ == old(buf)@ + Seq::new(k as nat, |i: int| 0u8),
        decreases count - k,
    {
        buf.push(0);
        proof {
            assert(buf@ =~= old(buf)@ + Seq::new((k + 1) as nat, |i: int| 0u8));
        }
        k = k + 1;
    }
}

/// Appends the bytes of a run of 32-bit fields.
pub fn push_u32s(buf: &mut Vec<u8>, fields: &[u32])
    ensures
        final(buf)@ == old(buf)@ + u32s_wire(fields@),
{
    let n: usize = fields.len();
    let mut k: usize = 0;
    proof {
        assert(old(buf)@ + u32s_wire(fields@.take(0)) =~= old(buf)@);
    }
    while k < n
        invariant
            k <= n,
            n == fields@.len(),
            buf@ == old(buf)@ + u32s_wire(fields@.take(k as int)),
        decreases n - k,
    {
        proof {
            lemma_u32s_wire_push(fields@.take(k as int), fields@[k as int]);
            assert(fields@.take(k as int).push(fields@[k as int]) =~= fields@.take(k + 1));
        }
        push_u32(buf, fields[k]);
        proof {
            assert(buf@ =~= old(buf)@ + u32s_wire(fields@.take(k + 1)));
        }
        k = k + 1;
    }
    proof {
        assert(fields@.take(n as int) =~= fields@);
    }
}

/// The words that hold `bytes`, a whole number of words.
pub open spec fn words_of(bytes: Seq<u8>) -> Seq<u64> {
    Seq::new(bytes.len() / 8, |k: int| u64_at(bytes, 8 * k))
}

/// Reads `bytes`, a whole number of words, as words.
pub fn to_words(bytes: &[u8]) -> (words: Vec<u64>)
    requires
        bytes@.len() % 8 == 0,
    ensures
        words@ == words_of(bytes@),
{
    let len: usize = bytes.len();
    let n: usize = len / 8;
    let mut words: Vec<u64> = Vec::new();
    let mut k: usize = 0;
    while k < n
        invariant
            k <= n,
            n == bytes@.len() / 8,
            bytes@.len() % 8 == 0,
            bytes@.len() <= usize::MAX,
            words@ == Seq::new(k as nat, |j: int| u64_at(bytes@, 8 * j)),
        decreases n - k,
    {
        words.push(read_u64(bytes, 8 * k));
        proof {
            assert(words@ =~= Seq::new((k + 1) as nat, |j: int| u64_at(bytes@, 8 * j)));
        }
        k = k + 1;
    }
    words
}

/// The bytes of the words that hold `bytes` are `bytes`.
pub proof fn lemma_words_of_wire(bytes: Seq<u8>)
    requires
        bytes.len() % 8 == 0,
    ensures
        u64s_wire(words_of(bytes)) == bytes,
{
    lemma_auto_spec_u64_to_from_le_bytes();
    let w = words_of(bytes);
    assert forall|i: int| 0 <= i < bytes.len() implies u64s_wire(w)[i] == bytes[i] by {
        let k = i / 8;
        assert(w[k] == u64_at(bytes, 8 * k));
        assert(spec_u64_to_le_bytes(u64_at(bytes, 8 * k)) == bytes.subrange(8 * k, 8 * k + 8));
    }
    assert(u64s_wire(w) =~= bytes);
}

} // verus!
