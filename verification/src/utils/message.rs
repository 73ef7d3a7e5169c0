//! The fixed-size message that processes exchange, and its layout in guest
//! memory.

use super::endpoint::Endpoint;
use super::wire::{
    i32_at, i32_bits, lemma_bits_round_trip, lemma_u32s_wire_field, lemma_u32s_wire_push,
    lemma_u64s_wire_field, lemma_u64s_wire_push, push_i32, push_u32, push_u64, read_i32, read_u32,
    read_u64, u32_at, u32s_wire, u64_at, u64s_wire,
};
use vstd::bytes::*;
use vstd::prelude::*;
use vstd::std_specs::convert::FromSpecImpl;

verus! {

/// The part of a message behind its source and type: 56 bytes, seen here as
/// fourteen 32-bit fields.
pub type MessagePayload = [u32; 14];

/// Size of a message in guest memory, in bytes.
pub const MESSAGE_SIZE: usize = 64;

/// Type of the message that stands for a notification.
pub const NOTIFY_MESSAGE: u32 = 0x1000;

/// A message as the guests see it: `source`, `m_type` and the payload, laid
/// out in this order, each field little-endian.
#[derive(Debug, Clone, Copy, PartialEq, Eq)]
pub struct Message {
    /// The endpoint the message comes from.
    pub source: Endpoint,
    /// Type of the message.
    pub m_type: u32,
    /// Content of the message.
    pub payload: MessagePayload,
}

impl Message {
    /// The 64 bytes that hold this message in guest memory.
    pub open spec fn wire(self) -> Seq<u8> {
        spec_u32_to_le_bytes(i32_bits(self.source)) + spec_u32_to_le_bytes(self.m_type)
            + u32s_wire(self.payload@)
    }

    /// The message that 64 bytes of guest memory hold.
    pub open spec fn from_wire(b: Seq<u8>) -> Message {
        Message {
            source: i32_at(b, 0),
            m_type: u32_at(b, 4),
            payload: [
                u32_at(b, 8),
                u32_at(b, 12),
                u32_at(b, 16),
                u32_at(b, 20),
                u32_at(b, 24),
                u32_at(b, 28),
                u32_at(b, 32),
                u32_at(b, 36),
                u32_at(b, 40),
                u32_at(b, 44),
                u32_at(b, 48),
                u32_at(b, 52),
                u32_at(b, 56),
                u32_at(b, 60),
            ],
        }
    }

    /// This message with another source.
    pub open spec fn with_source(self, source: Endpoint) -> Message {
        Message { source, m_type: self.m_type, payload: self.payload }
    }

    /// The eight words that hold this message in guest memory.
    pub open spec fn words(self) -> Seq<u64> {
        Seq::new(8, |k: int| u64_at(self.wire(), 8 * k))
    }

    /// The words of this message as an array.
    pub open spec fn word_array(self) -> [u64; 8] {
        [
            u64_at(self.wire(), 0),
            u64_at(self.wire(), 8),
            u64_at(self.wire(), 16),
            u64_at(self.wire(), 24),
            u64_at(self.wire(), 32),
            u64_at(self.wire(), 40),
            u64_at(self.wire(), 48),
            u64_at(self.wire(), 56),
        ]
    }

    /// The message that eight words of guest memory hold.
    pub open spec fn from_words(ws: Seq<u64>) -> Message {
        Message::from_wire(u64s_wire(ws))
    }

    /// A message occupies exactly `MESSAGE_SIZE` bytes.
    pub proof fn lemma_wire_len(self)
        ensures
            self.wire().len() == MESSAGE_SIZE,
    {
        lemma_auto_spec_u32_to_from_le_bytes();
    }

    /// Decoding the bytes of a message gives the message again.
    pub proof fn lemma_round_trip(self)
        ensures
            Message::from_wire(self.wire()) == self,
    {
        lemma_auto_spec_u32_to_from_le_bytes();
        lemma_bits_round_trip(self.source, 0);
        let b = self.wire();
        let m = Message::from_wire(b);
        assert(b.subrange(0, 4) =~= spec_u32_to_le_bytes(i32_bits(self.source)));
        assert(b.subrange(4, 8) =~= spec_u32_to_le_bytes(self.m_type));
        assert forall|k: int| 0 <= k < 14 implies u32_at(b, 8 + 4 * k) == self.payload@[k] by {
            lemma_u32s_wire_field(self.payload@, k);
            assert(b.subrange(8 + 4 * k, 8 + 4 * k + 4) =~= u32s_wire(self.payload@).subrange(
                4 * k,
                4 * k + 4,
            ));
        }
        assert forall|k: int| 0 <= k < 14 implies m.payload@[k] == self.payload@[k] by {
            assert(u32_at(b, 8 + 4 * k) == self.payload@[k]);
        }
        assert(m.payload =~= self.payload);
    }

    /// Encoding the message that 64 bytes hold gives the same bytes again.
    pub proof fn lemma_wire_round_trip(b: Seq<u8>)
        requires
            b.len() == MESSAGE_SIZE,
        ensures
            Message::from_wire(b).wire() == b,
    {
        lemma_auto_spec_u32_to_from_le_bytes();
        let m = Message::from_wire(b);
        lemma_bits_round_trip(0, u32_at(b, 0));
        assert(spec_u32_to_le_bytes(u32_at(b, 0)) == b.subrange(0, 4));
        assert(spec_u32_to_le_bytes(u32_at(b, 4)) == b.subrange(4, 8));
        assert forall|i: int| 0 <= i < 56 implies u32s_wire(m.payload@)[i] == b[8 + i] by {
            let k = i / 4;
            assert(m.payload@[k] == u32_at(b, 8 + 4 * k));
            assert(spec_u32_to_le_bytes(u32_at(b, 8 + 4 * k)) == b.subrange(
                8 + 4 * k,
                8 + 4 * k + 4,
            ));
        }
        assert(m.wire() =~= b);
    }

    /// The bytes that hold this message in guest memory.
    pub fn to_bytes(&self) -> (b: Vec<u8>)
        ensures
            b@ == self.wire(),
    {
        let mut b: Vec<u8> = Vec::new();
        push_i32(&mut b, self.source);
        push_u32(&mut b, self.m_type);
        let ghost head = b@;
        let mut k: usize = 0;
        while k < 14
            invariant
                k <= 14,
                b@ == head + u32s_wire(self.payload@.take(k as int)),
            decreases 14 - k,
        {
            proof {
                lemma_u32s_wire_push(self.payload@.take(k as int), self.payload@[k as int]);
                assert(self.payload@.take(k as int).push(self.payload@[k as int])
                    =~= self.payload@.take(k + 1));
            }
            push_u32(&mut b, self.payload[k]);
            k = k + 1;
        }
        proof {
            assert(self.payload@.take(14) =~= self.payload@);
        }
        b
    }

    /// The message that the first 64 bytes of `b` hold.
    pub fn from_bytes(b: &[u8]) -> (m: Message)
        requires
            b@.len() >= MESSAGE_SIZE,
        ensures
            m == Message::from_wire(b@.take(MESSAGE_SIZE as int)),
    {
        let source: Endpoint = read_i32(b, 0);
        let m_type: u32 = read_u32(b, 4);
        let mut payload: MessagePayload = [0; 14];
        let mut k: usize = 0;
        while k < 14
            invariant
                k <= 14,
                b@.len() >= 64,
                forall|j: int| 0 <= j < k ==> payload@[j] == u32_at(b@, 8 + 4 * j),
            decreases 14 - k,
        {
            payload[k] = read_u32(b, 8 + 4 * k);
            k = k + 1;
        }
        let m = Message { source, m_type, payload };
        proof {
            let t = b@.take(64);
            assert forall|off: int| 0 <= off <= 60 implies #[trigger] t.subrange(off, off + 4)
                == b@.subrange(off, off + 4) by {
                assert(t.subrange(off, off + 4) =~= b@.subrange(off, off + 4));
            }
            assert(m.payload =~= Message::from_wire(t).payload);
        }
        m
    }
}

impl From<[u64; 8]> for Message {
    /// Reads a message from the eight words that hold it in guest memory.
    fn from(buf: [u64; 8]) -> (m: Message) {
        let mut b: Vec<u8> = Vec::new();
        let mut k: usize = 0;
        while k < 8
            invariant
                k <= 8,
                b@ == u64s_wire(buf@.take(k as int)),
            decreases 8 - k,
        {
            proof {
                lemma_u64s_wire_push(buf@.take(k as int), buf@[k as int]);
                assert(buf@.take(k as int).push(buf@[k as int]) =~= buf@.take(k + 1));
            }
            push_u64(&mut b, buf[k]);
            k = k + 1;
        }
        proof {
            assert(buf@.take(8) =~= buf@);
            assert(b@.take(64) =~= b@);
        }
        Message::from_bytes(b.as_slice())
    }
}

impl FromSpecImpl<[u64; 8]> for Message {
    open spec fn obeys_from_spec() -> bool {
        true
    }

    open spec fn from_spec(buf: [u64; 8]) -> Message {
        Message::from_words(buf@)
    }
}

impl From<Message> for [u64; 8] {
    /// The eight words that hold a message in guest memory.
    fn from(msg: Message) -> (buf: [u64; 8]) {
        let b = msg.to_bytes();
        proof {
            msg.lemma_wire_len();
        }
        let mut buf: [u64; 8] = [0; 8];
        let mut k: usize = 0;
        while k < 8
            invariant
                k <= 8,
                b@ == msg.wire(),
                b@.len() == 64,
                forall|j: int| 0 <= j < k ==> buf@[j] == u64_at(msg.wire(), 8 * j),
            decreases 8 - k,
        {
            buf[k] = read_u64(b.as_slice(), 8 * k);
            k = k + 1;
        }
        proof {
            assert(buf =~= msg.word_array());
        }
        buf
    }
}

impl FromSpecImpl<Message> for [u64; 8] {
    open spec fn obeys_from_spec() -> bool {
        true
    }

    open spec fn from_spec(msg: Message) -> [u64; 8] {
        msg.word_array()
    }
}

/// The bytes of a message are the bytes of its eight words.
pub proof fn lemma_words_wire(msg: Message)
    ensures
        u64s_wire(msg.words()) == msg.wire(),
        msg.words().len() == 8,
{
    lemma_auto_spec_u64_to_from_le_bytes();
    msg.lemma_wire_len();
    let w = msg.wire();
    assert forall|i: int| 0 <= i < 64 implies u64s_wire(msg.words())[i] == w[i] by {
        let k = i / 8;
        assert(msg.words()[k] == u64_at(w, 8 * k));
        assert(spec_u64_to_le_bytes(u64_at(w, 8 * k)) == w.subrange(8 * k, 8 * k + 8));
    }
    assert(u64s_wire(msg.words()) =~= w);
}

/// A message turned into its eight words and read back from them is the same
/// message; eight words read as a message and turned into words again are the
/// same words.
pub proof fn law_message_words_round_trip(msg: Message, ws: Seq<u64>)
    requires
        ws.len() == 8,
    ensures
        msg.word_array()@ == msg.words(),
        Message::from_words(msg.words()) == msg,
        Message::from_words(ws).words() == ws,
{
    lemma_auto_spec_u64_to_from_le_bytes();
    lemma_words_wire(msg);
    msg.lemma_round_trip();
    assert(msg.word_array()@ =~= msg.words());
    let b = u64s_wire(ws);
    Message::lemma_wire_round_trip(b);
    let back = Message::from_words(ws).words();
    assert forall|k: int| 0 <= k < 8 implies back[k] == ws[k] by {
        lemma_u64s_wire_field(ws, k);
    }
    assert(back =~= ws);
}

/// Byte `i` of a payload.
pub open spec fn payload_byte(payload: Seq<u32>, i: int) -> u8 {
    spec_u32_to_le_bytes(payload[i / 4])[i % 4]
}

/// The last `N` bytes of a payload, those from field `first` on.
pub fn payload_tail<const N: usize>(payload: &MessagePayload, first: usize) -> (tail: [u8; N])
    requires
        4 * first + N == 56,
    ensures
        forall|j: int| 0 <= j < N ==> tail@[j] == payload_byte(payload@, 4 * first + j),
{
    let mut tail = [0u8;N];
    let mut k: usize = first;
    proof {
        lemma_auto_spec_u32_to_from_le_bytes();
    }
    while k < 14
        invariant
            first <= k <= 14,
            4 * first + N == 56,
            forall|j: int|
                0 <= j < 4 * (k - first) ==> tail@[j] == payload_byte(payload@, 4 * first + j),
        decreases 14 - k,
    {
        let bytes = u32_to_le_bytes(payload[k]);
        let base: usize = 4 * (k - first);
        let mut i: usize = 0;
        while i < 4
            invariant
                i <= 4,
                first <= k < 14,
                4 * first + N == 56,
                base == 4 * (k - first),
                bytes@ == spec_u32_to_le_bytes(payload@[k as int]),
                bytes@.len() == 4,
                forall|j: int|
                    0 <= j < base + i ==> tail@[j] == payload_byte(payload@, 4 * first + j),
            decreases 4 - i,
        {
            tail[base + i] = bytes[i];
            proof {
                assert((4 * first + base + i) / 4 == k as int);
                assert((4 * first + base + i) % 4 == i as int);
            }
            i = i + 1;
        }
        k = k + 1;
    }
    tail
}

/// Writes `tail` over the last `N` bytes of a payload, those from field
/// `first` on.
pub fn set_payload_tail<const N: usize>(payload: &mut MessagePayload, first: usize, tail: &[u8; N])
    requires
        4 * first + N == 56,
    ensures
        forall|k: int| 0 <= k < first ==> final(payload)@[k] == old(payload)@[k],
        forall|k: int| first <= k < 14 ==> final(payload)@[k] == u32_at(tail@, 4 * (k - first)),
{
    let mut k: usize = first;
    while k < 14
        invariant
            first <= k <= 14,
            4 * first + N == 56,
            forall|j: int| 0 <= j < first ==> payload@[j] == old(payload)@[j],
            forall|j: int| first <= j < k ==> payload@[j] == u32_at(tail@, 4 * (j - first)),
        decreases 14 - k,
    {
        payload[k] = read_u32(tail.as_slice(), 4 * (k - first));
        k = k + 1;
    }
}

/// Conversion between the payload of a message and a typed record of the
/// same 56 bytes.
pub trait Payload: Sized {
    /// The payload that holds this record.
    spec fn payload_of(&self) -> MessagePayload;

    /// The record that a payload holds.
    spec fn record_of(payload: &MessagePayload) -> Self;

    /// A record written to a payload and read back is the same record.
    proof fn lemma_payload_round_trip(&self)
        ensures
            Self::record_of(&self.payload_of()) == *self,
    ;

    fn from_payload(payload: &MessagePayload) -> (r: Self)
        ensures
            r == Self::record_of(payload),
    ;

    fn into_payload(&self) -> (p: MessagePayload)
        ensures
            p == self.payload_of(),
    ;
}

} // verus!
