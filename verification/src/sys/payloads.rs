//! The typed records that the payload of a kernel call message holds.

use crate::utils::endpoint::Endpoint;
use crate::utils::message::{payload_byte, payload_tail, set_payload_tail, MessagePayload, Payload};
use crate::utils::wire::{bits_i32, from_bits, i32_bits, lemma_bits_round_trip, to_bits, u32_at};
use vstd::bytes::*;
use vstd::prelude::*;

verus! {

/// The request of the GETINFO kernel call.
#[derive(Debug, Clone, Copy, PartialEq, Eq)]
pub struct MessageSysGetInfo {
    pub request: i32,
    pub endpt: Endpoint,
    pub val_ptr: u32,
    pub val_len: i32,
    pub val_ptr2: u32,
    pub val_len2_e: i32,
    pub padding: [u8; 32],
}

impl Payload for MessageSysGetInfo {
    open spec fn payload_of(&self) -> MessagePayload {
        [
            i32_bits(self.request),
            i32_bits(self.endpt),
            self.val_ptr,
            i32_bits(self.val_len),
            self.val_ptr2,
            i32_bits(self.val_len2_e),
            u32_at(self.padding@, 0),
            u32_at(self.padding@, 4),
            u32_at(self.padding@, 8),
            u32_at(self.padding@, 12),
            u32_at(self.padding@, 16),
            u32_at(self.padding@, 20),
            u32_at(self.padding@, 24),
            u32_at(self.padding@, 28),
        ]
    }

    open spec fn record_of(payload: &MessagePayload) -> Self {
        MessageSysGetInfo {
            request: bits_i32(payload@[0]),
            endpt: bits_i32(payload@[1]),
            val_ptr: payload@[2],
            val_len: bits_i32(payload@[3]),
            val_ptr2: payload@[4],
            val_len2_e: bits_i32(payload@[5]),
            padding: [
                payload_byte(payload@, 24),
                payload_byte(payload@, 25),
                payload_byte(payload@, 26),
                payload_byte(payload@, 27),
                payload_byte(payload@, 28),
                payload_byte(payload@, 29),
                payload_byte(payload@, 30),
                payload_byte(payload@, 31),
                payload_byte(payload@, 32),
                payload_byte(payload@, 33),
                payload_byte(payload@, 34),
                payload_byte(payload@, 35),
                payload_byte(payload@, 36),
                payload_byte(payload@, 37),
                payload_byte(payload@, 38),
                payload_byte(payload@, 39),
                payload_byte(payload@, 40),
                payload_byte(payload@, 41),
                payload_byte(payload@, 42),
                payload_byte(payload@, 43),
                payload_byte(payload@, 44),
                payload_byte(payload@, 45),
                payload_byte(payload@, 46),
                payload_byte(payload@, 47),
                payload_byte(payload@, 48),
                payload_byte(payload@, 49),
                payload_byte(payload@, 50),
                payload_byte(payload@, 51),
                payload_byte(payload@, 52),
                payload_byte(payload@, 53),
                payload_byte(payload@, 54),
                payload_byte(payload@, 55),
            ],
        }
    }

    proof fn lemma_payload_round_trip(&self) {
        lemma_auto_spec_u32_to_from_le_bytes();
        lemma_bits_round_trip(self.request, 0);
        lemma_bits_round_trip(self.endpt, 0);
        lemma_bits_round_trip(self.val_len, 0);
        lemma_bits_round_trip(self.val_len2_e, 0);
        let p = self.payload_of();
        let r = Self::record_of(&p);
        assert forall|j: int| 0 <= j < 32 implies r.padding@[j] == self.padding@[j] by {
            let k = j / 4;
            assert(p@[6 + k] == u32_at(self.padding@, 4 * k));
            assert(self.padding@.subrange(4 * k, 4 * k + 4)[j % 4] == self.padding@[j]);
        }
        assert(r.padding =~= self.padding);
    }

    fn from_payload(payload: &MessagePayload) -> (r: Self) {
        let r = MessageSysGetInfo {
            request: from_bits(payload[0]),
            endpt: from_bits(payload[1]),
            val_ptr: payload[2],
            val_len: from_bits(payload[3]),
            val_ptr2: payload[4],
            val_len2_e: from_bits(payload[5]),
            padding: payload_tail::<32>(payload, 6),
        };
        proof {
            assert(r.padding =~= Self::record_of(payload).padding);
        }
        r
    }

    fn into_payload(&self) -> (p: MessagePayload) {
        let mut p: MessagePayload = [
            to_bits(self.request), to_bits(self.endpt), self.val_ptr, to_bits(self.val_len),
            self.val_ptr2, to_bits(self.val_len2_e), 0, 0, 0, 0, 0, 0, 0, 0,
        ];
        set_payload_tail::<32>(&mut p, 6, &self.padding);
        proof {
            assert(p =~= self.payload_of());
        }
        p
    }
}

/// The answer to the request to GETINFO that asks who the caller is.
#[derive(Debug, Clone, Copy, PartialEq, Eq)]
pub struct MessageSysWhoAmI {
    pub endpt: Endpoint,
    pub privflags: i32,
    pub initflags: i32,
    pub name: [u8; 44],
}

impl Payload for MessageSysWhoAmI {
    open spec fn payload_of(&self) -> MessagePayload {
        [
            i32_bits(self.endpt),
            i32_bits(self.privflags),
            i32_bits(self.initflags),
            u32_at(self.name@, 0),
            u32_at(self.name@, 4),
            u32_at(self.name@, 8),
            u32_at(self.name@, 12),
            u32_at(self.name@, 16),
            u32_at(self.name@, 20),
            u32_at(self.name@, 24),
            u32_at(self.name@, 28),
            u32_at(self.name@, 32),
            u32_at(self.name@, 36),
            u32_at(self.name@, 40),
        ]
    }

    open spec fn record_of(payload: &MessagePayload) -> Self {
        MessageSysWhoAmI {
            endpt: bits_i32(payload@[0]),
            privflags: bits_i32(payload@[1]),
            initflags: bits_i32(payload@[2]),
            name: [
                payload_byte(payload@, 12),
                payload_byte(payload@, 13),
                payload_byte(payload@, 14),
                payload_byte(payload@, 15),
                payload_byte(payload@, 16),
                payload_byte(payload@, 17),
                payload_byte(payload@, 18),
                payload_byte(payload@, 19),
                payload_byte(payload@, 20),
                payload_byte(payload@, 21),
                payload_byte(payload@, 22),
                payload_byte(payload@, 23),
                payload_byte(payload@, 24),
                payload_byte(payload@, 25),
                payload_byte(payload@, 26),
                payload_byte(payload@, 27),
                payload_byte(payload@, 28),
                payload_byte(payload@, 29),
                payload_byte(payload@, 30),
                payload_byte(payload@, 31),
                payload_byte(payload@, 32),
                payload_byte(payload@, 33),
                payload_byte(payload@, 34),
                payload_byte(payload@, 35),
                payload_byte(payload@, 36),
                payload_byte(payload@, 37),
                payload_byte(payload@, 38),
                payload_byte(payload@, 39),
                payload_byte(payload@, 40),
                payload_byte(payload@, 41),
                payload_byte(payload@, 42),
                payload_byte(payload@, 43),
                payload_byte(payload@, 44),
                payload_byte(payload@, 45),
                payload_byte(payload@, 46),
                payload_byte(payload@, 47),
                payload_byte(payload@, 48),
                payload_byte(payload@, 49),
                payload_byte(payload@, 50),
                payload_byte(payload@, 51),
                payload_byte(payload@, 52),
                payload_byte(payload@, 53),
                payload_byte(payload@, 54),
                payload_byte(payload@, 55),
            ],
        }
    }

    proof fn lemma_payload_round_trip(&self) {
        lemma_auto_spec_u32_to_from_le_bytes();
        lemma_bits_round_trip(self.endpt, 0);
        lemma_bits_round_trip(self.privflags, 0);
        lemma_bits_round_trip(self.initflags, 0);
        let p = self.payload_of();
        let r = Self::record_of(&p);
        assert forall|j: int| 0 <= j < 44 implies r.name@[j] == self.name@[j] by {
            let k = j / 4;
            assert(p@[3 + k] == u32_at(self.name@, 4 * k));
            assert(self.name@.subrange(4 * k, 4 * k + 4)[j % 4] == self.name@[j]);
        }
        assert(r.name =~= self.name);
    }

    fn from_payload(payload: &MessagePayload) -> (r: Self) {
        let r = MessageSysWhoAmI {
            endpt: from_bits(payload[0]),
            privflags: from_bits(payload[1]),
            initflags: from_bits(payload[2]),
            name: payload_tail::<44>(payload, 3),
        };
        proof {
            assert(r.name =~= Self::record_of(payload).name);
        }
        r
    }

    fn into_payload(&self) -> (p: MessagePayload) {
        let mut p: MessagePayload = [
            to_bits(self.endpt), to_bits(self.privflags), to_bits(self.initflags), 0, 0, 0, 0, 0, 0,
            0, 0, 0, 0, 0,
        ];
        set_payload_tail::<44>(&mut p, 3, &self.name);
        proof {
            assert(p =~= self.payload_of());
        }
        p
    }
}

/// The request of the DIAGCTL kernel call.
#[derive(Debug, Clone, Copy, PartialEq, Eq)]
pub struct MessageSysDiagCtl {
    pub code: i32,
    pub buf: u32,
    pub len: i32,
    pub endpoint: Endpoint,
    pub padding: [u8; 40],
}

impl Payload for MessageSysDiagCtl {
    open spec fn payload_of(&self) -> MessagePayload {
        [
            i32_bits(self.code),
            self.buf,
            i32_bits(self.len),
            i32_bits(self.endpoint),
            u32_at(self.padding@, 0),
            u32_at(self.padding@, 4),
            u32_at(self.padding@, 8),
            u32_at(self.padding@, 12),
            u32_at(self.padding@, 16),
            u32_at(self.padding@, 20),
            u32_at(self.padding@, 24),
            u32_at(self.padding@, 28),
            u32_at(self.padding@, 32),
            u32_at(self.padding@, 36),
        ]
    }

    open spec fn record_of(payload: &MessagePayload) -> Self {
        MessageSysDiagCtl {
            code: bits_i32(payload@[0]),
            buf: payload@[1],
            len: bits_i32(payload@[2]),
            endpoint: bits_i32(payload@[3]),
            padding: [
                payload_byte(payload@, 16),
                payload_byte(payload@, 17),
                payload_byte(payload@, 18),
                payload_byte(payload@, 19),
                payload_byte(payload@, 20),
                payload_byte(payload@, 21),
                payload_byte(payload@, 22),
                payload_byte(payload@, 23),
                payload_byte(payload@, 24),
                payload_byte(payload@, 25),
                payload_byte(payload@, 26),
                payload_byte(payload@, 27),
                payload_byte(payload@, 28),
                payload_byte(payload@, 29),
                payload_byte(payload@, 30),
                payload_byte(payload@, 31),
                payload_byte(payload@, 32),
                payload_byte(payload@, 33),
                payload_byte(payload@, 34),
                payload_byte(payload@, 35),
                payload_byte(payload@, 36),
                payload_byte(payload@, 37),
                payload_byte(payload@, 38),
                payload_byte(payload@, 39),
                payload_byte(payload@, 40),
                payload_byte(payload@, 41),
                payload_byte(payload@, 42),
                payload_byte(payload@, 43),
                payload_byte(payload@, 44),
                payload_byte(payload@, 45),
                payload_byte(payload@, 46),
                payload_byte(payload@, 47),
                payload_byte(payload@, 48),
                payload_byte(payload@, 49),
                payload_byte(payload@, 50),
                payload_byte(payload@, 51),
                payload_byte(payload@, 52),
                payload_byte(payload@, 53),
                payload_byte(payload@, 54),
                payload_byte(payload@, 55),
            ],
        }
    }

    proof fn lemma_payload_round_trip(&self) {
        lemma_auto_spec_u32_to_from_le_bytes();
        lemma_bits_round_trip(self.code, 0);
        lemma_bits_round_trip(self.len, 0);
        lemma_bits_round_trip(self.endpoint, 0);
        let p = self.payload_of();
        let r = Self::record_of(&p);
        assert forall|j: int| 0 <= j < 40 implies r.padding@[j] == self.padding@[j] by {
            let k = j / 4;
            assert(p@[4 + k] == u32_at(self.padding@, 4 * k));
            assert(self.padding@.subrange(4 * k, 4 * k + 4)[j % 4] == self.padding@[j]);
        }
        assert(r.padding =~= self.padding);
    }

    fn from_payload(payload: &MessagePayload) -> (r: Self) {
        let r = MessageSysDiagCtl {
            code: from_bits(payload[0]),
            buf: payload[1],
            len: from_bits(payload[2]),
            endpoint: from_bits(payload[3]),
            padding: payload_tail::<40>(payload, 4),
        };
        proof {
            assert(r.padding =~= Self::record_of(payload).padding);
        }
        r
    }

    fn into_payload(&self) -> (p: MessagePayload) {
        let mut p: MessagePayload = [
            to_bits(self.code), self.buf, to_bits(self.len), to_bits(self.endpoint), 0, 0, 0, 0, 0,
            0, 0, 0, 0, 0,
        ];
        set_payload_tail::<40>(&mut p, 4, &self.padding);
        proof {
            assert(p =~= self.payload_of());
        }
        p
    }
}

} // verus!
