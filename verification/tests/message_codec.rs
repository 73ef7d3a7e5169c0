use minix_ipc::sys::payloads::{MessageSysDiagCtl, MessageSysGetInfo, MessageSysWhoAmI};
use minix_ipc::utils::endpoint::{ANY, ASYNCM, NONE, SELF};
use minix_ipc::utils::message::{Message, Payload, MESSAGE_SIZE, NOTIFY_MESSAGE};
use minix_ipc::utils::wire::{from_bits, low_bits, to_bits, widen};

fn sample() -> Message {
    Message {
        source: 41,
        m_type: 0x10,
        payload: [1, 2, 3, 4, 5, 6, 7, 8, 9, 10, 11, 12, 13, 14],
    }
}

#[test]
fn special_endpoints_have_their_numbers() {
    assert_eq!(ANY, 31744);
    assert_eq!(NONE, 31743);
    assert_eq!(SELF, 31742);
    assert_eq!(ASYNCM, -5);
    assert_eq!(NOTIFY_MESSAGE, 0x1000);
}

#[test]
fn message_takes_64_bytes_in_field_order() {
    let bytes = sample().to_bytes();
    assert_eq!(bytes.len(), MESSAGE_SIZE);
    assert_eq!(&bytes[0..4], &[41, 0, 0, 0]);
    assert_eq!(&bytes[4..8], &[0x10, 0, 0, 0]);
    assert_eq!(&bytes[8..12], &[1, 0, 0, 0]);
    assert_eq!(&bytes[60..64], &[14, 0, 0, 0]);
}

#[test]
fn negative_source_is_stored_in_twos_complement() {
    let message = Message { source: ASYNCM, m_type: 0xAABBCCDD, payload: [0; 14] };
    let bytes = message.to_bytes();
    assert_eq!(&bytes[0..4], &[0xFB, 0xFF, 0xFF, 0xFF]);
    assert_eq!(&bytes[4..8], &[0xDD, 0xCC, 0xBB, 0xAA]);
    assert_eq!(Message::from_bytes(&bytes), message);
}

#[test]
fn message_written_and_read_back_is_the_same() {
    let message = sample();
    assert_eq!(Message::from_bytes(&message.to_bytes()), message);
    let mut raw = [0u8; 64];
    for (i, byte) in raw.iter_mut().enumerate() {
        *byte = (i * 7 + 3) as u8;
    }
    assert_eq!(Message::from_bytes(&raw).to_bytes(), raw.to_vec());
}

#[test]
fn message_as_words() {
    let words: [u64; 8] = sample().into();
    assert_eq!(words[0], 41 | (0x10 << 32));
    assert_eq!(words[1], 1 | (2 << 32));
    assert_eq!(words[7], 13 | (14 << 32));
    assert_eq!(Message::from(words), sample());
    let other: [u64; 8] = [
        0x0123456789ABCDEF,
        1,
        2,
        3,
        u64::MAX,
        5,
        6,
        0x8000000000000000,
    ];
    let back: [u64; 8] = Message::from(other).into();
    assert_eq!(back, other);
    assert_eq!(Message::from(other).source, 0x89ABCDEFu32 as i32);
    assert_eq!(Message::from(other).m_type, 0x01234567);
}

#[test]
fn bits_of_signed_numbers() {
    assert_eq!(to_bits(-1), u32::MAX);
    assert_eq!(to_bits(i32::MIN), 0x8000_0000);
    assert_eq!(to_bits(5), 5);
    assert_eq!(from_bits(0xFFFF_FF36), -202);
    assert_eq!(from_bits(7), 7);
    assert_eq!(low_bits(0xAAAA_BBBB_0000_7C00), 31744);
    assert_eq!(low_bits(0xFFFF_FFFF_FFFF_FFFB), -5);
    assert_eq!(widen(-22), 0xFFFF_FFFF_FFFF_FFEA);
    assert_eq!(widen(0), 0);
    assert_eq!(low_bits(widen(-201)), -201);
}

#[test]
fn typed_payloads_round_trip() {
    let mut padding = [0u8; 32];
    for (i, byte) in padding.iter_mut().enumerate() {
        *byte = 200 - i as u8;
    }
    let request = MessageSysGetInfo {
        request: 18,
        endpt: -2,
        val_ptr: 0xF000_0010,
        val_len: 4,
        val_ptr2: 9,
        val_len2_e: -7,
        padding,
    };
    let payload = request.into_payload();
    assert_eq!(payload[0], 18);
    assert_eq!(payload[1], 0xFFFF_FFFE);
    assert_eq!(payload[2], 0xF000_0010);
    assert_eq!(payload[5], 0xFFFF_FFF9);
    assert_eq!(payload[6], u32::from_le_bytes([200, 199, 198, 197]));
    assert_eq!(MessageSysGetInfo::from_payload(&payload), request);

    let mut name = [0u8; 44];
    name[0] = b'r';
    name[1] = b's';
    name[43] = 1;
    let answer = MessageSysWhoAmI { endpt: 2, privflags: 0x100, initflags: 0, name };
    let payload = answer.into_payload();
    assert_eq!(payload[0], 2);
    assert_eq!(payload[1], 0x100);
    assert_eq!(payload[3], u32::from_le_bytes([b'r', b's', 0, 0]));
    assert_eq!(payload[13], 0x0100_0000);
    assert_eq!(MessageSysWhoAmI::from_payload(&payload), answer);

    let raw: [u32; 14] = [1, 0x2000, 5, 41, 10, 11, 12, 13, 14, 15, 16, 17, 18, 0xDEADBEEF];
    let diag = MessageSysDiagCtl::from_payload(&raw);
    assert_eq!(diag.code, 1);
    assert_eq!(diag.buf, 0x2000);
    assert_eq!(diag.len, 5);
    assert_eq!(diag.endpoint, 41);
    assert_eq!(diag.padding[0], 10);
    assert_eq!(&diag.padding[36..40], &[0xEF, 0xBE, 0xAD, 0xDE]);
    assert_eq!(diag.into_payload(), raw);
}
