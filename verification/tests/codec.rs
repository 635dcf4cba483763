use atomic_register::atomicregister::big_endian::{get_u32_be, get_u64_be, put_u32_be, put_u64_be};
use atomic_register::atomicregister::codec::{
    AtomicRegisterSer, SerError, ACK_ID, MAX_WIRE_LEN, OVERLONG_TEXT, READ_ID, TRUNCATED_TEXT,
    UNKNOWN_ID_TEXT, VALUE_ID, WRITE_ID,
};
use atomic_register::atomicregister::messages::{Ack, AtomicRegisterMessage, Read, Value, Write};
use atomic_register::serialiser_ids::{ATOMICREG_ID, PARTITIONING_ID};

fn encode(m: &AtomicRegisterMessage) -> Vec<u8> {
    let mut buf = Vec::new();
    assert_eq!(AtomicRegisterSer.serialise(m, &mut buf), Ok(()));
    buf
}

fn sample_value() -> AtomicRegisterMessage {
    AtomicRegisterMessage::Value(Value {
        run_id: 7,
        key: 42,
        rid: 3,
        ts: 5,
        wr: 1,
        value: 99,
        sender_rank: 2,
    })
}

#[test]
fn value_encodes_to_33_bytes_and_decodes_back() {
    let m = sample_value();
    let bytes = encode(&m);
    assert_eq!(bytes.len(), 33);
    assert_eq!(bytes[0], 0x03);
    assert_eq!(AtomicRegisterSer::deserialise(&bytes), Ok(m));
}

#[test]
fn value_bytes_are_big_endian_fields_in_order() {
    let bytes = encode(&sample_value());
    let expected: Vec<u8> = vec![
        3, // tag
        0, 0, 0, 7, // run_id
        0, 0, 0, 0, 0, 0, 0, 42, // key
        0, 0, 0, 3, // rid
        0, 0, 0, 5, // ts
        0, 0, 0, 1, // wr
        0, 0, 0, 99, // value
        0, 0, 0, 2, // sender_rank
    ];
    assert_eq!(bytes, expected);
}

#[test]
fn read_bytes_are_exact() {
    let m = AtomicRegisterMessage::Read(Read { run_id: 0x01020304, key: 0x1112131415161718, rid: 0xA1A2A3A4 });
    let expected: Vec<u8> = vec![
        1, 0x01, 0x02, 0x03, 0x04, 0x11, 0x12, 0x13, 0x14, 0x15, 0x16, 0x17, 0x18, 0xA1, 0xA2,
        0xA3, 0xA4,
    ];
    assert_eq!(encode(&m), expected);
    assert_eq!(AtomicRegisterSer::deserialise(&expected), Ok(m));
}

#[test]
fn write_bytes_are_exact() {
    let m = AtomicRegisterMessage::Write(Write {
        run_id: 1,
        key: 2,
        rid: 3,
        ts: 0xFFFFFFFF,
        wr: 0x100,
        value: 0x10000,
    });
    let expected: Vec<u8> = vec![
        2, 0, 0, 0, 1, 0, 0, 0, 0, 0, 0, 0, 2, 0, 0, 0, 3, 0xFF, 0xFF, 0xFF, 0xFF, 0, 0, 1, 0, 0,
        1, 0, 0,
    ];
    assert_eq!(encode(&m), expected);
    assert_eq!(AtomicRegisterSer::deserialise(&expected), Ok(m));
}

#[test]
fn ack_bytes_are_exact() {
    let m = AtomicRegisterMessage::Ack(Ack { run_id: u32::MAX, key: u64::MAX, rid: 0 });
    let expected: Vec<u8> = vec![
        4, 0xFF, 0xFF, 0xFF, 0xFF, 0xFF, 0xFF, 0xFF, 0xFF, 0xFF, 0xFF, 0xFF, 0xFF, 0, 0, 0, 0,
    ];
    assert_eq!(encode(&m), expected);
    assert_eq!(AtomicRegisterSer::deserialise(&expected), Ok(m));
}

#[test]
fn lengths_are_17_29_33_17() {
    let read = AtomicRegisterMessage::Read(Read { run_id: 1, key: 2, rid: 3 });
    let write = AtomicRegisterMessage::Write(Write { run_id: 1, key: 2, rid: 3, ts: 4, wr: 5, value: 6 });
    let ack = AtomicRegisterMessage::Ack(Ack { run_id: 1, key: 2, rid: 3 });
    assert_eq!(encode(&read).len(), 17);
    assert_eq!(encode(&write).len(), 29);
    assert_eq!(encode(&sample_value()).len(), 33);
    assert_eq!(encode(&ack).len(), 17);
    assert_eq!(AtomicRegisterSer::encoded_len(&read), 17);
    assert_eq!(AtomicRegisterSer::encoded_len(&write), 29);
    assert_eq!(AtomicRegisterSer::encoded_len(&sample_value()), 33);
    assert_eq!(AtomicRegisterSer::encoded_len(&ack), 17);
}

#[test]
fn size_hint_is_the_longest_message() {
    assert_eq!(AtomicRegisterSer.size_hint(), Some(33));
    assert_eq!(MAX_WIRE_LEN, 33);
}

#[test]
fn discriminators_are_one_to_four() {
    assert_eq!((READ_ID, WRITE_ID, VALUE_ID, ACK_ID), (1, 2, 3, 4));
}

#[test]
fn serialiser_ids_are_distinct() {
    assert_eq!(AtomicRegisterSer.serid(), ATOMICREG_ID);
    assert_ne!(ATOMICREG_ID, PARTITIONING_ID);
}

#[test]
fn serialise_appends_to_what_the_buffer_holds() {
    let mut buf = vec![0xAAu8, 0xBB];
    let m = AtomicRegisterMessage::Read(Read { run_id: 1, key: 2, rid: 3 });
    assert_eq!(AtomicRegisterSer.serialise(&m, &mut buf), Ok(()));
    assert_eq!(buf.len(), 19);
    assert_eq!(&buf[..2], &[0xAA, 0xBB]);
    assert_eq!(AtomicRegisterSer::deserialise(&buf[2..]), Ok(m));
}

#[test]
fn round_trip_of_every_kind_at_the_extremes() {
    let all = vec![
        AtomicRegisterMessage::Read(Read { run_id: 0, key: 0, rid: 0 }),
        AtomicRegisterMessage::Read(Read { run_id: u32::MAX, key: u64::MAX, rid: u32::MAX }),
        AtomicRegisterMessage::Ack(Ack { run_id: 0x80000000, key: 0x8000000000000000, rid: 1 }),
        AtomicRegisterMessage::Write(Write {
            run_id: 9,
            key: 0x0102030405060708,
            rid: 0xFFFFFFFE,
            ts: u32::MAX,
            wr: 0,
            value: 0xDEADBEEF,
        }),
        AtomicRegisterMessage::Value(Value {
            run_id: u32::MAX,
            key: u64::MAX,
            rid: u32::MAX,
            ts: u32::MAX,
            wr: u32::MAX,
            value: u32::MAX,
            sender_rank: u32::MAX,
        }),
    ];
    for m in all {
        assert_eq!(AtomicRegisterSer::deserialise(&encode(&m)), Ok(m));
    }
}

#[test]
fn decoding_then_encoding_gives_the_bytes_back() {
    let mut bytes: Vec<u8> = (0u8..29).map(|i| i.wrapping_mul(37).wrapping_add(11)).collect();
    bytes[0] = 2;
    let m = AtomicRegisterSer::deserialise(&bytes).unwrap();
    assert_eq!(encode(&m), bytes);
}

#[test]
fn bytes_behind_the_message_are_refused() {
    for m in [
        AtomicRegisterMessage::Read(Read { run_id: 1, key: 2, rid: 3 }),
        AtomicRegisterMessage::Write(Write { run_id: 1, key: 2, rid: 3, ts: 4, wr: 5, value: 6 }),
        sample_value(),
        AtomicRegisterMessage::Ack(Ack { run_id: 5, key: 6, rid: 7 }),
    ] {
        let mut bytes = encode(&m);
        assert_eq!(AtomicRegisterSer::deserialise(&bytes), Ok(m));
        bytes.push(0);
        assert_eq!(
            AtomicRegisterSer::deserialise(&bytes),
            Err(SerError::InvalidData(OVERLONG_TEXT.to_string()))
        );
        bytes.extend_from_slice(&[9, 9, 9]);
        assert_eq!(
            AtomicRegisterSer::deserialise(&bytes),
            Err(SerError::InvalidData(OVERLONG_TEXT.to_string()))
        );
    }
    // a read with the bytes of a write is a read with bytes behind it
    let write = encode(&AtomicRegisterMessage::Write(Write {
        run_id: 1,
        key: 2,
        rid: 3,
        ts: 4,
        wr: 5,
        value: 6,
    }));
    let mut read_tagged = write.clone();
    read_tagged[0] = 1;
    assert_eq!(
        AtomicRegisterSer::deserialise(&read_tagged),
        Err(SerError::InvalidData(OVERLONG_TEXT.to_string()))
    );
}

#[test]
fn every_buffer_fails_or_is_the_encoding_of_what_it_holds() {
    for tag in 0u8..=6 {
        for len in 0usize..=40 {
            let mut bytes: Vec<u8> =
                (0..len).map(|i| (i as u8).wrapping_mul(29).wrapping_add(tag)).collect();
            if len > 0 {
                bytes[0] = tag;
            }
            match AtomicRegisterSer::deserialise(&bytes) {
                Ok(m) => assert_eq!(encode(&m), bytes),
                Err(_) => {
                    let whole = match tag {
                        1 | 4 => len == 17,
                        2 => len == 29,
                        3 => len == 33,
                        _ => false,
                    };
                    assert!(!whole);
                }
            }
        }
    }
}

#[test]
fn unknown_discriminator_is_an_invalid_type() {
    for tag in [0u8, 5, 9, 0x7F, 0x80, 0xFF] {
        let mut bytes = vec![0u8; 33];
        bytes[0] = tag;
        assert_eq!(
            AtomicRegisterSer::deserialise(&bytes),
            Err(SerError::InvalidType(UNKNOWN_ID_TEXT.to_string()))
        );
    }
    assert_eq!(
        AtomicRegisterSer::deserialise(&[9u8]),
        Err(SerError::InvalidType(
            "Found unkown id, but expected Read, Value, Write or Ack.".to_string()
        ))
    );
}

#[test]
fn empty_buffer_is_invalid_data() {
    assert_eq!(
        AtomicRegisterSer::deserialise(&[]),
        Err(SerError::InvalidData(TRUNCATED_TEXT.to_string()))
    );
}

#[test]
fn truncated_message_is_invalid_data() {
    for m in [
        AtomicRegisterMessage::Read(Read { run_id: 1, key: 2, rid: 3 }),
        AtomicRegisterMessage::Write(Write { run_id: 1, key: 2, rid: 3, ts: 4, wr: 5, value: 6 }),
        sample_value(),
        AtomicRegisterMessage::Ack(Ack { run_id: 1, key: 2, rid: 3 }),
    ] {
        let bytes = encode(&m);
        for cut in 1..bytes.len() {
            let res = AtomicRegisterSer::deserialise(&bytes[..cut]);
            assert_eq!(res, Err(SerError::InvalidData(TRUNCATED_TEXT.to_string())));
        }
    }
}

#[test]
fn error_text_is_what_the_error_carries() {
    let e = AtomicRegisterSer::deserialise(&[0u8]).unwrap_err();
    assert_eq!(e.text(), UNKNOWN_ID_TEXT);
}

#[test]
fn big_endian_numbers_are_written_most_significant_first() {
    let mut buf = Vec::new();
    put_u32_be(&mut buf, 0x0A0B0C0D);
    put_u64_be(&mut buf, 0x0102030405060708);
    assert_eq!(buf, vec![0x0A, 0x0B, 0x0C, 0x0D, 1, 2, 3, 4, 5, 6, 7, 8]);
    assert_eq!(get_u32_be(&buf, 0), 0x0A0B0C0D);
    assert_eq!(get_u64_be(&buf, 4), 0x0102030405060708);
    assert_eq!(get_u32_be(&buf, 8), 0x05060708);
}

#[test]
fn message_accessors_give_run_id_and_key() {
    let m = sample_value();
    assert_eq!(m.run_id(), 7);
    assert_eq!(m.key(), 42);
}
