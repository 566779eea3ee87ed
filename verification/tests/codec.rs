use binserde::codec::{decode_fields, encode_fields, encode_fields_into};
use binserde::config::{coder, ByteOrder, IntEncoding, TrailingBytes};
use binserde::fields::{Field, FieldKind};
use binserde::records::{BinSerDe, KeepAliveReply, PgReplicationMsg, ShortStruct};
use binserde::{DeserializeError, SerializeError};

#[test]
fn short() {
    let x = ShortStruct { a: 7, b: 65536 };

    let encoded = x.bser().unwrap();

    assert_eq!(encoded, vec![7, 0, 1, 0, 0]);

    let raw = [8u8, 7, 3, 0, 0];
    let decoded: ShortStruct = ShortStruct::bdes(&raw).unwrap();

    assert_eq!(
        decoded,
        ShortStruct {
            a: 8,
            b: 0x07030000
        }
    );

    // has trailing data
    let raw = [8u8, 7, 3, 0, 0, 0xFF, 0xFF, 0xFF];
    let _: ShortStruct = ShortStruct::bdes(&raw).unwrap();
}

#[test]
fn keepalive_reply() {
    let msg = KeepAliveReply {
        blockpos: 0x1234,
        timestamp: 0x5678,
    };
    let msg = PgReplicationMsg::from(msg);

    let encoded = msg.bser().unwrap();

    // the bytes, one field per line
    let expected = [
        'r' as u8,
        0, 0, 0, 0, 0, 0, 18, 52,
        0, 0, 0, 0, 0, 0, 0, 0,
        0, 0, 0, 0, 0, 0, 0, 0,
        0, 0, 0, 0, 0, 0, 86, 120,
        0,
    ];

    assert_eq!(expected.len(), 34);

    assert_eq!(encoded, expected);
}

#[test]
fn round_trip_replication_msg() {
    let msg = PgReplicationMsg {
        tag: 114,
        blockpos: u64::MAX,
        last_flush_position: 1,
        apply: 0x0102030405060708,
        timestamp: 0,
        reply_requested: 255,
    };
    let encoded = msg.bser().unwrap();
    assert_eq!(encoded.len(), 34);
    let decoded = PgReplicationMsg::bdes(&encoded).unwrap();
    assert_eq!(decoded, msg);
}

#[test]
fn round_trip_short_struct() {
    let x = ShortStruct {
        a: 0,
        b: 0xDEADBEEF,
    };
    let encoded = x.bser().unwrap();
    let decoded = ShortStruct::bdes(&encoded).unwrap();
    assert_eq!(decoded, x);
}

#[test]
fn fixed_width_small_values() {
    // A u32 value of 1 occupies all four bytes, not one.
    let fields = vec![Field::U32(1)];
    assert_eq!(encode_fields(&fields), vec![0, 0, 0, 1]);

    // A u64 value of 1 occupies all eight bytes.
    let fields = vec![Field::U64(1)];
    assert_eq!(encode_fields(&fields), vec![0, 0, 0, 0, 0, 0, 0, 1]);
}

#[test]
fn big_endian_byte_order() {
    // Most significant byte first.
    let fields = vec![Field::U32(0x01020304)];
    assert_eq!(encode_fields(&fields), vec![1, 2, 3, 4]);

    let fields = vec![Field::U64(0x0102030405060708)];
    assert_eq!(encode_fields(&fields), vec![1, 2, 3, 4, 5, 6, 7, 8]);
}

#[test]
fn trailing_bytes_ignored() {
    let exact = [8u8, 7, 3, 0, 0];
    let padded = [8u8, 7, 3, 0, 0, 0xFF, 0xFF, 0xFF];
    let a: ShortStruct = ShortStruct::bdes(&exact).unwrap();
    let b: ShortStruct = ShortStruct::bdes(&padded).unwrap();
    assert_eq!(a, b);
}

#[test]
fn short_buffer_fails() {
    // Four bytes cannot hold a u8 followed by a u32.
    let raw = [8u8, 7, 3, 0];
    let r: Result<ShortStruct, DeserializeError> = ShortStruct::bdes(&raw);
    assert_eq!(r, Err(DeserializeError));

    let r: Result<ShortStruct, DeserializeError> = ShortStruct::bdes(&[]);
    assert_eq!(r, Err(DeserializeError));

    // 33 bytes cannot hold a 34-byte replication message.
    let raw = [0u8; 33];
    let r: Result<PgReplicationMsg, DeserializeError> = PgReplicationMsg::bdes(&raw);
    assert_eq!(r, Err(DeserializeError));
}

#[test]
fn decode_fields_reads_layout() {
    let layout = vec![FieldKind::U8, FieldKind::U32];
    let raw = [8u8, 7, 3, 0, 0];
    let fields = decode_fields(&layout, &raw).unwrap();
    assert_eq!(fields, vec![Field::U8(8), Field::U32(0x07030000)]);

    let too_short = [8u8, 7, 3];
    assert_eq!(decode_fields(&layout, &too_short), Err(DeserializeError));
}

#[test]
fn serialize_into_exact_buffer() {
    let x = ShortStruct { a: 7, b: 65536 };
    let mut dst = vec![0xAAu8; 5];
    assert_eq!(x.bser_into(&mut dst), Ok(()));
    assert_eq!(dst, vec![7, 0, 1, 0, 0]);
}

#[test]
fn serialize_into_larger_buffer_keeps_tail() {
    let x = ShortStruct { a: 7, b: 65536 };
    let mut dst = vec![0xAAu8; 8];
    assert_eq!(x.bser_into(&mut dst), Ok(()));
    assert_eq!(dst, vec![7, 0, 1, 0, 0, 0xAA, 0xAA, 0xAA]);
}

#[test]
fn serialize_into_too_small_fails_with_partial_write() {
    let x = ShortStruct { a: 7, b: 65536 };
    // Room for the u8 field but not for the whole u32 field: the write
    // fails and the first field stays written.
    let mut dst = vec![0xAAu8; 3];
    assert_eq!(x.bser_into(&mut dst), Err(SerializeError));
    assert_eq!(dst, vec![7, 0xAA, 0xAA]);

    // No room for anything: the buffer is untouched.
    let mut dst: Vec<u8> = Vec::new();
    assert_eq!(x.bser_into(&mut dst), Err(SerializeError));
    assert!(dst.is_empty());
}

#[test]
fn encode_fields_into_mixed_fit() {
    let fields = vec![Field::U8(1), Field::U64(2), Field::U8(3)];
    // 9 bytes hold the first two fields whole but not the third.
    let mut dst = vec![0x55u8; 9];
    assert_eq!(encode_fields_into(&fields, &mut dst), Err(SerializeError));
    assert_eq!(dst, vec![1, 0, 0, 0, 0, 0, 0, 0, 2]);

    let mut dst = vec![0x55u8; 10];
    assert_eq!(encode_fields_into(&fields, &mut dst), Ok(()));
    assert_eq!(dst, vec![1, 0, 0, 0, 0, 0, 0, 0, 2, 3]);
}

#[test]
fn reencode_reproduces_consumed_bytes() {
    let raw = [8u8, 7, 3, 0, 0, 0xFF, 0xFF, 0xFF];
    let decoded: ShortStruct = ShortStruct::bdes(&raw).unwrap();
    let encoded = decoded.bser().unwrap();
    assert_eq!(encoded, raw[..5]);
}

#[test]
fn canonical_configuration() {
    let c = coder();
    assert_eq!(c.byte_order, ByteOrder::BigEndian);
    assert_eq!(c.int_encoding, IntEncoding::FixedWidth);
    assert_eq!(c.trailing_bytes, TrailingBytes::Permit);
}

#[test]
fn error_messages() {
    assert_eq!(DeserializeError.message(), "deserialize error");
    assert_eq!(SerializeError.message(), "serialize error");
}
