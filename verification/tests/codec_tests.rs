use kvstore::codec::{decode, encode};
use kvstore::record::{Record, Types};
use kvstore::KvError;

fn sample_record() -> Record {
    Record {
        name: "models".to_string(),
        values: vec![
            Types::String("Toyota".to_string()),
            Types::String(String::new()),
            Types::Bool(true),
            Types::Bool(false),
            Types::I16(-5),
            Types::I16(i16::MIN),
            Types::I32(7),
            Types::I32(i32::MIN),
            Types::I64(-9),
            Types::I64(i64::MAX),
            Types::U16(1),
            Types::U32(2),
            Types::U64(u64::MAX),
        ],
    }
}

#[test]
fn round_trip_all_variants() {
    let r = sample_record();
    let bytes = encode(&r);
    let back = decode(&bytes).expect("canonical encoding must decode");
    assert_eq!(back, r);
}

#[test]
fn round_trip_empty_record() {
    let r = Record { name: String::new(), values: Vec::new() };
    let bytes = encode(&r);
    let back = decode(&bytes).expect("canonical encoding must decode");
    assert_eq!(back, r);
}

#[test]
fn round_trip_unicode_name() {
    let r = Record {
        name: "modèles-日本".to_string(),
        values: vec![Types::String("καλημέρα".to_string())],
    };
    let bytes = encode(&r);
    let back = decode(&bytes).expect("canonical encoding must decode");
    assert_eq!(back, r);
}

#[test]
fn encode_exact_bytes() {
    let r = Record { name: "a".to_string(), values: vec![Types::U64(1)] };
    let bytes = encode(&r);
    let expected: Vec<u8> = vec![
        1, 0, 0, 0, 0, 0, 0, 0, // name length
        97, // 'a'
        1, 0, 0, 0, 0, 0, 0, 0, // value count
        7, // the U64 tag
        1, 0, 0, 0, 0, 0, 0, 0, // the value
    ];
    assert_eq!(bytes, expected);
}

#[test]
fn encode_negative_two_complement() {
    let r = Record { name: String::new(), values: vec![Types::I16(-1)] };
    let bytes = encode(&r);
    let expected: Vec<u8> = vec![
        0, 0, 0, 0, 0, 0, 0, 0, // empty name
        1, 0, 0, 0, 0, 0, 0, 0, // value count
        2, // the I16 tag
        255, 255, 0, 0, 0, 0, 0, 0, // -1 as two's complement
    ];
    assert_eq!(bytes, expected);
}

#[test]
fn decode_empty_is_corrupt() {
    assert_eq!(decode(&Vec::new()), Err(KvError::CorruptRecord));
}

#[test]
fn decode_truncated_is_corrupt() {
    let r = sample_record();
    let mut bytes = encode(&r);
    bytes.pop();
    assert_eq!(decode(&bytes), Err(KvError::CorruptRecord));
}

#[test]
fn decode_trailing_byte_is_corrupt() {
    let r = sample_record();
    let mut bytes = encode(&r);
    bytes.push(0);
    assert_eq!(decode(&bytes), Err(KvError::CorruptRecord));
}

#[test]
fn decode_unknown_tag_is_corrupt() {
    let mut bytes: Vec<u8> = vec![0, 0, 0, 0, 0, 0, 0, 0]; // empty name
    bytes.extend_from_slice(&[1, 0, 0, 0, 0, 0, 0, 0]); // one value
    bytes.push(9); // no such tag
    bytes.extend_from_slice(&[0, 0, 0, 0, 0, 0, 0, 0]);
    assert_eq!(decode(&bytes), Err(KvError::CorruptRecord));
}

#[test]
fn decode_bad_bool_payload_is_corrupt() {
    let mut bytes: Vec<u8> = vec![0, 0, 0, 0, 0, 0, 0, 0];
    bytes.extend_from_slice(&[1, 0, 0, 0, 0, 0, 0, 0]);
    bytes.push(1); // the Bool tag
    bytes.push(2); // neither 0 nor 1
    assert_eq!(decode(&bytes), Err(KvError::CorruptRecord));
}

#[test]
fn decode_bad_utf8_name_is_corrupt() {
    let mut bytes: Vec<u8> = vec![1, 0, 0, 0, 0, 0, 0, 0]; // name of one byte
    bytes.push(0xff); // not UTF-8
    bytes.extend_from_slice(&[0, 0, 0, 0, 0, 0, 0, 0]);
    assert_eq!(decode(&bytes), Err(KvError::CorruptRecord));
}

#[test]
fn decode_oversized_width_is_corrupt() {
    let mut bytes: Vec<u8> = vec![0, 0, 0, 0, 0, 0, 0, 0];
    bytes.extend_from_slice(&[1, 0, 0, 0, 0, 0, 0, 0]);
    bytes.push(5); // the U16 tag
    bytes.extend_from_slice(&[0, 0, 1, 0, 0, 0, 0, 0]); // 65536: too wide for u16
    assert_eq!(decode(&bytes), Err(KvError::CorruptRecord));
}

#[test]
fn error_messages_are_distinct() {
    let m1 = KvError::CorruptRecord.message();
    let m2 = KvError::StorageFailure.message();
    assert_ne!(m1, m2);
    assert!(!m1.is_empty());
}
