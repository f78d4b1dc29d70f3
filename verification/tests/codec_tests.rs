use crsqlite::codec::{pack_columns, unpack_columns, CodecError};
use crsqlite::values::ColumnValue;

fn round_trip(vals: Vec<ColumnValue>) {
    let packed = pack_columns(&vals).expect("packing should succeed");
    let unpacked = unpack_columns(&packed).expect("unpacking should succeed");
    assert_eq!(unpacked.len(), vals.len());
    for (a, b) in vals.iter().zip(unpacked.iter()) {
        match (a, b) {
            (ColumnValue::Null, ColumnValue::Null) => {}
            (ColumnValue::Integer(x), ColumnValue::Integer(y)) => assert_eq!(x, y),
            (ColumnValue::Real(x), ColumnValue::Real(y)) => assert_eq!(x, y),
            (ColumnValue::Text(x), ColumnValue::Text(y)) => assert_eq!(x, y),
            (ColumnValue::Blob(x), ColumnValue::Blob(y)) => assert_eq!(x, y),
            _ => panic!("value changed type through the codec"),
        }
    }
}

#[test]
fn round_trip_empty() {
    round_trip(vec![]);
}

#[test]
fn round_trip_single_values() {
    round_trip(vec![ColumnValue::Null]);
    round_trip(vec![ColumnValue::Integer(0)]);
    round_trip(vec![ColumnValue::Integer(-1)]);
    round_trip(vec![ColumnValue::Integer(i64::MAX)]);
    round_trip(vec![ColumnValue::Integer(i64::MIN)]);
    round_trip(vec![ColumnValue::Real(1.5f64.to_bits())]);
    round_trip(vec![ColumnValue::Real((-0.0f64).to_bits())]);
    round_trip(vec![ColumnValue::Text(b"hello".to_vec())]);
    round_trip(vec![ColumnValue::Blob(vec![0, 1, 2, 255])]);
}

#[test]
fn round_trip_zero_length_payloads() {
    round_trip(vec![ColumnValue::Text(vec![]), ColumnValue::Blob(vec![])]);
}

#[test]
fn round_trip_mixed() {
    round_trip(vec![
        ColumnValue::Integer(42),
        ColumnValue::Null,
        ColumnValue::Text(b"mixed".to_vec()),
        ColumnValue::Real(3.25f64.to_bits()),
        ColumnValue::Blob(b"\x00\xff".to_vec()),
        ColumnValue::Null,
    ]);
}

#[test]
fn round_trip_255_columns() {
    let vals: Vec<ColumnValue> = (0..255).map(ColumnValue::Integer).collect();
    round_trip(vals);
}

#[test]
fn pack_rejects_too_many_columns() {
    let vals: Vec<ColumnValue> = (0..256).map(ColumnValue::Integer).collect();
    assert_eq!(pack_columns(&vals), Err(CodecError::TooManyColumns));
}

#[test]
fn unpack_rejects_empty_buffer() {
    assert_eq!(unpack_columns(&vec![]), Err(CodecError::Malformed));
}

#[test]
fn unpack_rejects_truncation_everywhere() {
    let vals = vec![
        ColumnValue::Integer(7),
        ColumnValue::Text(b"abc".to_vec()),
        ColumnValue::Blob(vec![9, 9]),
    ];
    let packed = pack_columns(&vals).unwrap();
    // every proper prefix must fail rather than read out of bounds
    for cut in 0..packed.len() {
        let truncated: Vec<u8> = packed[..cut].to_vec();
        assert!(unpack_columns(&truncated).is_err(), "prefix of {cut} bytes must fail");
    }
}

#[test]
fn unpack_rejects_trailing_garbage() {
    let mut packed = pack_columns(&vec![ColumnValue::Null]).unwrap();
    packed.push(0);
    assert_eq!(unpack_columns(&packed), Err(CodecError::Malformed));
}

#[test]
fn unpack_rejects_unknown_tag() {
    // count byte says one value, tag 9 names no type class
    let buf = vec![1u8, 9u8];
    assert_eq!(unpack_columns(&buf), Err(CodecError::UnknownTag));
}

#[test]
fn unpack_rejects_negative_length_prefix() {
    // a text value whose four-byte length has the sign bit set
    let buf = vec![1u8, 3u8, 0xff, 0xff, 0xff, 0xff];
    assert_eq!(unpack_columns(&buf), Err(CodecError::Malformed));
}

#[test]
fn packed_layout_is_stable() {
    // one i64 (7): count byte, integer tag, eight big-endian payload bytes
    let packed = pack_columns(&vec![ColumnValue::Integer(7)]).unwrap();
    assert_eq!(packed, vec![1u8, 1, 0, 0, 0, 0, 0, 0, 0, 7]);
    // text "ab": count byte, text tag, four-byte length, payload
    let packed = pack_columns(&vec![ColumnValue::Text(b"ab".to_vec())]).unwrap();
    assert_eq!(packed, vec![1u8, 3, 0, 0, 0, 2, b'a', b'b']);
}
