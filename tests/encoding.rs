use rust_proton::encoder::{encode, Encoder, EncoderError};
use rust_proton::sys::ErrorCode;
use rust_proton::value::{decode, TaggedValue};

fn round_trip(v: TaggedValue) {
    let encoded = encode(&vec![v.clone()]).unwrap();
    let decoded = decode(&encoded).unwrap();
    assert_eq!(1, decoded.len());
    assert_eq!(v, decoded[0]);
}

#[test]
fn test_string_encoding() {
    let value = "testing";
    let mut encoder = Encoder::with_capacity(1024);
    encoder.emit_str(value).unwrap();
    let encoded = encoder.finish().unwrap();
    let data = decode(&encoded).unwrap();
    assert_eq!(1, data.len());
    let content = match &data[0] {
        TaggedValue::Str(b) => std::str::from_utf8(b).unwrap().to_string(),
        other => panic!("PN_STRING expected, found {:?}", other),
    };
    assert_eq!(value, content);
}

#[test]
fn ubyte_round_trip() {
    round_trip(TaggedValue::UByte(1));
}

#[test]
fn ushort_round_trip() {
    round_trip(TaggedValue::UShort(1));
}

#[test]
fn uint_round_trip() {
    round_trip(TaggedValue::UInt(1));
}

#[test]
fn ulong_round_trip() {
    round_trip(TaggedValue::ULong(1));
}

#[test]
fn byte_round_trip() {
    round_trip(TaggedValue::Byte(1));
}

#[test]
fn short_round_trip() {
    round_trip(TaggedValue::Short(1));
}

#[test]
fn int_round_trip() {
    round_trip(TaggedValue::Int(1));
}

#[test]
fn long_round_trip() {
    round_trip(TaggedValue::Long(1));
}

#[test]
fn float_round_trip() {
    let mut encoder = Encoder::new();
    encoder.emit_f32_bits(1f32.to_bits()).unwrap();
    let decoded = decode(&encoder.finish().unwrap()).unwrap();
    assert_eq!(vec![TaggedValue::Float(1f32.to_bits())], decoded);
    match decoded[0] {
        TaggedValue::Float(bits) => assert_eq!(1f32, f32::from_bits(bits)),
        _ => panic!("float expected"),
    }
}

#[test]
fn double_round_trip() {
    let v = -2.5f64;
    let mut encoder = Encoder::new();
    encoder.emit_f64_bits(v.to_bits()).unwrap();
    let decoded = decode(&encoder.finish().unwrap()).unwrap();
    match decoded[..] {
        [TaggedValue::Double(bits)] => assert_eq!(v, f64::from_bits(bits)),
        _ => panic!("one double expected"),
    }
}

#[test]
fn every_scalar_kind_round_trips() {
    let values = vec![
        TaggedValue::Null,
        TaggedValue::Bool(true),
        TaggedValue::Bool(false),
        TaggedValue::UByte(255),
        TaggedValue::UShort(65535),
        TaggedValue::UInt(0),
        TaggedValue::UInt(255),
        TaggedValue::UInt(256),
        TaggedValue::UInt(u32::MAX),
        TaggedValue::ULong(7),
        TaggedValue::ULong(u64::MAX),
        TaggedValue::Byte(-128),
        TaggedValue::Short(-2),
        TaggedValue::Int(-128),
        TaggedValue::Int(127),
        TaggedValue::Int(-129),
        TaggedValue::Int(i32::MIN),
        TaggedValue::Long(-1),
        TaggedValue::Long(i64::MIN),
        TaggedValue::Long(i64::MAX),
        TaggedValue::Char('é' as u32),
        TaggedValue::Str(b"abc".to_vec()),
        TaggedValue::Binary(vec![0, 1, 2, 255]),
        TaggedValue::Binary(vec![]),
    ];
    for v in &values {
        round_trip(v.clone());
    }
    let encoded = encode(&values).unwrap();
    assert_eq!(values, decode(&encoded).unwrap());
}

#[test]
fn unsigned_short_one_has_exact_bytes() {
    let encoded = encode(&vec![TaggedValue::UShort(1)]).unwrap();
    assert_eq!(vec![0x60, 0x00, 0x01], encoded);
    let decoded = decode(&encoded).unwrap();
    assert_eq!(1, decoded.len());
    assert_eq!(TaggedValue::UShort(1), decoded[0]);
}

#[test]
fn compact_and_wide_forms() {
    assert_eq!(vec![0x52, 0x05], encode(&vec![TaggedValue::UInt(5)]).unwrap());
    assert_eq!(vec![0x70, 0x00, 0x00, 0x01, 0x00], encode(&vec![TaggedValue::UInt(256)]).unwrap());
    assert_eq!(vec![0x54, 0xff], encode(&vec![TaggedValue::Int(-1)]).unwrap());
    assert_eq!(
        vec![0x81, 0xff, 0xff, 0xff, 0xff, 0xff, 0xff, 0xff, 0x7f],
        encode(&vec![TaggedValue::Long(-129)]).unwrap()
    );
    assert_eq!(vec![0x41, 0x42, 0x40], encode(&vec![
        TaggedValue::Bool(true),
        TaggedValue::Bool(false),
        TaggedValue::Null,
    ]).unwrap());
    assert_eq!(vec![0xa1, 0x02, b'h', b'i'], encode(&vec![TaggedValue::Str(b"hi".to_vec())]).unwrap());
}

#[test]
fn large_value_grows_buffer_and_is_trimmed() {
    let payload = vec![7u8; 5000];
    let encoded = encode(&vec![TaggedValue::Binary(payload.clone())]).unwrap();
    assert_eq!(5005, encoded.len());
    assert_eq!(vec![0xb0, 0x00, 0x00, 0x13, 0x88], encoded[..5].to_vec());
    let decoded = decode(&encoded).unwrap();
    assert_eq!(vec![TaggedValue::Binary(payload)], decoded);
}

#[test]
fn map_with_container_key_is_bad_key() {
    let mut encoder = Encoder::new();
    encoder.emit_container().unwrap();
    encoder.emit_map_elt_key_start().unwrap();
    assert_eq!(Err(EncoderError::BadKey), encoder.emit_container());
    assert_eq!(Err(EncoderError::BadKey), encoder.emit_u8(1));
    assert_eq!(Err(EncoderError::BadKey), encoder.finish());
}

#[test]
fn map_with_two_scalar_key_is_bad_key() {
    let mut encoder = Encoder::new();
    encoder.emit_map_elt_key_start().unwrap();
    encoder.emit_u8(1).unwrap();
    assert_eq!(Err(EncoderError::BadKey), encoder.emit_u8(2));
    assert_eq!(Err(EncoderError::BadKey), encoder.finish());
}

#[test]
fn empty_key_is_bad_key() {
    let mut encoder = Encoder::new();
    encoder.emit_map_elt_key_start().unwrap();
    assert_eq!(Err(EncoderError::BadKey), encoder.emit_map_elt_key_end());
}

#[test]
fn map_with_scalar_keys_emits_leaves() {
    let mut encoder = Encoder::new();
    encoder.emit_container().unwrap();
    encoder.emit_map_elt_key_start().unwrap();
    encoder.emit_str("k").unwrap();
    encoder.emit_map_elt_key_end().unwrap();
    encoder.emit_container().unwrap();
    encoder.emit_i32(-5).unwrap();
    encoder.emit_option_none().unwrap();
    encoder.emit_bool(true).unwrap();
    encoder.emit_usize(300).unwrap();
    encoder.emit_isize(-3).unwrap();
    encoder.emit_char('x').unwrap();
    encoder.emit_bytes(&[9, 8]).unwrap();
    encoder.emit_u16(2).unwrap();
    encoder.emit_u32(3).unwrap();
    encoder.emit_u64(4).unwrap();
    encoder.emit_i8(-1).unwrap();
    encoder.emit_i16(-2).unwrap();
    encoder.emit_i64(-4).unwrap();
    encoder.emit_nil().unwrap();
    let decoded = decode(&encoder.finish().unwrap()).unwrap();
    assert_eq!(
        vec![
            TaggedValue::Str(b"k".to_vec()),
            TaggedValue::Int(-5),
            TaggedValue::Null,
            TaggedValue::Bool(true),
            TaggedValue::ULong(300),
            TaggedValue::Long(-3),
            TaggedValue::Char('x' as u32),
            TaggedValue::Binary(vec![9, 8]),
            TaggedValue::UShort(2),
            TaggedValue::UInt(3),
            TaggedValue::ULong(4),
            TaggedValue::Byte(-1),
            TaggedValue::Short(-2),
            TaggedValue::Long(-4),
            TaggedValue::Null,
        ],
        decoded
    );
}

#[test]
fn decode_truncated_is_underflow() {
    assert_eq!(Err(ErrorCode::Underflow), decode(&[0x60, 0x00]));
    assert_eq!(Err(ErrorCode::Underflow), decode(&[0xa1, 0x05, b'a']));
    assert_eq!(-4, ErrorCode::Underflow.code());
}

#[test]
fn decode_unknown_code_is_arg_err() {
    assert_eq!(Err(ErrorCode::ArgErr), decode(&[0x40, 0xff]));
    assert_eq!(-6, ErrorCode::ArgErr.code());
}

#[test]
fn decode_empty_is_no_values() {
    assert_eq!(Ok(vec![]), decode(&[]));
}

#[test]
fn decode_accepts_zero_and_boolean_forms() {
    assert_eq!(
        Ok(vec![TaggedValue::UInt(0), TaggedValue::ULong(0), TaggedValue::Bool(true), TaggedValue::Bool(false)]),
        decode(&[0x43, 0x44, 0x56, 0x01, 0x56, 0x00])
    );
}
