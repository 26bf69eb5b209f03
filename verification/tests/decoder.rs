use sniffer::decoder::decode_packet;
use sniffer::decoder::DecodeError;
use sniffer::decoder::TypedValue;
use sniffer::schema::ProtocolVarType;

fn attrs(list: &[(&str, ProtocolVarType)]) -> Vec<(String, ProtocolVarType)> {
    list.iter().map(|(n, t)| (n.to_string(), *t)).collect()
}

#[test]
fn short_is_big_endian() {
    let schema = attrs(&[("hp", ProtocolVarType::Short)]);
    let body: Vec<u8> = vec![0x01, 0x2C];
    let packet = decode_packet(5, &schema, &body).unwrap();
    assert_eq!(packet.id, 5);
    assert_eq!(packet.fields.len(), 1);
    assert_eq!(packet.fields[0].0, "hp");
    assert_eq!(packet.fields[0].1, TypedValue::Short(300));
}

#[test]
fn signed_scalars_use_twos_complement() {
    let schema = attrs(&[
        ("a", ProtocolVarType::Short),
        ("b", ProtocolVarType::Byte),
        ("c", ProtocolVarType::Int),
    ]);
    let body: Vec<u8> = vec![0xFF, 0xFE, 0x80, 0xFF, 0xFF, 0xFF, 0xFF];
    let packet = decode_packet(1, &schema, &body).unwrap();
    assert_eq!(packet.fields[0].1, TypedValue::Short(-2));
    assert_eq!(packet.fields[1].1, TypedValue::Byte(-128));
    assert_eq!(packet.fields[2].1, TypedValue::Int(-1));
}

#[test]
fn unsigned_scalars_and_boolean() {
    let schema = attrs(&[
        ("a", ProtocolVarType::UnsignedShort),
        ("b", ProtocolVarType::UnsignedByte),
        ("c", ProtocolVarType::UnsignedInt),
        ("d", ProtocolVarType::Boolean),
        ("e", ProtocolVarType::Boolean),
    ]);
    let body: Vec<u8> = vec![0xFF, 0xFE, 0x80, 0x00, 0x00, 0x01, 0x00, 0x02, 0x00];
    let packet = decode_packet(1, &schema, &body).unwrap();
    assert_eq!(packet.fields[0].1, TypedValue::UnsignedShort(0xFFFE));
    assert_eq!(packet.fields[1].1, TypedValue::UnsignedByte(0x80));
    assert_eq!(packet.fields[2].1, TypedValue::UnsignedInt(0x100));
    assert_eq!(packet.fields[3].1, TypedValue::Boolean(true));
    assert_eq!(packet.fields[4].1, TypedValue::Boolean(false));
}

#[test]
fn varints_pack_seven_bits_per_byte() {
    let schema = attrs(&[
        ("small", ProtocolVarType::VarUhInt),
        ("large", ProtocolVarType::VarUhInt),
        ("signed", ProtocolVarType::VarShort),
    ]);
    // 44 + 2 * 128 = 300 for the second field.
    let body: Vec<u8> = vec![0x05, 0xAC, 0x02, 0x07];
    let packet = decode_packet(1, &schema, &body).unwrap();
    assert_eq!(packet.fields[0].1, TypedValue::UnsignedInt(5));
    assert_eq!(packet.fields[1].1, TypedValue::UnsignedInt(300));
    assert_eq!(packet.fields[2].1, TypedValue::Short(7));
}

#[test]
fn varint_with_too_many_bits_is_an_error() {
    let schema = attrs(&[("v", ProtocolVarType::VarUhShort)]);
    // Third byte would carry bits 14 and up; 0x04 needs bit 16.
    let body: Vec<u8> = vec![0xFF, 0xFF, 0x04];
    assert_eq!(decode_packet(1, &schema, &body), Err(DecodeError::VarintOverflow));
}

#[test]
fn running_out_of_bytes_mid_field_is_an_error() {
    let schema = attrs(&[("v", ProtocolVarType::Int)]);
    let body: Vec<u8> = vec![0x01, 0x02, 0x03];
    assert_eq!(decode_packet(1, &schema, &body), Err(DecodeError::OutOfBytes));

    let schema = attrs(&[("v", ProtocolVarType::VarUhLong)]);
    let body: Vec<u8> = vec![0x80];
    assert_eq!(decode_packet(1, &schema, &body), Err(DecodeError::OutOfBytes));
}

#[test]
fn unknown_tag_is_an_error_not_a_skip() {
    let schema = attrs(&[("v", ProtocolVarType::Unknown), ("w", ProtocolVarType::Byte)]);
    let body: Vec<u8> = vec![0x00, 0x01];
    assert_eq!(decode_packet(1, &schema, &body), Err(DecodeError::UnknownType));
}

#[test]
fn strings_and_byte_arrays_are_length_prefixed() {
    let schema = attrs(&[
        ("name", ProtocolVarType::UTF),
        ("blob", ProtocolVarType::ByteArray),
        ("mark", ProtocolVarType::False),
        ("tail", ProtocolVarType::UnsignedByte),
    ]);
    let body: Vec<u8> = vec![0x00, 0x02, 0x68, 0x69, 0x03, 0xAA, 0xBB, 0xCC, 0x42];
    let packet = decode_packet(1, &schema, &body).unwrap();
    assert_eq!(packet.fields[0].1, TypedValue::Utf(vec![0x68, 0x69]));
    assert_eq!(packet.fields[1].1, TypedValue::Bytes(vec![0xAA, 0xBB, 0xCC]));
    assert_eq!(packet.fields[2].1, TypedValue::Nothing);
    assert_eq!(packet.fields[3].1, TypedValue::UnsignedByte(0x42));
}

#[test]
fn float_and_double_keep_raw_bits() {
    let schema = attrs(&[("f", ProtocolVarType::Float), ("d", ProtocolVarType::Double)]);
    let body: Vec<u8> = vec![
        0x3F, 0x80, 0x00, 0x00, 0x40, 0x09, 0x21, 0xFB, 0x54, 0x44, 0x2D, 0x18,
    ];
    let packet = decode_packet(1, &schema, &body).unwrap();
    assert_eq!(packet.fields[0].1, TypedValue::FloatBits(0x3F800000));
    assert_eq!(packet.fields[1].1, TypedValue::DoubleBits(0x400921FB54442D18));
    // The bit patterns reinterpret to the usual constants.
    assert_eq!(f32::from_bits(0x3F800000), 1.0f32);
    assert!((f64::from_bits(0x400921FB54442D18) - std::f64::consts::PI).abs() < 1e-15);
}

#[test]
fn empty_schema_decodes_to_empty_record() {
    let schema = attrs(&[]);
    let body: Vec<u8> = Vec::new();
    let packet = decode_packet(12, &schema, &body).unwrap();
    assert_eq!(packet.id, 12);
    assert!(packet.fields.is_empty());
}
