use apkparse::chunk::Chunk;
use apkparse::error::ParseError;
use apkparse::stringpool::parse_string_pool_chunk;
use apkparse::stringpool::StringPool;
use apkparse::typedvalue::{parse_res_value, ResourceValue, TypedValue};

fn pool_of(strings: &[&str]) -> StringPool {
    let mut offsets = Vec::new();
    let mut region = Vec::new();
    for s in strings {
        offsets.extend_from_slice(&(region.len() as u32).to_le_bytes());
        region.push(s.chars().count() as u8);
        region.push(s.len() as u8);
        region.extend_from_slice(s.as_bytes());
        region.push(0);
    }
    let mut ah = Vec::new();
    ah.extend_from_slice(&(strings.len() as u32).to_le_bytes());
    ah.extend_from_slice(&0u32.to_le_bytes());
    ah.extend_from_slice(&0x100u32.to_le_bytes());
    ah.extend_from_slice(&0u32.to_le_bytes());
    ah.extend_from_slice(&0u32.to_le_bytes());
    let mut data = offsets;
    data.extend_from_slice(&region);
    parse_string_pool_chunk(&Chunk { typ: 1, additional_header: ah, data }).unwrap()
}

#[test]
fn res_value_cell_round_trips() {
    let cell = ResourceValue { typ: 0x10, value: 0xdead_beef };
    let encoded = cell.encode();
    assert_eq!(encoded.len(), 8);
    let (parsed, consumed) = parse_res_value(&encoded, 0).unwrap();
    assert_eq!(consumed, 8);
    assert_eq!(parsed, cell);
}

#[test]
fn res_value_with_declared_trailing_bytes() {
    // size 12: four trailing bytes are consumed but ignored
    let bytes = [12, 0, 0, 0x11, 0x2a, 0, 0, 0, 9, 9, 9, 9];
    let (parsed, consumed) = parse_res_value(&bytes, 0).unwrap();
    assert_eq!(consumed, 12);
    assert_eq!(parsed, ResourceValue { typ: 0x11, value: 0x2a });
}

#[test]
fn undersized_cell_is_malformed() {
    let bytes = [4, 0, 0, 0x10, 1, 0, 0, 0];
    assert_eq!(parse_res_value(&bytes, 0), Err(ParseError::MalformedChunk));
}

#[test]
fn decoding_each_known_tag() {
    let pool = pool_of(&["alpha"]);
    let mk = |typ: u8, value: u32| TypedValue::from(ResourceValue { typ, value }, &pool).unwrap();
    assert_eq!(mk(0x01, 7), TypedValue::Reference(7));
    assert_eq!(mk(0x02, 8), TypedValue::Attribute(8));
    assert_eq!(mk(0x03, 0), TypedValue::String("alpha".to_string()));
    assert_eq!(mk(0x04, 0x3f80_0000), TypedValue::Float(0x3f80_0000));
    assert_eq!(mk(0x05, 5), TypedValue::Dimension(5));
    assert_eq!(mk(0x06, 6), TypedValue::Fraction(6));
    assert_eq!(mk(0x10, 0xffff_fffb), TypedValue::IntDecimal(-5));
    assert_eq!(mk(0x11, 0xff), TypedValue::IntHex(255));
    assert_eq!(mk(0x12, 0), TypedValue::Boolean(false));
    assert_eq!(mk(0x12, 0xffff_ffff), TypedValue::Boolean(true));
    assert_eq!(mk(0x1c, 1), TypedValue::Argb8(1));
    assert_eq!(mk(0x1d, 2), TypedValue::Rgb8(2));
    assert_eq!(mk(0x1e, 3), TypedValue::Argb4(3));
    assert_eq!(mk(0x1f, 4), TypedValue::Rgb4(4));
}

#[test]
fn unknown_tag_is_reported() {
    let pool = pool_of(&[]);
    let r = TypedValue::from(ResourceValue { typ: 0x42, value: 0 }, &pool);
    assert_eq!(r, Err(ParseError::UnknownValueType(0x42)));
}

#[test]
fn string_index_outside_pool_is_invalid() {
    let pool = pool_of(&["only"]);
    let r = TypedValue::from(ResourceValue { typ: 0x03, value: 5 }, &pool);
    assert_eq!(r, Err(ParseError::InvalidData));
}

#[test]
fn typed_value_encode_decode_round_trip() {
    let pool = pool_of(&[]);
    let values = vec![
        TypedValue::Reference(0x7f01_0000),
        TypedValue::Attribute(3),
        TypedValue::Float(0x4048_f5c3),
        TypedValue::Dimension(17),
        TypedValue::Fraction(18),
        TypedValue::Boolean(true),
        TypedValue::Boolean(false),
        TypedValue::IntDecimal(-123),
        TypedValue::IntHex(0x7fff_ffff),
        TypedValue::Argb8(0xaabbccdd),
        TypedValue::Rgb8(0xbbccdd),
        TypedValue::Argb4(0xabcd),
        TypedValue::Rgb4(0xbcd),
    ];
    for v in values {
        let bytes = v.encode().unwrap();
        let (cell, consumed) = parse_res_value(&bytes, 0).unwrap();
        assert_eq!(consumed, 8);
        let decoded = TypedValue::from(cell, &pool).unwrap();
        assert_eq!(decoded, v);
    }
}

#[test]
fn string_value_has_no_pool_free_encoding() {
    assert!(TypedValue::String("x".to_string()).encode().is_none());
}

#[test]
fn rendering_each_variant() {
    assert_eq!(TypedValue::Reference(0x2a).to_string(), "@ref/0x2a");
    assert_eq!(TypedValue::Attribute(0xff).to_string(), "@attr/0xff");
    assert_eq!(TypedValue::String("plain".to_string()).to_string(), "plain");
    assert_eq!(TypedValue::Float(0x1f).to_string(), "float(0x1f)");
    assert_eq!(TypedValue::Dimension(160).to_string(), "dimension(160)");
    assert_eq!(TypedValue::Fraction(50).to_string(), "fraction(50)");
    assert_eq!(TypedValue::IntDecimal(-42).to_string(), "-42");
    assert_eq!(TypedValue::IntDecimal(0).to_string(), "0");
    assert_eq!(TypedValue::IntHex(255).to_string(), "0xff");
    assert_eq!(TypedValue::Boolean(true).to_string(), "true");
    assert_eq!(TypedValue::Boolean(false).to_string(), "false");
    assert_eq!(TypedValue::Argb8(0xa0).to_string(), "argb8(0xa0)");
    assert_eq!(TypedValue::Rgb8(0xb1).to_string(), "rgb8(0xb1)");
    assert_eq!(TypedValue::Argb4(0xc2).to_string(), "argb4(0xc2)");
    assert_eq!(TypedValue::Rgb4(0xd3).to_string(), "rgb4(0xd3)");
}

#[test]
fn reference_types_are_recognised() {
    assert!(TypedValue::Reference(1).is_reference_type());
    assert!(TypedValue::Attribute(1).is_reference_type());
    assert!(!TypedValue::Boolean(true).is_reference_type());
    assert!(!TypedValue::IntDecimal(7).is_reference_type());
}
