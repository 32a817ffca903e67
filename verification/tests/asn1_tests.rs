use apkparse::asn1::{
    decode_object_identifier, parse_data_element, parse_identifier, parse_length,
    parse_octet_series, TagClass,
};

#[test]
fn test_parse_octet_series() {
    let d = b"\x86\x48";
    let (result, consumed) = parse_octet_series(d).unwrap();
    assert_eq!(d.len() - consumed, 0);
    assert_eq!(result, b"\x86\x48");

    let d = b"\x2a";
    let (result, consumed) = parse_octet_series(d).unwrap();
    assert_eq!(d.len() - consumed, 0);
    assert_eq!(result, b"\x2a");
}

#[test]
fn test_decode_object_identifier() {
    let d = [0x2a, 0x86, 0x48, 0x86, 0xf7, 0x0d, 0x01, 0x07, 0x02];
    let r = decode_object_identifier(&d).unwrap();
    assert_eq!(r, [1, 2, 840, 113549, 1, 7, 2]);
}

#[test]
fn test_parse_identifier() {
    let d = b"\x2a";
    let ((class, constructed, id), _) = parse_identifier(d).unwrap();
    assert_eq!(class, TagClass::Universal);
    assert_eq!(constructed, true);
    assert_eq!(id, 0xa);

    let d = b"\xff\x2a";
    let ((class, constructed, id), _) = parse_identifier(d).unwrap();
    assert_eq!(class, TagClass::Private);
    assert_eq!(constructed, true);
    assert_eq!(id, 0x2a);

    let d = b"\xff\x8a\x2a";
    let ((class, constructed, id), _) = parse_identifier(d).unwrap();
    assert_eq!(class, TagClass::Private);
    assert_eq!(constructed, true);
    assert_eq!(id, 0x52a);
}

#[test]
fn test_parse_length() {
    let d = b"\x82\x05\x63";
    let (r, consumed) = parse_length(d).unwrap();
    assert_eq!(d.len() - consumed, 0);
    assert_eq!(r, 1379);

    let d = b"\x09";
    let (r, consumed) = parse_length(d).unwrap();
    assert_eq!(d.len() - consumed, 0);
    assert_eq!(r, 9);
}

#[test]
fn octet_series_without_terminator_fails() {
    let d = b"\x86\x81";
    assert!(parse_octet_series(d).is_err());
}

#[test]
fn length_of_empty_input_fails() {
    let d: [u8; 0] = [];
    assert!(parse_length(&d).is_err());
}

#[test]
fn data_element_children_walk() {
    // SEQUENCE { OCTET STRING "ab", OCTET STRING "c" }
    let d = b"\x30\x07\x04\x02ab\x04\x01c";
    let (root, consumed) = parse_data_element(d, 0).unwrap();
    assert_eq!(consumed, d.len());
    assert!(root.constructed);
    assert_eq!(root.id, 0x10);
    let children = root.parse_data();
    assert_eq!(children.len(), 2);
    assert_eq!(children[0].data(), &b"ab".to_vec());
    assert_eq!(children[1].data(), &b"c".to_vec());
}
