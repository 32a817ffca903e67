use apkparse::resources::parse_resource_table;
use apkparse::resources::{convert_zero_terminated_u16, convert_zero_terminated_u8};

fn chunk_bytes(typ: u16, additional_header: &[u8], data: &[u8]) -> Vec<u8> {
    let header_size = (8 + additional_header.len()) as u16;
    let total_size = (8 + additional_header.len() + data.len()) as u32;
    let mut out = Vec::new();
    out.extend_from_slice(&typ.to_le_bytes());
    out.extend_from_slice(&header_size.to_le_bytes());
    out.extend_from_slice(&total_size.to_le_bytes());
    out.extend_from_slice(additional_header);
    out.extend_from_slice(data);
    out
}

fn utf8_pool_chunk(strings: &[&str]) -> Vec<u8> {
    let mut offsets = Vec::new();
    let mut region = Vec::new();
    for s in strings {
        offsets.extend_from_slice(&(region.len() as u32).to_le_bytes());
        region.push(s.chars().count() as u8);
        region.push(s.len() as u8);
        region.extend_from_slice(s.as_bytes());
        region.push(0);
    }
    let mut ah = Vec::new();
    ah.extend_from_slice(&(strings.len() as u32).to_le_bytes());
    ah.extend_from_slice(&0u32.to_le_bytes());
    ah.extend_from_slice(&0x100u32.to_le_bytes());
    ah.extend_from_slice(&0u32.to_le_bytes());
    ah.extend_from_slice(&0u32.to_le_bytes());
    let mut data = offsets;
    data.extend_from_slice(&region);
    chunk_bytes(1, &ah, &data)
}

fn package_header(id: u32, name: &str) -> Vec<u8> {
    let mut ah = Vec::new();
    ah.extend_from_slice(&id.to_le_bytes());
    let mut units: Vec<u16> = name.encode_utf16().collect();
    units.resize(128, 0);
    for u in &units {
        ah.extend_from_slice(&u.to_le_bytes());
    }
    ah.extend_from_slice(&0u32.to_le_bytes()); // type strings offset
    ah.extend_from_slice(&0u32.to_le_bytes()); // last public type
    ah.extend_from_slice(&0u32.to_le_bytes()); // key strings offset
    ah.extend_from_slice(&0u32.to_le_bytes()); // last public key
    ah
}

/// One type chunk with a single simple string entry at index zero.
fn type_chunk(type_id: u8, key_index: u32, value_string_index: u32) -> Vec<u8> {
    let mut ah = Vec::new();
    ah.push(type_id);
    ah.extend_from_slice(&[0, 0, 0]); // padding
    ah.extend_from_slice(&1u32.to_le_bytes()); // entry count
    ah.extend_from_slice(&0u32.to_le_bytes()); // entries start
    let mut config = vec![0u8; 52];
    config[0] = 52;
    ah.extend_from_slice(&config);

    let mut body = Vec::new();
    body.extend_from_slice(&0u32.to_le_bytes()); // offset of entry 0
    // entry: size, flags, key
    body.extend_from_slice(&8u16.to_le_bytes());
    body.extend_from_slice(&0u16.to_le_bytes());
    body.extend_from_slice(&key_index.to_le_bytes());
    // simple value: string type
    body.extend_from_slice(&8u16.to_le_bytes());
    body.push(0);
    body.push(0x03);
    body.extend_from_slice(&value_string_index.to_le_bytes());
    chunk_bytes(0x201, &ah, &body)
}

fn table(values: &[&str], package_body: &[Vec<u8>]) -> Vec<u8> {
    let mut package_data = Vec::new();
    for c in package_body {
        package_data.extend_from_slice(c);
    }
    let package = chunk_bytes(0x200, &package_header(0x7f, "com.example"), &package_data);
    let mut body = utf8_pool_chunk(values);
    body.extend_from_slice(&package);
    let mut ah = Vec::new();
    ah.extend_from_slice(&1u32.to_le_bytes()); // package count
    chunk_bytes(2, &ah, &body)
}

#[test]
fn single_entry_table_lookups() {
    let bytes = table(
        &["Demo"],
        &[
            utf8_pool_chunk(&["string"]),
            utf8_pool_chunk(&["app_name"]),
            type_chunk(1, 0, 0),
        ],
    );
    let resources = parse_resource_table(&bytes).unwrap().unwrap();
    assert_eq!(resources.get_resource_type(0x7f01_0000).unwrap(), "string");
    assert_eq!(resources.get_key_name(0x7f01_0000).unwrap(), "app_name");
    let values = resources.get_string_by_id_all_configs(0x7f01_0000).unwrap();
    assert_eq!(values.len(), 1);
    assert!(values[0].0.to_configuration_name().is_none());
    assert_eq!(values[0].1, "Demo");
}

#[test]
fn out_of_range_ids_are_absent() {
    let bytes = table(
        &["Demo"],
        &[
            utf8_pool_chunk(&["string"]),
            utf8_pool_chunk(&["app_name"]),
            type_chunk(1, 0, 0),
        ],
    );
    let resources = parse_resource_table(&bytes).unwrap().unwrap();
    // type 9 does not exist
    assert!(resources.get_resource_type(0x7f09_0000).is_none());
    assert!(resources.get_key_name(0x7f09_0000).is_none());
    assert!(resources.get_string_by_id_all_configs(0x7f09_0000).is_none());
    // entry 5 is beyond the declared entry count
    assert!(resources.get_key_name(0x7f01_0005).is_none());
}

#[test]
fn table_without_a_package_is_none() {
    let mut ah = Vec::new();
    ah.extend_from_slice(&1u32.to_le_bytes());
    let body = utf8_pool_chunk(&[]);
    let bytes = chunk_bytes(2, &ah, &body);
    assert!(parse_resource_table(&bytes).unwrap().is_none());
}

#[test]
fn two_packages_declared_is_an_error() {
    let mut ah = Vec::new();
    ah.extend_from_slice(&2u32.to_le_bytes());
    let body = utf8_pool_chunk(&[]);
    let bytes = chunk_bytes(2, &ah, &body);
    assert!(parse_resource_table(&bytes).is_err());
}

#[test]
fn key_name_is_stable_across_configurations() {
    // the same type id appears twice, so the type collects two
    // configurations; both entries carry the same key
    let bytes = table(
        &["Demo", "Demo-hdpi"],
        &[
            utf8_pool_chunk(&["string"]),
            utf8_pool_chunk(&["app_name"]),
            type_chunk(1, 0, 0),
            type_chunk(1, 0, 1),
        ],
    );
    let resources = parse_resource_table(&bytes).unwrap().unwrap();
    assert_eq!(resources.get_key_name(0x7f01_0000).unwrap(), "app_name");
    let values = resources.get_string_by_id_all_configs(0x7f01_0000).unwrap();
    assert_eq!(values.len(), 2);
    assert_eq!(values[0].1, "Demo");
    assert_eq!(values[1].1, "Demo-hdpi");
}

#[test]
fn zero_terminated_conversions_truncate_at_the_first_zero() {
    assert_eq!(convert_zero_terminated_u8(b"abc\0def"), "abc");
    assert_eq!(convert_zero_terminated_u8(b"abc"), "abc");
    assert_eq!(convert_zero_terminated_u8(b""), "");
    let units: Vec<u16> = "hi".encode_utf16().chain([0, 0x64]).collect();
    assert_eq!(convert_zero_terminated_u16(&units), "hi");
    let units: Vec<u16> = "full".encode_utf16().collect();
    assert_eq!(convert_zero_terminated_u16(&units), "full");
}
