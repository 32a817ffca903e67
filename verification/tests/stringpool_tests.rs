use apkparse::chunk::Chunk;
use apkparse::error::ParseError;
use apkparse::stringpool::parse_string_pool_chunk;

fn pool_header(string_count: u32, style_count: u32, flags: u32) -> Vec<u8> {
    let mut ah = Vec::new();
    ah.extend_from_slice(&string_count.to_le_bytes());
    ah.extend_from_slice(&style_count.to_le_bytes());
    ah.extend_from_slice(&flags.to_le_bytes());
    ah.extend_from_slice(&0u32.to_le_bytes());
    ah.extend_from_slice(&0u32.to_le_bytes());
    ah
}

fn utf8_entry(s: &str) -> Vec<u8> {
    let bytes = s.as_bytes();
    let mut out = Vec::new();
    out.push(s.chars().count() as u8);
    out.push(bytes.len() as u8);
    out.extend_from_slice(bytes);
    out.push(0);
    out
}

fn utf16_entry(s: &str) -> Vec<u8> {
    let units: Vec<u16> = s.encode_utf16().collect();
    let mut out = Vec::new();
    out.extend_from_slice(&(units.len() as u16).to_le_bytes());
    for u in &units {
        out.extend_from_slice(&u.to_le_bytes());
    }
    out.extend_from_slice(&[0, 0]);
    out
}

fn utf8_pool_chunk(strings: &[&str]) -> Chunk {
    let mut offsets = Vec::new();
    let mut region = Vec::new();
    for s in strings {
        offsets.extend_from_slice(&(region.len() as u32).to_le_bytes());
        region.extend_from_slice(&utf8_entry(s));
    }
    let mut data = offsets;
    data.extend_from_slice(&region);
    Chunk { typ: 1, additional_header: pool_header(strings.len() as u32, 0, 0x100), data }
}

fn utf16_pool_chunk(strings: &[&str]) -> Chunk {
    let mut offsets = Vec::new();
    let mut region = Vec::new();
    for s in strings {
        offsets.extend_from_slice(&(region.len() as u32).to_le_bytes());
        region.extend_from_slice(&utf16_entry(s));
    }
    let mut data = offsets;
    data.extend_from_slice(&region);
    Chunk { typ: 1, additional_header: pool_header(strings.len() as u32, 0, 0), data }
}

#[test]
fn utf8_pool_round_trips_strings() {
    let chunk = utf8_pool_chunk(&["hello", "w\u{f6}rld", ""]);
    let pool = parse_string_pool_chunk(&chunk).unwrap();
    assert_eq!(pool.len(), 3);
    assert_eq!(pool.get(0), "hello");
    assert_eq!(pool.get(1), "w\u{f6}rld");
    assert_eq!(pool.get(2), "");
}

#[test]
fn utf16_pool_round_trips_strings() {
    let chunk = utf16_pool_chunk(&["resources", "\u{1F600}ok"]);
    let pool = parse_string_pool_chunk(&chunk).unwrap();
    assert_eq!(pool.len(), 2);
    assert_eq!(pool.get(0), "resources");
    assert_eq!(pool.get(1), "\u{1F600}ok");
}

#[test]
fn absent_index_resolves_to_none() {
    let chunk = utf8_pool_chunk(&["only"]);
    let pool = parse_string_pool_chunk(&chunk).unwrap();
    assert!(pool.get_optional(0xffff_ffff).is_none());
    assert_eq!(pool.get_optional(0).unwrap(), "only");
}

#[test]
fn wrong_chunk_type_is_rejected() {
    let mut chunk = utf8_pool_chunk(&["x"]);
    chunk.typ = 2;
    assert_eq!(parse_string_pool_chunk(&chunk).unwrap_err(), ParseError::WrongChunkType);
}

#[test]
fn truncated_entry_is_invalid_data() {
    let mut chunk = utf8_pool_chunk(&["hello"]);
    chunk.data.truncate(chunk.data.len() - 2);
    assert_eq!(parse_string_pool_chunk(&chunk).unwrap_err(), ParseError::InvalidData);
}

#[test]
fn two_byte_length_prefix_round_trips() {
    // a string longer than 0x7f bytes forces the two-byte length form
    let long: String = core::iter::repeat('a').take(0x90).collect();
    let chunk = utf8_pool_chunk_long(&long);
    let pool = parse_string_pool_chunk(&chunk).unwrap();
    assert_eq!(pool.get(0), long);
}

fn utf8_pool_chunk_long(s: &str) -> Chunk {
    let bytes = s.as_bytes();
    let mut entry = Vec::new();
    // two-byte character count and byte count
    let chars = s.chars().count() as u16;
    entry.push(0x80 | (chars >> 8) as u8);
    entry.push((chars & 0xff) as u8);
    let blen = bytes.len() as u16;
    entry.push(0x80 | (blen >> 8) as u8);
    entry.push((blen & 0xff) as u8);
    entry.extend_from_slice(bytes);
    entry.push(0);
    let mut data = Vec::new();
    data.extend_from_slice(&0u32.to_le_bytes());
    data.extend_from_slice(&entry);
    Chunk { typ: 1, additional_header: pool_header(1, 0, 0x100), data }
}

#[test]
fn style_runs_are_decoded_up_to_the_sentinel() {
    // one string, one style with two runs
    let mut region = Vec::new();
    let mut offsets = Vec::new();
    offsets.extend_from_slice(&0u32.to_le_bytes());
    region.extend_from_slice(&utf8_entry("styled"));
    let strings_len = region.len() as u32;

    let mut style_region = Vec::new();
    for word in [0u32, 1, 3, 2, 0, 5, 0xffff_ffff] {
        style_region.extend_from_slice(&word.to_le_bytes());
    }

    let mut data = Vec::new();
    data.extend_from_slice(&offsets);
    // one style offset
    data.extend_from_slice(&0u32.to_le_bytes());
    data.extend_from_slice(&region);
    data.extend_from_slice(&style_region);

    let mut ah = Vec::new();
    ah.extend_from_slice(&1u32.to_le_bytes());
    ah.extend_from_slice(&1u32.to_le_bytes());
    ah.extend_from_slice(&0x100u32.to_le_bytes());
    // strings_offset and styles_offset: the style region begins right after
    // the string bytes
    ah.extend_from_slice(&0u32.to_le_bytes());
    ah.extend_from_slice(&strings_len.to_le_bytes());
    let chunk = Chunk { typ: 1, additional_header: ah, data };

    let pool = parse_string_pool_chunk(&chunk).unwrap();
    assert_eq!(pool.get(0), "styled");
    assert_eq!(pool.styles.len(), 1);
    assert_eq!(pool.styles[0].len(), 2);
    assert_eq!(pool.styles[0][0].name, 0);
    assert_eq!(pool.styles[0][0].start_char, 1);
    assert_eq!(pool.styles[0][0].end_char, 3);
    assert_eq!(pool.styles[0][1].name, 2);
}

#[test]
fn utf16_length_continuation_round_trips() {
    // a pool string of 0x8001 units forces the 32-bit length form
    let n = 0x8001usize;
    let mut entry = Vec::new();
    entry.extend_from_slice(&0x8000u16.to_le_bytes());
    entry.extend_from_slice(&0x8001u16.to_le_bytes());
    for _ in 0..n {
        entry.extend_from_slice(&(0x61u16).to_le_bytes());
    }
    entry.extend_from_slice(&[0, 0]);
    let mut data = Vec::new();
    data.extend_from_slice(&0u32.to_le_bytes());
    data.extend_from_slice(&entry);
    let chunk = Chunk { typ: 1, additional_header: pool_header(1, 0, 0), data };
    let pool = parse_string_pool_chunk(&chunk).unwrap();
    let expected: String = core::iter::repeat('a').take(n).collect();
    assert_eq!(pool.get(0), expected);
}
