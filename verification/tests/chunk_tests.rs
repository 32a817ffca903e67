use apkparse::chunk::{parse_chunk, parse_chunks, Chunk};
use apkparse::error::ParseError;

fn chunk_bytes(typ: u16, additional_header: &[u8], data: &[u8]) -> Vec<u8> {
    let header_size = (8 + additional_header.len()) as u16;
    let total_size = (8 + additional_header.len() + data.len()) as u32;
    let mut out = Vec::new();
    out.extend_from_slice(&typ.to_le_bytes());
    out.extend_from_slice(&header_size.to_le_bytes());
    out.extend_from_slice(&total_size.to_le_bytes());
    out.extend_from_slice(additional_header);
    out.extend_from_slice(data);
    out
}

#[test]
fn chunk_round_trip() {
    let chunk = Chunk {
        typ: 0x0102,
        additional_header: vec![1, 2, 3, 4],
        data: vec![9, 8, 7, 6, 5],
    };
    let encoded = chunk.encode();
    assert_eq!(encoded.len(), 8 + 4 + 5);
    let (parsed, consumed) = parse_chunk(&encoded, 0).unwrap();
    assert_eq!(consumed, encoded.len());
    assert_eq!(parsed.typ, 0x0102);
    assert_eq!(parsed.additional_header, vec![1, 2, 3, 4]);
    assert_eq!(parsed.data, vec![9, 8, 7, 6, 5]);
}

#[test]
fn chunk_encoding_matches_hand_written_layout() {
    let chunk = Chunk { typ: 0x0001, additional_header: vec![0xaa], data: vec![0xbb, 0xcc] };
    assert_eq!(chunk.encode(), chunk_bytes(0x0001, &[0xaa], &[0xbb, 0xcc]));
}

#[test]
fn short_buffer_is_malformed() {
    let bytes = [0x01, 0x00, 0x08, 0x00];
    assert_eq!(parse_chunk(&bytes, 0), Err(ParseError::MalformedChunk));
}

#[test]
fn header_size_below_envelope_is_malformed() {
    // header_size 4 < 8
    let bytes = [0x01, 0x00, 0x04, 0x00, 0x08, 0x00, 0x00, 0x00];
    assert_eq!(parse_chunk(&bytes, 0), Err(ParseError::MalformedChunk));
}

#[test]
fn total_size_below_header_size_is_malformed() {
    let mut bytes = chunk_bytes(1, &[0, 0, 0, 0], &[]);
    // declare total_size 8 while header_size is 12
    bytes[4] = 8;
    assert_eq!(parse_chunk(&bytes, 0), Err(ParseError::MalformedChunk));
}

#[test]
fn sibling_chunks_parse_in_order() {
    let mut bytes = chunk_bytes(0x0100, &[], &[1, 2]);
    bytes.extend_from_slice(&chunk_bytes(0x0101, &[], &[3]));
    let chunks = parse_chunks(&bytes, 0);
    assert_eq!(chunks.len(), 2);
    assert_eq!(chunks[0].typ, 0x0100);
    assert_eq!(chunks[0].data, vec![1, 2]);
    assert_eq!(chunks[1].typ, 0x0101);
    assert_eq!(chunks[1].data, vec![3]);
}
