use apkparse::zip::{Compression, ZipArchive, ZipError};

fn local_header(name: &[u8], compression: u16, compressed: &[u8], uncompressed_len: u32) -> Vec<u8> {
    let mut out = Vec::new();
    out.extend_from_slice(&[0x50, 0x4b, 0x03, 0x04]);
    out.extend_from_slice(&20u16.to_le_bytes()); // version
    out.extend_from_slice(&0u16.to_le_bytes()); // flags
    out.extend_from_slice(&compression.to_le_bytes());
    out.extend_from_slice(&0u16.to_le_bytes()); // mod time
    out.extend_from_slice(&0u16.to_le_bytes()); // mod date
    out.extend_from_slice(&0u32.to_le_bytes()); // crc32
    out.extend_from_slice(&(compressed.len() as u32).to_le_bytes());
    out.extend_from_slice(&uncompressed_len.to_le_bytes());
    out.extend_from_slice(&(name.len() as u16).to_le_bytes());
    out.extend_from_slice(&0u16.to_le_bytes()); // extra len
    out.extend_from_slice(name);
    out.extend_from_slice(compressed);
    out
}

fn central_header(
    name: &[u8],
    compression: u16,
    compressed_len: u32,
    uncompressed_len: u32,
    local_offset: u32,
) -> Vec<u8> {
    let mut out = Vec::new();
    out.extend_from_slice(&[0x50, 0x4b, 0x01, 0x02]);
    out.extend_from_slice(&20u16.to_le_bytes()); // producer
    out.extend_from_slice(&20u16.to_le_bytes()); // extractor
    out.extend_from_slice(&0u16.to_le_bytes()); // flags
    out.extend_from_slice(&compression.to_le_bytes());
    out.extend_from_slice(&0u16.to_le_bytes()); // mod time
    out.extend_from_slice(&0u16.to_le_bytes()); // mod date
    out.extend_from_slice(&0u32.to_le_bytes()); // crc32
    out.extend_from_slice(&compressed_len.to_le_bytes());
    out.extend_from_slice(&uncompressed_len.to_le_bytes());
    out.extend_from_slice(&(name.len() as u16).to_le_bytes());
    out.extend_from_slice(&0u16.to_le_bytes()); // extra
    out.extend_from_slice(&0u16.to_le_bytes()); // comment
    out.extend_from_slice(&0u16.to_le_bytes()); // disk
    out.extend_from_slice(&0u16.to_le_bytes()); // internal attrs
    out.extend_from_slice(&0u32.to_le_bytes()); // external attrs
    out.extend_from_slice(&local_offset.to_le_bytes());
    out.extend_from_slice(name);
    out
}

fn eocd(cd_offset: u32, cd_size: u32, entry_count: u16) -> Vec<u8> {
    let mut out = Vec::new();
    out.extend_from_slice(&[0x50, 0x4b, 0x05, 0x06]);
    out.extend_from_slice(&0u16.to_le_bytes()); // disk
    out.extend_from_slice(&0u16.to_le_bytes()); // cd disk
    out.extend_from_slice(&entry_count.to_le_bytes());
    out.extend_from_slice(&entry_count.to_le_bytes());
    out.extend_from_slice(&cd_size.to_le_bytes());
    out.extend_from_slice(&cd_offset.to_le_bytes());
    out.extend_from_slice(&0u16.to_le_bytes()); // comment length
    out
}

struct Member<'a> {
    name: &'a [u8],
    compression: u16,
    compressed: Vec<u8>,
    uncompressed_len: u32,
}

fn build_zip(members: &[Member]) -> Vec<u8> {
    let mut out = Vec::new();
    let mut offsets = Vec::new();
    for m in members {
        offsets.push(out.len() as u32);
        out.extend_from_slice(&local_header(m.name, m.compression, &m.compressed, m.uncompressed_len));
    }
    let cd_offset = out.len() as u32;
    for (m, off) in members.iter().zip(offsets.iter()) {
        out.extend_from_slice(&central_header(
            m.name,
            m.compression,
            m.compressed.len() as u32,
            m.uncompressed_len,
            *off,
        ));
    }
    let cd_size = out.len() as u32 - cd_offset;
    out.extend_from_slice(&eocd(cd_offset, cd_size, members.len() as u16));
    out
}

#[test]
fn stored_member_lists_and_reads() {
    let zip = build_zip(&[Member {
        name: b"hello.txt",
        compression: 0,
        compressed: b"hi\n".to_vec(),
        uncompressed_len: 3,
    }]);
    let archive = ZipArchive::parse(zip).unwrap();
    let files = archive.files();
    assert_eq!(files.len(), 1);
    assert_eq!(files[0].file_name(), "hello.txt");
    assert_eq!(files[0].len(), 3);
    assert_eq!(files[0].header.compressed_size, 3);
    let content = files[0].content(&archive).unwrap();
    assert_eq!(content, vec![0x68, 0x69, 0x0a]);
}

#[test]
fn iteration_is_repeatable_in_central_directory_order() {
    let zip = build_zip(&[
        Member { name: b"b.txt", compression: 0, compressed: b"1".to_vec(), uncompressed_len: 1 },
        Member { name: b"a.txt", compression: 0, compressed: b"2".to_vec(), uncompressed_len: 1 },
    ]);
    let archive = ZipArchive::parse(zip).unwrap();
    let names1: Vec<String> = archive.files().iter().map(|e| e.file_name()).collect();
    let names2: Vec<String> = archive.files().iter().map(|e| e.file_name()).collect();
    assert_eq!(names1, vec!["b.txt", "a.txt"]);
    assert_eq!(names1, names2);
}

#[test]
fn by_name_finds_members() {
    let zip = build_zip(&[
        Member { name: b"one", compression: 0, compressed: b"x".to_vec(), uncompressed_len: 1 },
        Member { name: b"two", compression: 0, compressed: b"y".to_vec(), uncompressed_len: 1 },
    ]);
    let archive = ZipArchive::parse(zip).unwrap();
    assert_eq!(archive.by_name("two").unwrap().file_name(), "two");
    assert!(archive.by_name("three").is_none());
}

#[test]
fn deflated_member_inflates_to_declared_length() {
    let plain: Vec<u8> = (0..100u32).map(|i| (i % 251) as u8).collect();
    let mut encoder =
        flate2::write::DeflateEncoder::new(Vec::new(), flate2::Compression::default());
    std::io::Write::write_all(&mut encoder, &plain).unwrap();
    let compressed = encoder.finish().unwrap();
    let zip = build_zip(&[Member {
        name: b"a.bin",
        compression: 8,
        compressed,
        uncompressed_len: 100,
    }]);
    let archive = ZipArchive::parse(zip).unwrap();
    let entry = archive.by_name("a.bin").unwrap();
    let content = entry.content(&archive).unwrap();
    assert_eq!(content.len(), entry.len());
    assert_eq!(content, plain);
}

#[test]
fn unsupported_compression_is_reported() {
    let zip = build_zip(&[Member {
        name: b"z",
        compression: 12,
        compressed: b"?".to_vec(),
        uncompressed_len: 1,
    }]);
    let archive = ZipArchive::parse(zip).unwrap();
    let entry = archive.by_name("z").unwrap();
    assert_eq!(entry.content(&archive), Err(ZipError::UnsupportedCompression(12)));
    assert_eq!(entry.compression(), Some(Compression::Bzip2));
}

#[test]
fn missing_end_record_is_reported() {
    let junk = vec![0u8; 64];
    assert!(matches!(ZipArchive::parse(junk), Err(ZipError::CentralDirectoryNotFound)));
}

#[test]
fn corrupt_deflate_stream_is_invalid_data() {
    let zip = build_zip(&[Member {
        name: b"bad",
        compression: 8,
        compressed: vec![0xff, 0xff, 0xff, 0x00],
        uncompressed_len: 10,
    }]);
    let archive = ZipArchive::parse(zip).unwrap();
    let entry = archive.by_name("bad").unwrap();
    assert_eq!(entry.content(&archive), Err(ZipError::InvalidData));
}
