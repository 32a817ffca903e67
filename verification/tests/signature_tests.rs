use apkparse::signature::{get_key_fingerprint_sha256, SignatureError};

fn tlv(tag: u8, value: &[u8]) -> Vec<u8> {
    let mut out = vec![tag];
    if value.len() < 0x80 {
        out.push(value.len() as u8);
    } else {
        out.push(0x82);
        out.extend_from_slice(&(value.len() as u16).to_be_bytes());
    }
    out.extend_from_slice(value);
    out
}

/// A PKCS#7-shaped container whose certificate leaf holds `cert`: the
/// walker descends root -> child 1 -> child 0 -> value of child 3.
fn signer_block(cert: &[u8]) -> Vec<u8> {
    let filler = tlv(0x04, b"f");
    let mut level3 = Vec::new();
    level3.extend_from_slice(&filler);
    level3.extend_from_slice(&filler);
    level3.extend_from_slice(&filler);
    level3.extend_from_slice(&tlv(0x04, cert));
    let inner = tlv(0x30, &level3);
    let child1 = tlv(0x30, &inner);
    let mut level1 = Vec::new();
    level1.extend_from_slice(&tlv(0x06, b"\x2a")); // an object identifier first
    level1.extend_from_slice(&child1);
    // the walker takes child 1 of the root, then child 0 of that
    tlv(0x30, &level1)
}

#[test]
fn fingerprint_is_the_digest_of_the_certificate_bytes() {
    // SHA-256 of "abc", a published test vector
    let expected: [u8; 32] = [
        0xba, 0x78, 0x16, 0xbf, 0x8f, 0x01, 0xcf, 0xea, 0x41, 0x41, 0x40, 0xde, 0x5d, 0xae,
        0x22, 0x23, 0xb0, 0x03, 0x61, 0xa3, 0x96, 0x17, 0x7a, 0x9c, 0xb4, 0x10, 0xff, 0x61,
        0xf2, 0x00, 0x15, 0xad,
    ];
    let block = signer_block(b"abc");
    let fp = get_key_fingerprint_sha256(&block).unwrap();
    assert_eq!(fp.len(), 32);
    assert_eq!(fp, expected.to_vec());
}

#[test]
fn a_block_without_the_expected_shape_is_invalid() {
    let r = get_key_fingerprint_sha256(b"\x30\x03\x04\x01x");
    assert_eq!(r, Err(SignatureError::InvalidCertificate));
}

#[test]
fn an_empty_block_is_invalid() {
    let r = get_key_fingerprint_sha256(b"");
    assert_eq!(r, Err(SignatureError::InvalidCertificate));
}
