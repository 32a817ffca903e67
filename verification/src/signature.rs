//! The signer-certificate fingerprint: a fixed descent through the PKCS#7
//! container to the DER-encoded certificate, then its SHA-256 digest.

use vstd::prelude::*;

use crate::asn1::{spec_parse_data_element, spec_parse_data_elements, parse_data_element};
use sha2::Digest;

verus! {

/// The SHA-256 digest of a byte sequence.  The digest is a function of the
/// bytes alone.
pub uninterp spec fn sha256_of(bytes: Seq<u8>) -> Seq<u8>;

/// Relies on `sha2::Sha256::digest`: the 32-byte SHA-256 digest of the
/// input, a function of the input alone.
#[verifier::external_body]
fn sha256_digest(data: &[u8]) -> (r: Vec<u8>)
    ensures
        r@ == sha256_of(data@),
        r@.len() == 32,
{
    sha2::Sha256::digest(data).to_vec()
}

/// The fingerprint step failed before the certificate bytes were reached.
#[derive(Debug, Clone, Copy, PartialEq, Eq, Structural)]
pub enum SignatureError {
    InvalidCertificate,
}

/// The DER-encoded certificate inside a PKCS#7 signer block: the value
/// bytes of child 3 of child 0 of child 1 of the root element, where each
/// step must expose enough children.
pub open spec fn spec_cert_of(pkcs7: Seq<u8>) -> Option<Seq<u8>> {
    match spec_parse_data_element(pkcs7, 0) {
        Some((root, _)) => {
            let level1 = spec_parse_data_elements(root.data, 0);
            if level1.len() > 1 {
                let level2 = spec_parse_data_elements(level1[1].data, 0);
                if level2.len() > 0 {
                    let level3 = spec_parse_data_elements(level2[0].data, 0);
                    if level3.len() > 3 {
                        Some(level3[3].data)
                    } else {
                        None
                    }
                } else {
                    None
                }
            } else {
                None
            }
        },
        None => None,
    }
}

/// Walks to the certificate bytes of a PKCS#7 signer block.
fn get_cert(pkcs7: &[u8]) -> (r: Result<Vec<u8>, SignatureError>)
    ensures
        match r {
            Ok(cert) => spec_cert_of(pkcs7@) == Some(cert@),
            Err(_) => spec_cert_of(pkcs7@) is None,
        },
{
    let (root, _n) = match parse_data_element(pkcs7, 0) {
        Ok(v) => v,
        Err(_) => {
            return Err(SignatureError::InvalidCertificate);
        },
    };
    let level1 = root.parse_data();
    if level1.len() <= 1 {
        return Err(SignatureError::InvalidCertificate);
    }
    let level2 = level1[1].parse_data();
    if level2.len() == 0 {
        return Err(SignatureError::InvalidCertificate);
    }
    let level3 = level2[0].parse_data();
    if level3.len() <= 3 {
        return Err(SignatureError::InvalidCertificate);
    }
    let cert = level3[3].data().clone();
    proof {
        assert(level1@.map_values(|e: crate::asn1::DataElement| e@)[1] == level1@[1]@);
        assert(level2@.map_values(|e: crate::asn1::DataElement| e@)[0] == level2@[0]@);
        assert(level3@.map_values(|e: crate::asn1::DataElement| e@)[3] == level3@[3]@);
    }
    Ok(cert)
}

/// The SHA-256 fingerprint of the signer certificate embedded in a PKCS#7
/// block.  Succeeds exactly when the fixed descent reaches the certificate;
/// the result is the certificate's digest.
pub fn get_key_fingerprint_sha256(pkcs7: &[u8]) -> (r: Result<Vec<u8>, SignatureError>)
    ensures
        match r {
            Ok(fp) => spec_cert_of(pkcs7@) is Some && fp@ == sha256_of(
                spec_cert_of(pkcs7@)->Some_0,
            ) && fp@.len() == 32,
            Err(e) => spec_cert_of(pkcs7@) is None && e == SignatureError::InvalidCertificate,
        },
{
    match get_cert(pkcs7) {
        Ok(cert) => Ok(sha256_digest(cert.as_slice())),
        Err(e) => Err(e),
    }
}

} // verus!
