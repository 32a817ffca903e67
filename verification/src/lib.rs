//! A verified reader for mobile application packages: a ZIP central-
//! directory reader with streaming-free in-memory members, decoders for
//! the chunked binary-XML and resource-table formats (string pools, typed
//! values, device configurations), and a DER walker that reaches the
//! signer certificate and fingerprints it.
//!
//! Every decoder works on plain bytes and states exactly which bytes make
//! up its result; the DEFLATE, SHA-256 and lossy text decoding steps are
//! called through contracts over named results.

pub mod asn1;
pub mod axml;
pub mod chunk;
pub mod config;
pub mod config_qualifiers;
pub mod cursor;
pub mod error;
pub mod resources;
pub mod signature;
pub mod stringpool;
pub mod strutil;
pub mod typedvalue;
pub mod zip;

pub use axml::is_binary_xml;
