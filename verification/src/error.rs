//! Errors shared by the chunk, string-pool, typed-value, XML and
//! resource-table decoders.

use vstd::prelude::*;

verus! {

#[derive(Debug, Clone, Copy, PartialEq, Eq, Structural)]
pub enum ParseError {
    /// A framing field is inconsistent with the bytes available.
    MalformedChunk,
    /// The chunk found at a required position has the wrong type code.
    WrongChunkType,
    /// A typed-value tag outside the known set.
    UnknownValueType(u8),
    /// Decoded bytes break a structural invariant, e.g. a string index
    /// outside the pool.
    InvalidData,
}

} // verus!
