//! Chunk framing shared by the binary-XML format and the resource table.
//!
//! Every chunk is framed as `type: u16 LE, header_size: u16 LE,
//! total_size: u32 LE`, followed by `header_size - 8` additional header
//! bytes and `total_size - header_size` body bytes.

use vstd::prelude::*;

use crate::cursor::{le16_at, le32_at, read_le_u16, read_le_u32, take_bytes};
use crate::error::ParseError;

verus! {

/// One framed record: its type code, the bytes of its additional header and
/// the bytes of its body.  Nested sub-chunks live in `data`.
#[derive(Debug, PartialEq, Eq)]
pub struct Chunk {
    pub typ: u16,
    pub additional_header: Vec<u8>,
    pub data: Vec<u8>,
}

/// The mathematical content of a chunk.
pub ghost struct ChunkView {
    pub typ: u16,
    pub additional_header: Seq<u8>,
    pub data: Seq<u8>,
}

impl View for Chunk {
    type V = ChunkView;

    open spec fn view(&self) -> ChunkView {
        ChunkView {
            typ: self.typ,
            additional_header: self.additional_header@,
            data: self.data@,
        }
    }
}

impl ChunkView {
    /// The declared total size of the chunk's encoding.
    pub open spec fn total_size(self) -> int {
        8 + self.additional_header.len() as int + self.data.len() as int
    }

    /// The chunk fits the frame: the header size fits a `u16` and the total
    /// size fits a `u32`.
    pub open spec fn encodable(self) -> bool {
        &&& 8 + self.additional_header.len() <= 0xffff
        &&& self.total_size() <= 0xffffffff
    }

    /// The encoding of the chunk: the 8-byte envelope, then the additional
    /// header, then the body.
    pub open spec fn encoding(self) -> Seq<u8> {
        let header_size = 8 + self.additional_header.len() as int;
        seq![
            (self.typ as int % 0x100) as u8,
            (self.typ as int / 0x100) as u8,
            (header_size % 0x100) as u8,
            (header_size / 0x100) as u8,
            (self.total_size() % 0x100) as u8,
            (self.total_size() / 0x100 % 0x100) as u8,
            (self.total_size() / 0x10000 % 0x100) as u8,
            (self.total_size() / 0x1000000) as u8,
        ] + self.additional_header + self.data
    }
}

/// Whether a chunk frame starting at `off` in `s` is consistent: the fixed
/// envelope is present, the header size covers at least the envelope, and the
/// declared bytes are all available.
pub open spec fn chunk_frame_ok(s: Seq<u8>, off: int) -> bool {
    &&& off + 8 <= s.len()
    &&& le16_at(s, off + 2) >= 8
    &&& le32_at(s, off + 4) >= le16_at(s, off + 2)
    &&& off + le32_at(s, off + 4) <= s.len()
}

/// The chunk parsed at `off` in `s`, together with the number of bytes it
/// consumes, or `None` if the frame is inconsistent.
pub open spec fn spec_parse_chunk(s: Seq<u8>, off: int) -> Option<(ChunkView, int)> {
    if chunk_frame_ok(s, off) {
        let header_size = le16_at(s, off + 2) as int;
        let total_size = le32_at(s, off + 4) as int;
        Some(
            (
                ChunkView {
                    typ: le16_at(s, off),
                    additional_header: s.subrange(off + 8, off + header_size),
                    data: s.subrange(off + header_size, off + total_size),
                },
                total_size,
            ),
        )
    } else {
        None
    }
}

/// The sequence of chunks parsed back to back starting at `off`; parsing
/// stops at the first inconsistent frame or at the end of the bytes.
pub open spec fn spec_parse_chunks(s: Seq<u8>, off: int) -> Seq<ChunkView>
    decreases s.len() - off,
{
    if 0 <= off <= s.len() {
        match spec_parse_chunk(s, off) {
            Some((c, n)) => seq![c] + spec_parse_chunks(s, off + n),
            None => Seq::empty(),
        }
    } else {
        Seq::empty()
    }
}

/// Parses the chunk at `off` in `data`.  Returns the chunk and the count of
/// bytes consumed; fails exactly when the frame is inconsistent.
pub fn parse_chunk(data: &[u8], off: usize) -> (r: Result<(Chunk, usize), ParseError>)
    ensures
        match r {
            Ok((c, n)) => spec_parse_chunk(data@, off as int) == Some((c@, n as int)),
            Err(e) => spec_parse_chunk(data@, off as int) is None && e == ParseError::MalformedChunk,
        },
{
    let len = data.len();
    if off > len || len - off < 8 {
        return Err(ParseError::MalformedChunk);
    }
    let typ = read_le_u16(data, off);
    let header_size = read_le_u16(data, off + 2) as usize;
    let total_size = read_le_u32(data, off + 4) as usize;
    if header_size < 8 || total_size < header_size || len - off < total_size {
        return Err(ParseError::MalformedChunk);
    }
    let additional_header = take_bytes(data, off + 8, header_size - 8);
    let body = take_bytes(data, off + header_size, total_size - header_size);
    Ok((Chunk { typ, additional_header, data: body }, total_size))
}

/// Parses chunks back to back from `off` to the end of `data`, stopping at
/// the first inconsistent frame.
pub fn parse_chunks(data: &[u8], off: usize) -> (r: Vec<Chunk>)
    requires
        off <= data@.len(),
    ensures
        r@.map_values(|c: Chunk| c@) == spec_parse_chunks(data@, off as int),
{
    let len = data.len();
    let mut result: Vec<Chunk> = Vec::new();
    let mut at: usize = off;
    loop
        invariant
            len == data@.len(),
            off <= at <= data@.len(),
            spec_parse_chunks(data@, off as int) == result@.map_values(|c: Chunk| c@)
                + spec_parse_chunks(data@, at as int),
        decreases data@.len() - at,
    {
        match parse_chunk(data, at) {
            Ok((c, n)) => {
                proof {
                    assert(spec_parse_chunks(data@, at as int) =~= seq![c@] + spec_parse_chunks(
                        data@,
                        at + n,
                    ));
                }
                let ghost prev = result@;
                result.push(c);
                proof {
                    assert(result@.map_values(|c: Chunk| c@) =~= prev.map_values(|c: Chunk| c@)
                        + seq![result@[prev.len() as int]@]);
                    assert(chunk_frame_ok(data@, at as int));
                    assert(n as int == le32_at(data@, at as int + 4) as int);
                    assert(at as int + n as int <= len as int);
                }
                at = at + n;
            },
            Err(_) => {
                proof {
                    assert(spec_parse_chunks(data@, at as int) =~= Seq::<ChunkView>::empty());
                    assert(result@.map_values(|c: Chunk| c@) + Seq::<ChunkView>::empty()
                        =~= result@.map_values(|c: Chunk| c@));
                }
                return result;
            },
        }
    }
}

impl Chunk {
    /// The sub-chunks framed inside this chunk's body.
    pub fn get_sub_chunks(&self) -> (r: Vec<Chunk>)
        ensures
            r@.map_values(|c: Chunk| c@) == spec_parse_chunks(self.data@, 0),
    {
        parse_chunks(self.data.as_slice(), 0)
    }

    /// Re-encodes the chunk; the inverse of `parse_chunk`.
    pub fn encode(&self) -> (r: Vec<u8>)
        requires
            self@.encodable(),
        ensures
            r@ == self@.encoding(),
    {
        let header_size: u32 = 8 + self.additional_header.len() as u32;
        let total_size: u32 = header_size + self.data.len() as u32;
        let mut out: Vec<u8> = Vec::new();
        out.push((self.typ % 0x100) as u8);
        out.push((self.typ / 0x100) as u8);
        out.push((header_size % 0x100) as u8);
        out.push((header_size / 0x100) as u8);
        out.push((total_size % 0x100) as u8);
        out.push((total_size / 0x100 % 0x100) as u8);
        out.push((total_size / 0x10000 % 0x100) as u8);
        out.push((total_size / 0x1000000) as u8);
        let mut ah = self.additional_header.clone();
        out.append(&mut ah);
        let mut body = self.data.clone();
        out.append(&mut body);
        proof {
            assert(out@ =~= self@.encoding());
        }
        out
    }
}

/// Round trip: parsing the encoding of any encodable chunk, with any bytes
/// following it, yields back exactly that chunk and consumes exactly its
/// declared total size.
pub proof fn lemma_chunk_round_trip(c: ChunkView, rest: Seq<u8>)
    requires
        c.encodable(),
    ensures
        spec_parse_chunk(c.encoding() + rest, 0) == Some((c, c.total_size())),
        c.encoding().len() == c.total_size(),
{
    let s = c.encoding() + rest;
    let hs = 8 + c.additional_header.len() as int;
    let total = c.total_size();
    assert(le16_at(s, 0) == c.typ);
    assert(le16_at(s, 2) == hs);
    assert(le32_at(s, 4) == total);
    assert(chunk_frame_ok(s, 0));
    assert(s.subrange(8, hs) =~= c.additional_header);
    assert(s.subrange(hs, total) =~= c.data);
}

} // verus!
