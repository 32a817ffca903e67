//! String pool chunks: a dense, zero-based array of strings in either
//! UTF-8 or UTF-16LE form, with optional per-string style runs.
//!
//! The byte-level framing (length prefixes, terminators, offsets, style
//! sentinels) is specified exactly; the character conversion itself is the
//! standard library's lossy decoding, named by `utf8_lossy_of` and
//! `utf16_lossy_of`.

use vstd::prelude::*;

use crate::chunk::{Chunk, ChunkView};
use crate::cursor::{le16_at, le32_at, read_le_u16, read_le_u32, take_bytes};
pub use crate::error::ParseError;

verus! {

/// The index that stands for "no string".
pub const ABSENT_STRING: u32 = 0xffff_ffff;

/// The character sequence that `String::from_utf8_lossy` decodes from the
/// given bytes.
pub uninterp spec fn utf8_lossy_of(bytes: Seq<u8>) -> Seq<char>;

/// The character sequence that `String::from_utf16_lossy` decodes from the
/// given code units.
pub uninterp spec fn utf16_lossy_of(units: Seq<u16>) -> Seq<char>;

/// Relies on `String::from_utf8_lossy`: the result is a function of the
/// bytes alone (invalid sequences become replacement characters).
#[verifier::external_body]
pub(crate) fn utf8_lossy(bytes: &[u8]) -> (r: String)
    ensures
        r@ == utf8_lossy_of(bytes@),
{
    String::from_utf8_lossy(bytes).into_owned()
}

/// Relies on `String::from_utf16_lossy`: the result is a function of the
/// code units alone (lone surrogates become replacement characters).
#[verifier::external_body]
pub(crate) fn utf16_lossy(units: &[u16]) -> (r: String)
    ensures
        r@ == utf16_lossy_of(units@),
{
    String::from_utf16_lossy(units)
}

/// One style annotation: a style name (pool index) and the first and last
/// styled character.
#[derive(Debug, Clone, Copy, PartialEq, Eq, Structural)]
pub struct StringStyling {
    pub name: u32,
    pub start_char: u32,
    pub end_char: u32,
}

/// A decoded string pool.
#[derive(Debug)]
pub struct StringPool {
    pub pool: Vec<String>,
    pub styles: Vec<Vec<StringStyling>>,
}

impl StringPool {
    /// The decoded strings, as character sequences.
    pub open spec fn strings(&self) -> Seq<Seq<char>> {
        self.pool@.map_values(|s: String| s@)
    }

    /// Looks an index up, where `ABSENT_STRING` stands for "no string".
    /// Any other index must be in range.
    pub fn get_optional(&self, index: u32) -> (r: Option<String>)
        requires
            index == ABSENT_STRING || index < self.pool@.len(),
        ensures
            match r {
                Some(s) => index != ABSENT_STRING && s@ == self.strings()[index as int],
                None => index == ABSENT_STRING,
            },
    {
        if index != ABSENT_STRING {
            Some(self.pool[index as usize].clone())
        } else {
            None
        }
    }

    /// Returns the string at `index`.
    pub fn get(&self, index: u32) -> (r: String)
        requires
            index < self.pool@.len(),
        ensures
            r@ == self.strings()[index as int],
    {
        self.pool[index as usize].clone()
    }

    /// The number of strings in the pool.
    pub fn len(&self) -> (r: usize)
        ensures
            r == self.pool@.len(),
    {
        self.pool.len()
    }
}

/// A length in the UTF-8 flavour: one byte, or two if the first byte has
/// its high bit set (low 7 bits are the high part).  Returns the value and
/// the count of bytes consumed.
pub open spec fn spec_varint8(s: Seq<u8>, off: int) -> Option<(int, int)> {
    if off + 1 <= s.len() && s[off] < 0x80 {
        Some((s[off] as int, 1))
    } else if off + 2 <= s.len() && s[off] >= 0x80 {
        Some(((s[off] as int % 0x80) * 0x100 + s[off + 1], 2))
    } else {
        None
    }
}

/// A length in the UTF-16 flavour: one 16-bit unit, or two if the first has
/// its high bit set (low 15 bits are the high part).  Returns the value and
/// the count of bytes consumed.
pub open spec fn spec_varint16(s: Seq<u8>, off: int) -> Option<(int, int)> {
    if off + 2 <= s.len() && le16_at(s, off) < 0x8000 {
        Some((le16_at(s, off) as int, 2))
    } else if off + 4 <= s.len() && le16_at(s, off) >= 0x8000 {
        Some(((le16_at(s, off) as int % 0x8000) * 0x10000 + le16_at(s, off + 2), 4))
    } else {
        None
    }
}

/// A UTF-8 pool entry at `off`: character count, byte count, payload bytes,
/// one terminator byte.  Returns the payload and the count of bytes consumed.
pub open spec fn spec_utf8_entry(s: Seq<u8>, off: int) -> Option<(Seq<u8>, int)> {
    match spec_varint8(s, off) {
        Some((_char_count, n1)) => match spec_varint8(s, off + n1) {
            Some((byte_count, n2)) => if off + n1 + n2 + byte_count + 1 <= s.len() {
                Some(
                    (
                        s.subrange(off + n1 + n2, off + n1 + n2 + byte_count),
                        n1 + n2 + byte_count + 1,
                    ),
                )
            } else {
                None
            },
            None => None,
        },
        None => None,
    }
}

/// A UTF-16 pool entry at `off`: unit count, payload units, one terminator
/// unit.  Returns the payload and the count of bytes consumed.
pub open spec fn spec_utf16_entry(s: Seq<u8>, off: int) -> Option<(Seq<u16>, int)> {
    match spec_varint16(s, off) {
        Some((count, n1)) => if off + n1 + 2 * count + 2 <= s.len() {
            Some(
                (
                    Seq::new(count as nat, |j: int| le16_at(s, off + n1 + 2 * j)),
                    n1 + 2 * count + 2,
                ),
            )
        } else {
            None
        },
        None => None,
    }
}

/// The style runs at `off`: 12-byte triples up to the terminating
/// `0xffffffff` word.
pub open spec fn spec_style_runs(s: Seq<u8>, off: int) -> Option<Seq<StringStyling>>
    decreases s.len() - off,
{
    if off + 4 <= s.len() && le32_at(s, off) == 0xffff_ffffu32 {
        Some(Seq::empty())
    } else if off + 12 <= s.len() {
        match spec_style_runs(s, off + 12) {
            Some(rest) => Some(
                seq![
                    StringStyling {
                        name: le32_at(s, off),
                        start_char: le32_at(s, off + 4),
                        end_char: le32_at(s, off + 8),
                    },
                ] + rest,
            ),
            None => None,
        }
    } else {
        None
    }
}

fn parse_utf8_entry(s: &[u8], off: usize) -> (r: Result<(Vec<u8>, usize), ParseError>)
    ensures
        match r {
            Ok((payload, n)) => spec_utf8_entry(s@, off as int) == Some((payload@, n as int))
                && off + n <= s@.len(),
            Err(_) => spec_utf8_entry(s@, off as int) is None,
        },
{
    let len = s.len();
    if off >= len {
        return Err(ParseError::InvalidData);
    }
    let b0 = s[off];
    let (_char_count, n1): (u32, usize) = if b0 < 0x80 {
        (b0 as u32, 1)
    } else {
        if len - off < 2 {
            return Err(ParseError::InvalidData);
        }
        ((b0 as u32 % 0x80) * 0x100 + s[off + 1] as u32, 2)
    };
    if len - off <= n1 {
        return Err(ParseError::InvalidData);
    }
    let c0 = s[off + n1];
    let (byte_count, n2): (u32, usize) = if c0 < 0x80 {
        (c0 as u32, 1)
    } else {
        if len - (off + n1) < 2 {
            return Err(ParseError::InvalidData);
        }
        ((c0 as u32 % 0x80) * 0x100 + s[off + n1 + 1] as u32, 2)
    };
    let start = off + n1 + n2;
    if start > len || len - start < byte_count as usize + 1 {
        return Err(ParseError::InvalidData);
    }
    let payload = take_bytes(s, start, byte_count as usize);
    Ok((payload, n1 + n2 + byte_count as usize + 1))
}

fn parse_utf16_entry(s: &[u8], off: usize) -> (r: Result<(Vec<u16>, usize), ParseError>)
    ensures
        match r {
            Ok((payload, n)) => spec_utf16_entry(s@, off as int) == Some((payload@, n as int))
                && off + n <= s@.len(),
            Err(_) => spec_utf16_entry(s@, off as int) is None,
        },
{
    let len = s.len();
    if off >= len || len - off < 2 {
        return Err(ParseError::InvalidData);
    }
    let v0 = read_le_u16(s, off);
    let (count, n1): (u64, usize) = if v0 < 0x8000 {
        (v0 as u64, 2)
    } else {
        if len - off < 4 {
            return Err(ParseError::InvalidData);
        }
        ((v0 as u64 % 0x8000) * 0x10000 + read_le_u16(s, off + 2) as u64, 4)
    };
    // count < 2^31, so 2 * count fits comfortably in u64
    if 2 * count + 2 > (len - off - n1) as u64 {
        return Err(ParseError::InvalidData);
    }
    let mut units: Vec<u16> = Vec::new();
    let start = off + n1;
    let count_us = count as usize;
    for j in 0..count_us
        invariant
            len == s@.len(),
            count_us == count,
            start == off + n1,
            start + 2 * count + 2 <= s@.len(),
            units@ =~= Seq::new(j as nat, |k: int| le16_at(s@, start + 2 * k)),
    {
        let u = read_le_u16(s, start + 2 * j);
        units.push(u);
    }
    proof {
        assert(units@ =~= Seq::new(count as nat, |j: int| le16_at(s@, off + n1 + 2 * j)));
    }
    Ok((units, n1 + 2 * count_us + 2))
}

fn parse_style_runs(s: &[u8], off: usize) -> (r: Result<Vec<StringStyling>, ParseError>)
    ensures
        match r {
            Ok(runs) => spec_style_runs(s@, off as int) == Some(runs@),
            Err(_) => spec_style_runs(s@, off as int) is None,
        },
{
    let len = s.len();
    let mut runs: Vec<StringStyling> = Vec::new();
    let mut at: usize = off;
    loop
        invariant
            len == s@.len(),
            off <= at,
            spec_style_runs(s@, off as int) == (match spec_style_runs(s@, at as int) {
                Some(rest) => Some(runs@ + rest),
                None => None::<Seq<StringStyling>>,
            }),
        decreases s@.len() - at,
    {
        if at < len && len - at >= 4 && read_le_u32(s, at) == 0xffff_ffffu32 {
            proof {
                assert(spec_style_runs(s@, at as int) == Some(Seq::<StringStyling>::empty()));
                assert(runs@ + Seq::<StringStyling>::empty() =~= runs@);
            }
            return Ok(runs);
        }
        if at >= len || len - at < 12 {
            return Err(ParseError::InvalidData);
        }
        let run = StringStyling {
            name: read_le_u32(s, at),
            start_char: read_le_u32(s, at + 4),
            end_char: read_le_u32(s, at + 8),
        };
        let ghost prev = runs@;
        runs.push(run);
        proof {
            assert(runs@ =~= prev + seq![run]);
            assert forall|rest: Seq<StringStyling>| (prev + seq![run]) + rest =~= prev + (
            seq![run] + rest) by {}
        }
        at = at + 12;
    }
}

/// The pool header fields, taken from a chunk's additional header.
pub open spec fn pool_string_count(c: ChunkView) -> int {
    le32_at(c.additional_header, 0) as int
}

pub open spec fn pool_style_count(c: ChunkView) -> int {
    le32_at(c.additional_header, 4) as int
}

pub open spec fn pool_is_utf8(c: ChunkView) -> bool {
    le32_at(c.additional_header, 8) & 0x100 == 0x100
}

pub open spec fn pool_strings_offset(c: ChunkView) -> int {
    le32_at(c.additional_header, 12) as int
}

pub open spec fn pool_styles_offset(c: ChunkView) -> int {
    le32_at(c.additional_header, 16) as int
}

/// The string-data region: the chunk body after the two offset arrays.
/// String offsets index into it.
pub open spec fn pool_region(c: ChunkView) -> Seq<u8> {
    c.data.skip(4 * (pool_string_count(c) + pool_style_count(c)))
}

/// The style-run region, located `styles_offset - strings_offset` into the
/// string-data region.
pub open spec fn pool_style_region(c: ChunkView) -> Seq<u8> {
    pool_region(c).skip(pool_styles_offset(c) - pool_strings_offset(c))
}

/// The decoded string at pool index `i`, or `None` if its entry is
/// malformed.
pub open spec fn pool_string_at(c: ChunkView, i: int) -> Option<Seq<char>> {
    let off = le32_at(c.data, 4 * i) as int;
    if pool_is_utf8(c) {
        match spec_utf8_entry(pool_region(c), off) {
            Some((payload, _)) => Some(utf8_lossy_of(payload)),
            None => None,
        }
    } else {
        match spec_utf16_entry(pool_region(c), off) {
            Some((payload, _)) => Some(utf16_lossy_of(payload)),
            None => None,
        }
    }
}

/// The style runs of pool index `i`, or `None` if malformed.
pub open spec fn pool_styles_at(c: ChunkView, i: int) -> Option<Seq<StringStyling>> {
    let off = le32_at(c.data, 4 * (pool_string_count(c) + i)) as int;
    spec_style_runs(pool_style_region(c), off)
}

/// The whole pool chunk is well formed: right type code, full header, offset
/// arrays present, and every string (and, if styles are present, every style
/// run) decodes.
pub open spec fn spec_pool_ok(c: ChunkView) -> bool {
    &&& c.typ == 1
    &&& c.additional_header.len() >= 20
    &&& 4 * (pool_string_count(c) + pool_style_count(c)) <= c.data.len()
    &&& forall|i: int| 0 <= i < pool_string_count(c) ==> (#[trigger] pool_string_at(c, i)) is Some
    &&& pool_style_count(c) > 0 ==> {
        &&& pool_styles_offset(c) >= pool_strings_offset(c)
        &&& pool_styles_offset(c) - pool_strings_offset(c) <= pool_region(c).len()
        &&& forall|i: int|
            0 <= i < pool_style_count(c) ==> (#[trigger] pool_styles_at(c, i)) is Some
    }
}

/// Decodes a string pool chunk.  Succeeds exactly on well-formed pool
/// chunks; the result holds, in order, each decoded string and its style
/// runs.
#[verifier::rlimit(100)]
pub fn parse_string_pool_chunk(chunk: &Chunk) -> (r: Result<StringPool, ParseError>)
    ensures
        match r {
            Ok(p) => {
                &&& spec_pool_ok(chunk@)
                &&& p.pool@.len() == pool_string_count(chunk@)
                &&& forall|i: int|
                    0 <= i < pool_string_count(chunk@) ==> #[trigger] p.strings()[i]
                        == pool_string_at(chunk@, i)->Some_0
                &&& p.styles@.len() == (if pool_style_count(chunk@) > 0 {
                    pool_style_count(chunk@)
                } else {
                    0
                })
                &&& forall|i: int|
                    0 <= i < p.styles@.len() ==> #[trigger] p.styles@[i]@ == pool_styles_at(
                        chunk@,
                        i,
                    )->Some_0
            },
            Err(e) => {
                &&& !spec_pool_ok(chunk@)
                &&& (chunk@.typ != 1 <==> e == ParseError::WrongChunkType)
            },
        },
{
    if chunk.typ != 1 {
        return Err(ParseError::WrongChunkType);
    }
    let ah = chunk.additional_header.as_slice();
    if ah.len() < 20 {
        return Err(ParseError::InvalidData);
    }
    let string_count = read_le_u32(ah, 0);
    let style_count = read_le_u32(ah, 4);
    let flags = read_le_u32(ah, 8);
    let strings_offset = read_le_u32(ah, 12);
    let styles_offset = read_le_u32(ah, 16);
    let is_utf8 = flags & 0x100 == 0x100;

    let data = chunk.data.as_slice();
    let data_len = data.len();
    if 4 * (string_count as u64 + style_count as u64) > data_len as u64 {
        return Err(ParseError::InvalidData);
    }
    let offsets_end: usize = (4 * (string_count as u64 + style_count as u64)) as usize;
    let region = vstd::slice::slice_subrange(data, offsets_end, data_len);
    proof {
        assert(region@ =~= pool_region(chunk@));
    }

    let sc = string_count as usize;
    let mut pool: Vec<String> = Vec::new();
    for i in 0..sc
        invariant
            spec_pool_header_ok(chunk@),
            sc == string_count == pool_string_count(chunk@),
            style_count == pool_style_count(chunk@),
            is_utf8 == pool_is_utf8(chunk@),
            data@ == chunk.data@,
            data_len == data@.len(),
            region@ == pool_region(chunk@),
            data@.len() >= 4 * (pool_string_count(chunk@) + pool_style_count(chunk@)),
            pool@.len() == i,
            forall|k: int|
                0 <= k < i ==> (#[trigger] pool_string_at(chunk@, k)) is Some && pool@[k]@
                    == pool_string_at(chunk@, k)->Some_0,
    {
        proof {
            assert(4 * (i as int) + 4 <= 4 * pool_string_count(chunk@));
        }
        let off = read_le_u32(data, 4 * i);
        if is_utf8 {
            match parse_utf8_entry(region, off as usize) {
                Ok((payload, n)) => {
                    let ghost pv = payload@;
                    let s = utf8_lossy(payload.as_slice());
                    proof {
                        assert(le32_at(chunk@.data, 4 * (i as int)) == off);
                        assert(pool_string_at(chunk@, i as int) == Some(utf8_lossy_of(pv)));
                    }
                    let ghost prev = pool@;
                    pool.push(s);
                    proof {
                        assert(pool@.map_values(|x: String| x@) =~= prev.map_values(
                            |x: String| x@,
                        ).push(s@));
                    }
                },
                Err(_) => {
                    proof {
                        assert(pool_string_at(chunk@, i as int) is None);
                        assert(!spec_pool_ok(chunk@));
                    }
                    return Err(ParseError::InvalidData);
                },
            }
        } else {
            match parse_utf16_entry(region, off as usize) {
                Ok((payload, n)) => {
                    let ghost pv = payload@;
                    let s = utf16_lossy(payload.as_slice());
                    proof {
                        assert(le32_at(chunk@.data, 4 * (i as int)) == off);
                        assert(pool_string_at(chunk@, i as int) == Some(utf16_lossy_of(pv)));
                    }
                    let ghost prev = pool@;
                    pool.push(s);
                    proof {
                        assert(pool@.map_values(|x: String| x@) =~= prev.map_values(
                            |x: String| x@,
                        ).push(s@));
                    }
                },
                Err(_) => {
                    proof {
                        assert(pool_string_at(chunk@, i as int) is None);
                        assert(!spec_pool_ok(chunk@));
                    }
                    return Err(ParseError::InvalidData);
                },
            }
        }
    }

    let mut styles: Vec<Vec<StringStyling>> = Vec::new();
    if style_count > 0 {
        if styles_offset < strings_offset {
            return Err(ParseError::InvalidData);
        }
        let delta64 = (styles_offset - strings_offset) as u64;
        let region_len = region.len();
        if delta64 > region_len as u64 {
            return Err(ParseError::InvalidData);
        }
        let delta = delta64 as usize;
        let style_region = vstd::slice::slice_subrange(region, delta, region_len);
        proof {
            assert(style_region@ =~= pool_style_region(chunk@));
        }
        for i in 0..style_count as usize
            invariant
                spec_pool_header_ok(chunk@),
                sc == string_count == pool_string_count(chunk@),
                style_count == pool_style_count(chunk@),
                data@ == chunk.data@,
                data_len == data@.len(),
                style_region@ == pool_style_region(chunk@),
                data@.len() >= 4 * (pool_string_count(chunk@) + pool_style_count(chunk@)),
                styles@.len() == i,
                forall|k: int|
                    0 <= k < i ==> (#[trigger] pool_styles_at(chunk@, k)) is Some && styles@[k]@
                        == pool_styles_at(chunk@, k)->Some_0,
        {
            proof {
                assert(4 * (sc as int + i as int) + 4 <= 4 * (pool_string_count(chunk@)
                    + pool_style_count(chunk@)));
            }
            let off = read_le_u32(data, 4 * (sc + i));
            match parse_style_runs(style_region, off as usize) {
                Ok(runs) => {
                    proof {
                        assert(le32_at(chunk@.data, 4 * (pool_string_count(chunk@) + i as int))
                            == off);
                        assert(pool_styles_at(chunk@, i as int) == Some(runs@));
                    }
                    let ghost prev = styles@;
                    styles.push(runs);
                },
                Err(_) => {
                    proof {
                        assert(pool_styles_at(chunk@, i as int) is None);
                        assert(!spec_pool_ok(chunk@));
                    }
                    return Err(ParseError::InvalidData);
                },
            }
        }
    }
    proof {
        assert(spec_pool_ok(chunk@));
    }
    let result = StringPool { pool, styles };
    proof {
        assert forall|i: int|
            0 <= i < pool_string_count(chunk@) implies #[trigger] result.strings()[i]
            == pool_string_at(chunk@, i)->Some_0 by {
            assert(result.strings()[i] == result.pool@[i]@);
        }
    }
    Ok(result)
}

/// The fixed part of a well-formed pool chunk: type code and header length.
pub open spec fn spec_pool_header_ok(c: ChunkView) -> bool {
    c.typ == 1 && c.additional_header.len() >= 20
}

/// Minimal encoding of a UTF-8 length: one byte below 0x80, two bytes up to
/// 0x7fff.
pub open spec fn spec_varint8_encoding(n: int) -> Seq<u8> {
    if n < 0x80 {
        seq![n as u8]
    } else {
        seq![(0x80 + n / 0x100) as u8, (n % 0x100) as u8]
    }
}

/// Minimal encoding of a UTF-16 length: one unit below 0x8000, two units up
/// to 0x7fffffff, little-endian bytes.
pub open spec fn spec_varint16_encoding(n: int) -> Seq<u8> {
    if n < 0x8000 {
        seq![(n % 0x100) as u8, (n / 0x100) as u8]
    } else {
        let hi = 0x8000 + n / 0x10000;
        let lo = n % 0x10000;
        seq![(hi % 0x100) as u8, (hi / 0x100) as u8, (lo % 0x100) as u8, (lo / 0x100) as u8]
    }
}

/// The encoding of a UTF-8 pool entry: character count, byte count, payload,
/// terminator.
pub open spec fn spec_utf8_entry_encoding(char_count: int, payload: Seq<u8>) -> Seq<u8> {
    spec_varint8_encoding(char_count) + spec_varint8_encoding(payload.len() as int) + payload
        + seq![0u8]
}

/// The encoding of a UTF-16 pool entry: unit count, payload units
/// little-endian, terminator unit.
pub open spec fn spec_utf16_entry_encoding(payload: Seq<u16>) -> Seq<u8> {
    spec_varint16_encoding(payload.len() as int) + Seq::new(
        (2 * payload.len()) as nat,
        |i: int| if i % 2 == 0 {
            (payload[i / 2] as int % 0x100) as u8
        } else {
            (payload[i / 2] as int / 0x100) as u8
        },
    ) + seq![0u8, 0u8]
}

/// Round trip: a UTF-8 pool entry decodes back to exactly the payload it
/// was encoded from, consuming exactly the encoding, whatever follows it.
pub proof fn lemma_utf8_entry_round_trip(char_count: int, payload: Seq<u8>, rest: Seq<u8>)
    requires
        0 <= char_count < 0x8000,
        payload.len() < 0x8000,
    ensures
        spec_utf8_entry(spec_utf8_entry_encoding(char_count, payload) + rest, 0) == Some(
            (payload, spec_utf8_entry_encoding(char_count, payload).len() as int),
        ),
{
    let s = spec_utf8_entry_encoding(char_count, payload) + rest;
    let n1 = spec_varint8_encoding(char_count).len() as int;
    let n2 = spec_varint8_encoding(payload.len() as int).len() as int;
    assert(spec_varint8(s, 0) == Some((char_count, n1)));
    assert(spec_varint8(s, n1) == Some((payload.len() as int, n2)));
    assert(s.subrange(n1 + n2, n1 + n2 + payload.len()) =~= payload);
}

/// Round trip: a UTF-16 pool entry decodes back to exactly the payload it
/// was encoded from, consuming exactly the encoding, whatever follows it.
pub proof fn lemma_utf16_entry_round_trip(payload: Seq<u16>, rest: Seq<u8>)
    requires
        payload.len() < 0x8000,
    ensures
        spec_utf16_entry(spec_utf16_entry_encoding(payload) + rest, 0) == Some(
            (payload, spec_utf16_entry_encoding(payload).len() as int),
        ),
{
    let s = spec_utf16_entry_encoding(payload) + rest;
    let n = payload.len() as int;
    assert(le16_at(s, 0) == n);
    assert(spec_varint16(s, 0) == Some((n, 2int)));
    assert forall|j: int| 0 <= j < n implies le16_at(s, 2 + 2 * j) == payload[j] by {
        assert(s[2 + 2 * j] == (payload[j] as int % 0x100) as u8);
        assert(s[2 + 2 * j + 1] == (payload[j] as int / 0x100) as u8);
    }
    assert(Seq::new(n as nat, |j: int| le16_at(s, 2 + 2 * j)) =~= payload);
}

} // verus!
