//! Typed value cells: the 8-byte tagged records that carry attribute and
//! resource-entry values.

use vstd::prelude::*;

use crate::cursor::{le16_at, le32_at, read_le_u16, read_le_u32, read_u8};
use crate::error::ParseError;
use crate::strutil::{dec_of, dec_str, hex_of, hex_str};
use crate::stringpool::StringPool;

verus! {

/// A raw value cell: its type tag and its 32-bit payload.
#[derive(Debug, Clone, Copy, PartialEq, Eq, Structural)]
pub struct ResourceValue {
    pub typ: u8,
    pub value: u32,
}

/// The encoding of a value cell: `size == 8`, one reserved byte, the tag,
/// the payload little-endian.
pub open spec fn res_value_encoding(v: ResourceValue) -> Seq<u8> {
    seq![
        8u8,
        0u8,
        0u8,
        v.typ,
        (v.value as int % 0x100) as u8,
        (v.value as int / 0x100 % 0x100) as u8,
        (v.value as int / 0x10000 % 0x100) as u8,
        (v.value as int / 0x1000000) as u8,
    ]
}

/// The value cell at `off` in `s`, and the count of bytes it consumes
/// (its declared size, at least 8).
pub open spec fn spec_parse_res_value(s: Seq<u8>, off: int) -> Option<(ResourceValue, int)> {
    if off + 8 <= s.len() && le16_at(s, off) >= 8 && off + le16_at(s, off) <= s.len() {
        Some(
            (
                ResourceValue { typ: s[off + 3], value: le32_at(s, off + 4) },
                le16_at(s, off) as int,
            ),
        )
    } else {
        None
    }
}

/// Parses the value cell at `off`: `size: u16`, a reserved byte, the tag
/// byte, the payload, then any declared trailing bytes.
pub fn parse_res_value(s: &[u8], off: usize) -> (r: Result<(ResourceValue, usize), ParseError>)
    ensures
        match r {
            Ok((v, n)) => spec_parse_res_value(s@, off as int) == Some((v, n as int)) && off + n
                <= s@.len() && n >= 8,
            Err(e) => spec_parse_res_value(s@, off as int) is None
                && e == ParseError::MalformedChunk,
        },
{
    let len = s.len();
    if off >= len || len - off < 8 {
        return Err(ParseError::MalformedChunk);
    }
    let size = read_le_u16(s, off);
    if size < 8 || (size as usize) > len - off {
        return Err(ParseError::MalformedChunk);
    }
    let typ = read_u8(s, off + 3);
    let value = read_le_u32(s, off + 4);
    Ok((ResourceValue { typ, value }, size as usize))
}

impl ResourceValue {
    /// Re-encodes the cell in its minimal 8-byte form; the inverse of
    /// `parse_res_value`.
    pub fn encode(&self) -> (r: Vec<u8>)
        ensures
            r@ == res_value_encoding(*self),
    {
        let mut out: Vec<u8> = Vec::new();
        out.push(8);
        out.push(0);
        out.push(0);
        out.push(self.typ);
        out.push((self.value % 0x100) as u8);
        out.push((self.value / 0x100 % 0x100) as u8);
        out.push((self.value / 0x10000 % 0x100) as u8);
        out.push((self.value / 0x1000000) as u8);
        proof {
            assert(out@ =~= res_value_encoding(*self));
        }
        out
    }
}

/// Round trip: parsing the encoding of any value cell, with any bytes
/// following it, yields back exactly that cell and consumes 8 bytes.
pub proof fn lemma_res_value_round_trip(v: ResourceValue, rest: Seq<u8>)
    ensures
        spec_parse_res_value(res_value_encoding(v) + rest, 0) == Some((v, 8int)),
{
    let s = res_value_encoding(v) + rest;
    assert(le16_at(s, 0) == 8);
    assert(le32_at(s, 4) == v.value);
}

/// A decoded typed value.  A float is carried as its raw bit pattern.
#[derive(Debug, Clone, PartialEq, Eq)]
pub enum TypedValue {
    Reference(u32),
    Attribute(u32),
    String(String),
    Float(u32),
    Dimension(u32),
    Fraction(u32),
    Boolean(bool),
    IntDecimal(i32),
    IntHex(i32),
    Argb8(u32),
    Rgb8(u32),
    Argb4(u32),
    Rgb4(u32),
}

/// Whether the tag byte is in the known set.
pub open spec fn known_value_type(t: u8) -> bool {
    t == 0x01 || t == 0x02 || t == 0x03 || t == 0x04 || t == 0x05 || t == 0x06 || t == 0x10
        || t == 0x11 || t == 0x12 || t == 0x1c || t == 0x1d || t == 0x1e || t == 0x1f
}

/// The relation between a decoded typed value and the raw cell it came
/// from, under the given string pool.  For each tag exactly one variant
/// fits, so this pins the decoding down.
pub open spec fn typed_value_matches(tv: TypedValue, rv: ResourceValue, pool: Seq<Seq<char>>) -> bool {
    match tv {
        TypedValue::Reference(x) => rv.typ == 0x01 && x == rv.value,
        TypedValue::Attribute(x) => rv.typ == 0x02 && x == rv.value,
        TypedValue::String(s) => rv.typ == 0x03 && rv.value < pool.len() && s@ == pool[rv.value as int],
        TypedValue::Float(bits) => rv.typ == 0x04 && bits == rv.value,
        TypedValue::Dimension(x) => rv.typ == 0x05 && x == rv.value,
        TypedValue::Fraction(x) => rv.typ == 0x06 && x == rv.value,
        TypedValue::IntDecimal(d) => rv.typ == 0x10 && d == rv.value as i32,
        TypedValue::IntHex(d) => rv.typ == 0x11 && d == rv.value as i32,
        TypedValue::Boolean(b) => rv.typ == 0x12 && b == (rv.value != 0),
        TypedValue::Argb8(c) => rv.typ == 0x1c && c == rv.value,
        TypedValue::Rgb8(c) => rv.typ == 0x1d && c == rv.value,
        TypedValue::Argb4(c) => rv.typ == 0x1e && c == rv.value,
        TypedValue::Rgb4(c) => rv.typ == 0x1f && c == rv.value,
    }
}

impl TypedValue {
    /// Decodes a raw cell, resolving string values through the enclosing
    /// document's pool.  Fails with `UnknownValueType` on a tag outside the
    /// known set and with `InvalidData` on a string index outside the pool.
    pub fn from(typed_value: ResourceValue, strings: &StringPool) -> (r: Result<
        TypedValue,
        ParseError,
    >)
        ensures
            match r {
                Ok(tv) => typed_value_matches(tv, typed_value, strings.strings()),
                Err(e) => {
                    &&& !known_value_type(typed_value.typ) || (typed_value.typ == 0x03
                        && typed_value.value >= strings.strings().len())
                    &&& (e == ParseError::UnknownValueType(typed_value.typ) <==> !known_value_type(
                        typed_value.typ,
                    ))
                },
            },
            r is Ok <==> known_value_type(typed_value.typ) && (typed_value.typ == 0x03
                ==> typed_value.value < strings.strings().len()),
    {
        let v = typed_value.value;
        match typed_value.typ {
            0x01 => Ok(TypedValue::Reference(v)),
            0x02 => Ok(TypedValue::Attribute(v)),
            0x03 => {
                if (v as usize) < strings.len() {
                    Ok(TypedValue::String(strings.get(v)))
                } else {
                    Err(ParseError::InvalidData)
                }
            },
            0x04 => Ok(TypedValue::Float(v)),
            0x05 => Ok(TypedValue::Dimension(v)),
            0x06 => Ok(TypedValue::Fraction(v)),
            0x10 => Ok(TypedValue::IntDecimal(v as i32)),
            0x11 => Ok(TypedValue::IntHex(v as i32)),
            0x12 => Ok(TypedValue::Boolean(v != 0)),
            0x1c => Ok(TypedValue::Argb8(v)),
            0x1d => Ok(TypedValue::Rgb8(v)),
            0x1e => Ok(TypedValue::Argb4(v)),
            0x1f => Ok(TypedValue::Rgb4(v)),
            t => Err(ParseError::UnknownValueType(t)),
        }
    }

    /// The textual rendering of a typed value, as `to_string` produces it.
    /// A float is shown by its raw bit pattern.
    pub open spec fn rendered(self) -> Seq<char> {
        match self {
            TypedValue::Reference(x) => "@ref/0x"@ + hex_of(x as int),
            TypedValue::Attribute(x) => "@attr/0x"@ + hex_of(x as int),
            TypedValue::String(s) => s@,
            TypedValue::Float(bits) => "float(0x"@ + hex_of(bits as int) + ")"@,
            TypedValue::Dimension(x) => "dimension("@ + dec_of(x as int) + ")"@,
            TypedValue::Fraction(x) => "fraction("@ + dec_of(x as int) + ")"@,
            TypedValue::IntDecimal(d) => if d < 0 {
                seq!['-'] + dec_of(-(d as int))
            } else {
                dec_of(d as int)
            },
            TypedValue::IntHex(d) => "0x"@ + hex_of((d as u32) as int),
            TypedValue::Boolean(b) => if b {
                "true"@
            } else {
                "false"@
            },
            TypedValue::Argb8(c) => "argb8(0x"@ + hex_of(c as int) + ")"@,
            TypedValue::Rgb8(c) => "rgb8(0x"@ + hex_of(c as int) + ")"@,
            TypedValue::Argb4(c) => "argb4(0x"@ + hex_of(c as int) + ")"@,
            TypedValue::Rgb4(c) => "rgb4(0x"@ + hex_of(c as int) + ")"@,
        }
    }

    /// Renders the value as text.
    pub fn to_string(&self) -> (r: String)
        ensures
            r@ == self.rendered(),
    {
        match self {
            TypedValue::Reference(x) => {
                let mut s = String::from_str("@ref/0x");
                s.append(hex_str(*x).as_str());
                s
            },
            TypedValue::Attribute(x) => {
                let mut s = String::from_str("@attr/0x");
                s.append(hex_str(*x).as_str());
                s
            },
            TypedValue::String(text) => text.clone(),
            TypedValue::Float(bits) => {
                let mut s = String::from_str("float(0x");
                s.append(hex_str(*bits).as_str());
                s.append(")");
                s
            },
            TypedValue::Dimension(x) => {
                let mut s = String::from_str("dimension(");
                s.append(dec_str(*x).as_str());
                s.append(")");
                s
            },
            TypedValue::Fraction(x) => {
                let mut s = String::from_str("fraction(");
                s.append(dec_str(*x).as_str());
                s.append(")");
                s
            },
            TypedValue::IntDecimal(d) => {
                if *d < 0 {
                    let magnitude = (-(*d as i64)) as u32;
                    let mut s = String::from_str("-");
                    s.append(dec_str(magnitude).as_str());
                    proof {
                        reveal_strlit("-");
                        assert("-"@ =~= seq!['-']);
                    }
                    s
                } else {
                    dec_str(*d as u32)
                }
            },
            TypedValue::IntHex(d) => {
                let mut s = String::from_str("0x");
                s.append(hex_str(*d as u32).as_str());
                s
            },
            TypedValue::Boolean(b) => {
                if *b {
                    String::from_str("true")
                } else {
                    String::from_str("false")
                }
            },
            TypedValue::Argb8(c) => {
                let mut s = String::from_str("argb8(0x");
                s.append(hex_str(*c).as_str());
                s.append(")");
                s
            },
            TypedValue::Rgb8(c) => {
                let mut s = String::from_str("rgb8(0x");
                s.append(hex_str(*c).as_str());
                s.append(")");
                s
            },
            TypedValue::Argb4(c) => {
                let mut s = String::from_str("argb4(0x");
                s.append(hex_str(*c).as_str());
                s.append(")");
                s
            },
            TypedValue::Rgb4(c) => {
                let mut s = String::from_str("rgb4(0x");
                s.append(hex_str(*c).as_str());
                s.append(")");
                s
            },
        }
    }

    /// Whether this value references another resource.
    pub fn is_reference_type(&self) -> (r: bool)
        ensures
            r == (self is Reference || self is Attribute),
    {
        match self {
            TypedValue::Reference(_) => true,
            TypedValue::Attribute(_) => true,
            _ => false,
        }
    }

    /// The canonical cell for a pool-independent typed value: the tag it
    /// carries and its payload.  A string value is excluded, since its cell
    /// holds a pool index rather than the string.
    pub open spec fn cell(self) -> ResourceValue {
        match self {
            TypedValue::Reference(x) => ResourceValue { typ: 0x01, value: x },
            TypedValue::Attribute(x) => ResourceValue { typ: 0x02, value: x },
            TypedValue::String(_) => ResourceValue { typ: 0x03, value: 0 },
            TypedValue::Float(bits) => ResourceValue { typ: 0x04, value: bits },
            TypedValue::Dimension(x) => ResourceValue { typ: 0x05, value: x },
            TypedValue::Fraction(x) => ResourceValue { typ: 0x06, value: x },
            TypedValue::IntDecimal(d) => ResourceValue { typ: 0x10, value: d as u32 },
            TypedValue::IntHex(d) => ResourceValue { typ: 0x11, value: d as u32 },
            TypedValue::Boolean(b) => ResourceValue {
                typ: 0x12,
                value: if b {
                    0xffff_ffff
                } else {
                    0
                },
            },
            TypedValue::Argb8(c) => ResourceValue { typ: 0x1c, value: c },
            TypedValue::Rgb8(c) => ResourceValue { typ: 0x1d, value: c },
            TypedValue::Argb4(c) => ResourceValue { typ: 0x1e, value: c },
            TypedValue::Rgb4(c) => ResourceValue { typ: 0x1f, value: c },
        }
    }

    /// Re-encodes a pool-independent typed value as its 8-byte cell.
    pub fn encode(&self) -> (r: Option<Vec<u8>>)
        ensures
            match r {
                Some(bytes) => !(self is String) && bytes@ == res_value_encoding(self.cell()),
                None => self is String,
            },
    {
        let cell: ResourceValue = match self {
            TypedValue::Reference(x) => ResourceValue { typ: 0x01, value: *x },
            TypedValue::Attribute(x) => ResourceValue { typ: 0x02, value: *x },
            TypedValue::String(_) => {
                return None;
            },
            TypedValue::Float(bits) => ResourceValue { typ: 0x04, value: *bits },
            TypedValue::Dimension(x) => ResourceValue { typ: 0x05, value: *x },
            TypedValue::Fraction(x) => ResourceValue { typ: 0x06, value: *x },
            TypedValue::IntDecimal(d) => ResourceValue { typ: 0x10, value: *d as u32 },
            TypedValue::IntHex(d) => ResourceValue { typ: 0x11, value: *d as u32 },
            TypedValue::Boolean(b) => ResourceValue {
                typ: 0x12,
                value: if *b {
                    0xffff_ffff
                } else {
                    0
                },
            },
            TypedValue::Argb8(c) => ResourceValue { typ: 0x1c, value: *c },
            TypedValue::Rgb8(c) => ResourceValue { typ: 0x1d, value: *c },
            TypedValue::Argb4(c) => ResourceValue { typ: 0x1e, value: *c },
            TypedValue::Rgb4(c) => ResourceValue { typ: 0x1f, value: *c },
        };
        Some(cell.encode())
    }
}

/// Round trip: for every typed value other than a string, parsing its
/// encoded cell gives a cell that decodes back to exactly that value,
/// under any pool.
pub proof fn lemma_typed_value_round_trip(tv: TypedValue, pool: Seq<Seq<char>>, rest: Seq<u8>)
    requires
        !(tv is String),
    ensures
        spec_parse_res_value(res_value_encoding(tv.cell()) + rest, 0) == Some((tv.cell(), 8int)),
        typed_value_matches(tv, tv.cell(), pool),
{
    lemma_res_value_round_trip(tv.cell(), rest);
    match tv {
        TypedValue::IntDecimal(d) => {
            assert((d as u32) as i32 == d) by (bit_vector);
        },
        TypedValue::IntHex(d) => {
            assert((d as u32) as i32 == d) by (bit_vector);
        },
        _ => {},
    }
}

} // verus!
