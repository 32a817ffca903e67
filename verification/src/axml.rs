//! The binary-XML event stream: walks the sub-chunks of an XML document
//! chunk and yields one event per node chunk, with every string index
//! resolved through the document's pool.

use vstd::prelude::*;

use crate::chunk::{Chunk, ChunkView, parse_chunk, spec_parse_chunk, spec_parse_chunks};
use crate::cursor::{le16_at, le32_at, read_le_u16, read_le_u32};

pub use crate::error::ParseError;
use crate::stringpool::{
    ABSENT_STRING, StringPool, parse_string_pool_chunk, pool_string_count, pool_string_at,
    spec_pool_ok,
};
use crate::typedvalue::{
    ResourceValue, TypedValue, parse_res_value, spec_parse_res_value, known_value_type,
    typed_value_matches,
};

verus! {

/// Tells whether a byte buffer begins with the binary-XML chunk type code.
pub fn is_binary_xml(data: &[u8]) -> (r: bool)
    requires
        data@.len() >= 2,
    ensures
        r == (data@[0] == 0x03u8 && data@[1] == 0x00u8),
{
    data[0] == 0x03 && data[1] == 0x00
}

/// Whether a node chunk carries the 8-byte XML node header (line number
/// and comment index).
pub open spec fn header_ok(c: ChunkView) -> bool {
    c.additional_header.len() >= 8
}

/// The source line number of a node chunk.
pub open spec fn line_of(c: ChunkView) -> u32 {
    le32_at(c.additional_header, 0)
}

/// The comment string index of a node chunk.
pub open spec fn comment_of(c: ChunkView) -> u32 {
    le32_at(c.additional_header, 4)
}

/// The XML node header: source line number and comment string index.
#[derive(Debug, Clone, Copy, PartialEq, Eq, Structural)]
pub struct XmlChunkHeader {
    pub line_number: u32,
    pub comment: u32,
}

impl Chunk {
    /// The node header carried in a node chunk's additional header, if
    /// one is present.
    pub fn get_additional_header(&self) -> (r: Option<XmlChunkHeader>)
        ensures
            match r {
                Some(h) => header_ok(self@) && h.line_number == line_of(self@) && h.comment
                    == comment_of(self@),
                None => !header_ok(self@),
            },
    {
        let ah = self.additional_header.as_slice();
        if ah.len() >= 8 {
            Some(XmlChunkHeader { line_number: read_le_u32(ah, 0), comment: read_le_u32(ah, 4) })
        } else {
            None
        }
    }
}

/// An optional string index is resolvable: the sentinel, or in range.
pub open spec fn opt_str_ok(idx: u32, pool: Seq<Seq<char>>) -> bool {
    idx == ABSENT_STRING || idx < pool.len()
}

/// How an optional resolved string relates to its index.
pub open spec fn opt_str_matches(o: Option<String>, idx: u32, pool: Seq<Seq<char>>) -> bool {
    match o {
        Some(s) => idx != ABSENT_STRING && idx < pool.len() && s@ == pool[idx as int],
        None => idx == ABSENT_STRING,
    }
}

/// A namespace event: prefix and uri resolved from the pool.
#[derive(Debug)]
pub struct Namespace {
    pub line_number: u32,
    pub comment: Option<String>,
    pub prefix: String,
    pub uri: String,
}

/// An element-start event.
#[derive(Debug)]
pub struct ElementStart {
    pub line_number: u32,
    pub comment: Option<String>,
    pub ns: Option<String>,
    pub name: String,
    pub attributes: Option<Vec<Attribute>>,
}

/// One decoded attribute of an element-start event.
#[derive(Debug)]
pub struct Attribute {
    pub ns: Option<String>,
    pub name: String,
    pub value: TypedValue,
}

/// An element-end event.
#[derive(Debug)]
pub struct ElementEnd {
    pub line_number: u32,
    pub comment: Option<String>,
    pub ns: Option<String>,
    pub name: String,
}

/// A character-data event.
#[derive(Debug)]
pub struct CData {
    pub line_number: u32,
    pub comment: Option<String>,
    pub data: String,
}

/// One event of the stream.
#[derive(Debug)]
pub enum XmlEvent {
    NamespaceStart(Namespace),
    NamespaceEnd(Namespace),
    ElementStart(ElementStart),
    ElementEnd(ElementEnd),
    CData(CData),
}

/// A namespace chunk resolves: node header present, 8-byte body, both
/// string indices in range, comment resolvable.
pub open spec fn ns_ok(c: ChunkView, pool: Seq<Seq<char>>) -> bool {
    &&& header_ok(c)
    &&& opt_str_ok(comment_of(c), pool)
    &&& c.data.len() >= 8
    &&& le32_at(c.data, 0) < pool.len()
    &&& le32_at(c.data, 4) < pool.len()
}

/// How a namespace event relates to its chunk.
pub open spec fn ns_matches(e: Namespace, c: ChunkView, pool: Seq<Seq<char>>) -> bool {
    &&& e.line_number == line_of(c)
    &&& opt_str_matches(e.comment, comment_of(c), pool)
    &&& e.prefix@ == pool[le32_at(c.data, 0) as int]
    &&& e.uri@ == pool[le32_at(c.data, 4) as int]
}

/// One raw attribute record: three string indices and a typed-value cell.
pub ghost struct RawAttrView {
    pub ns: u32,
    pub name: u32,
    pub raw_value: u32,
    pub value: ResourceValue,
}

/// The `count` attribute records at `off`: each holds three 32-bit words
/// and one size-prefixed value cell.
pub open spec fn spec_attrs(data: Seq<u8>, off: int, count: int) -> Option<Seq<RawAttrView>>
    decreases count,
{
    if count <= 0 {
        Some(Seq::empty())
    } else if off + 12 <= data.len() {
        match spec_parse_res_value(data, off + 12) {
            Some((rv, n)) => match spec_attrs(data, off + 12 + n, count - 1) {
                Some(rest) => Some(
                    seq![
                        RawAttrView {
                            ns: le32_at(data, off),
                            name: le32_at(data, off + 4),
                            raw_value: le32_at(data, off + 8),
                            value: rv,
                        },
                    ] + rest,
                ),
                None => None,
            },
            None => None,
        }
    } else {
        None
    }
}

/// A successful attribute walk yields exactly `count` records.
pub proof fn lemma_spec_attrs_len(data: Seq<u8>, off: int, count: int)
    requires
        spec_attrs(data, off, count) is Some,
    ensures
        spec_attrs(data, off, count)->Some_0.len() == (if count >= 0 {
            count
        } else {
            0
        }),
    decreases count,
{
    if count > 0 {
        match spec_parse_res_value(data, off + 12) {
            Some((rv, n)) => {
                lemma_spec_attrs_len(data, off + 12 + n, count - 1);
            },
            None => {},
        }
    }
}

/// A raw attribute resolves: namespace sentinel or in range, name in
/// range, value tag known, and a string value's index in range.
pub open spec fn raw_attr_ok(a: RawAttrView, pool: Seq<Seq<char>>) -> bool {
    &&& opt_str_ok(a.ns, pool)
    &&& a.name < pool.len()
    &&& known_value_type(a.value.typ)
    &&& a.value.typ == 0x03 ==> a.value.value < pool.len()
}

/// How a decoded attribute relates to its raw record.
pub open spec fn attr_matches(a: Attribute, raw: RawAttrView, pool: Seq<Seq<char>>) -> bool {
    &&& opt_str_matches(a.ns, raw.ns, pool)
    &&& raw.name < pool.len() && a.name@ == pool[raw.name as int]
    &&& typed_value_matches(a.value, raw.value, pool)
}

/// Every decoded attribute so far resolves from and matches its raw
/// record.
pub open spec fn attrs_all_match(
    attrs: Seq<Attribute>,
    raws: Seq<RawAttrView>,
    pool: Seq<Seq<char>>,
) -> bool
    decreases attrs.len(),
{
    if attrs.len() == 0 {
        true
    } else {
        &&& attrs_all_match(attrs.drop_last(), raws, pool)
        &&& attrs.len() <= raws.len()
        &&& raw_attr_ok(raws[attrs.len() - 1], pool)
        &&& attr_matches(attrs.last(), raws[attrs.len() - 1], pool)
    }
}

pub proof fn lemma_attrs_all_match(attrs: Seq<Attribute>, raws: Seq<RawAttrView>, pool: Seq<Seq<char>>)
    requires
        attrs_all_match(attrs, raws, pool),
    ensures
        forall|i: int|
            0 <= i < attrs.len() ==> raw_attr_ok(#[trigger] raws[i], pool) && attr_matches(
                attrs[i],
                raws[i],
                pool,
            ),
    decreases attrs.len(),
{
    if attrs.len() > 0 {
        lemma_attrs_all_match(attrs.drop_last(), raws, pool);
        assert forall|i: int|
            0 <= i < attrs.len() implies raw_attr_ok(#[trigger] raws[i], pool) && attr_matches(
                attrs[i],
                raws[i],
                pool,
            ) by {
            if i < attrs.len() - 1 {
                assert(attrs.drop_last()[i] == attrs[i]);
            } else {
                assert(attrs[i] == attrs.last());
            }
        }
    }
}

/// An element-start chunk resolves: node header, a 20-byte body prelude,
/// its attribute records parse, and everything resolves through the pool.
pub open spec fn start_ok(c: ChunkView, pool: Seq<Seq<char>>) -> bool {
    &&& header_ok(c)
    &&& opt_str_ok(comment_of(c), pool)
    &&& c.data.len() >= 20
    &&& opt_str_ok(le32_at(c.data, 0), pool)
    &&& le32_at(c.data, 4) < pool.len()
    &&& spec_attrs(c.data, 20, le16_at(c.data, 12) as int) is Some
    &&& forall|i: int|
        0 <= i < spec_attrs(c.data, 20, le16_at(c.data, 12) as int)->Some_0.len()
            ==> raw_attr_ok(
            #[trigger] spec_attrs(c.data, 20, le16_at(c.data, 12) as int)->Some_0[i],
            pool,
        )
}

/// How an element-start event relates to its chunk: the name and namespace
/// resolve from the body, and the attributes (absent exactly when the
/// declared count is zero) match the raw records one for one.
pub open spec fn start_matches(e: ElementStart, c: ChunkView, pool: Seq<Seq<char>>) -> bool {
    let raws = spec_attrs(c.data, 20, le16_at(c.data, 12) as int)->Some_0;
    &&& e.line_number == line_of(c)
    &&& opt_str_matches(e.comment, comment_of(c), pool)
    &&& opt_str_matches(e.ns, le32_at(c.data, 0), pool)
    &&& e.name@ == pool[le32_at(c.data, 4) as int]
    &&& match e.attributes {
        Some(attrs) => le16_at(c.data, 12) > 0 && attrs@.len() == raws.len() && forall|i: int|
            0 <= i < raws.len() ==> attr_matches(#[trigger] attrs@[i], raws[i], pool),
        None => le16_at(c.data, 12) == 0,
    }
}

/// An element-end chunk resolves.
pub open spec fn end_ok(c: ChunkView, pool: Seq<Seq<char>>) -> bool {
    &&& header_ok(c)
    &&& opt_str_ok(comment_of(c), pool)
    &&& c.data.len() >= 8
    &&& opt_str_ok(le32_at(c.data, 0), pool)
    &&& le32_at(c.data, 4) < pool.len()
}

/// How an element-end event relates to its chunk.
pub open spec fn end_matches(e: ElementEnd, c: ChunkView, pool: Seq<Seq<char>>) -> bool {
    &&& e.line_number == line_of(c)
    &&& opt_str_matches(e.comment, comment_of(c), pool)
    &&& opt_str_matches(e.ns, le32_at(c.data, 0), pool)
    &&& e.name@ == pool[le32_at(c.data, 4) as int]
}

/// A character-data chunk resolves.
pub open spec fn cdata_ok(c: ChunkView, pool: Seq<Seq<char>>) -> bool {
    &&& header_ok(c)
    &&& opt_str_ok(comment_of(c), pool)
    &&& c.data.len() >= 4
    &&& le32_at(c.data, 0) < pool.len()
}

/// How a character-data event relates to its chunk.
pub open spec fn cdata_matches(e: CData, c: ChunkView, pool: Seq<Seq<char>>) -> bool {
    &&& e.line_number == line_of(c)
    &&& opt_str_matches(e.comment, comment_of(c), pool)
    &&& e.data@ == pool[le32_at(c.data, 0) as int]
}

/// Whether a node chunk produces an event: its type is a node type and
/// everything it references resolves.
pub open spec fn spec_event_ok(c: ChunkView, pool: Seq<Seq<char>>) -> bool {
    if c.typ == 0x100 || c.typ == 0x101 {
        ns_ok(c, pool)
    } else if c.typ == 0x102 {
        start_ok(c, pool)
    } else if c.typ == 0x103 {
        end_ok(c, pool)
    } else if c.typ == 0x104 {
        cdata_ok(c, pool)
    } else {
        false
    }
}

/// How an event relates to the chunk it came from: the variant follows the
/// chunk type and the payload resolves from the chunk's body.
pub open spec fn event_matches(e: XmlEvent, c: ChunkView, pool: Seq<Seq<char>>) -> bool {
    match e {
        XmlEvent::NamespaceStart(ns) => c.typ == 0x100 && ns_matches(ns, c, pool),
        XmlEvent::NamespaceEnd(ns) => c.typ == 0x101 && ns_matches(ns, c, pool),
        XmlEvent::ElementStart(s) => c.typ == 0x102 && start_matches(s, c, pool),
        XmlEvent::ElementEnd(s) => c.typ == 0x103 && end_matches(s, c, pool),
        XmlEvent::CData(d) => c.typ == 0x104 && cdata_matches(d, c, pool),
    }
}

/// Resolves an optional string index; `None` in the result stands for the
/// sentinel.  Fails when the index is out of range.
fn resolve_optional(pool: &StringPool, idx: u32) -> (r: Result<Option<String>, ParseError>)
    ensures
        match r {
            Ok(o) => opt_str_ok(idx, pool.strings()) && opt_str_matches(o, idx, pool.strings()),
            Err(_) => !opt_str_ok(idx, pool.strings()),
        },
{
    if idx == ABSENT_STRING {
        Ok(None)
    } else if (idx as usize) < pool.len() {
        Ok(Some(pool.get(idx)))
    } else {
        Err(ParseError::InvalidData)
    }
}

/// Resolves a required string index.  Fails when it is out of range.
fn resolve(pool: &StringPool, idx: u32) -> (r: Result<String, ParseError>)
    ensures
        match r {
            Ok(s) => idx < pool.strings().len() && s@ == pool.strings()[idx as int],
            Err(_) => idx >= pool.strings().len(),
        },
{
    if (idx as usize) < pool.len() {
        Ok(pool.get(idx))
    } else {
        Err(ParseError::InvalidData)
    }
}

fn make_namespace(chunk: &Chunk, pool: &StringPool, line: u32, comment: u32) -> (r: Option<
    Namespace,
>)
    requires
        header_ok(chunk@),
        line == line_of(chunk@),
        comment == comment_of(chunk@),
        opt_str_ok(comment, pool.strings()),
    ensures
        match r {
            Some(ns) => ns_ok(chunk@, pool.strings()) && ns_matches(ns, chunk@, pool.strings()),
            None => !ns_ok(chunk@, pool.strings()),
        },
{
    let data = chunk.data.as_slice();
    if data.len() < 8 {
        return None;
    }
    let prefix_idx = read_le_u32(data, 0);
    let uri_idx = read_le_u32(data, 4);
    let prefix = match resolve(pool, prefix_idx) {
        Ok(s) => s,
        Err(_) => {
            return None;
        },
    };
    let uri = match resolve(pool, uri_idx) {
        Ok(s) => s,
        Err(_) => {
            return None;
        },
    };
    let comment_s = match resolve_optional(pool, comment) {
        Ok(o) => o,
        Err(_) => {
            return None;
        },
    };
    Some(Namespace { line_number: line, comment: comment_s, prefix, uri })
}

fn make_element_end(chunk: &Chunk, pool: &StringPool, line: u32, comment: u32) -> (r: Option<
    ElementEnd,
>)
    requires
        header_ok(chunk@),
        line == line_of(chunk@),
        comment == comment_of(chunk@),
        opt_str_ok(comment, pool.strings()),
    ensures
        match r {
            Some(e) => end_ok(chunk@, pool.strings()) && end_matches(e, chunk@, pool.strings()),
            None => !end_ok(chunk@, pool.strings()),
        },
{
    let data = chunk.data.as_slice();
    if data.len() < 8 {
        return None;
    }
    let ns_idx = read_le_u32(data, 0);
    let name_idx = read_le_u32(data, 4);
    let ns = match resolve_optional(pool, ns_idx) {
        Ok(o) => o,
        Err(_) => {
            return None;
        },
    };
    let name = match resolve(pool, name_idx) {
        Ok(s) => s,
        Err(_) => {
            return None;
        },
    };
    let comment_s = match resolve_optional(pool, comment) {
        Ok(o) => o,
        Err(_) => {
            return None;
        },
    };
    Some(ElementEnd { line_number: line, comment: comment_s, ns, name })
}

fn make_cdata(chunk: &Chunk, pool: &StringPool, line: u32, comment: u32) -> (r: Option<CData>)
    requires
        header_ok(chunk@),
        line == line_of(chunk@),
        comment == comment_of(chunk@),
        opt_str_ok(comment, pool.strings()),
    ensures
        match r {
            Some(e) => cdata_ok(chunk@, pool.strings()) && cdata_matches(
                e,
                chunk@,
                pool.strings(),
            ),
            None => !cdata_ok(chunk@, pool.strings()),
        },
{
    let data = chunk.data.as_slice();
    if data.len() < 4 {
        return None;
    }
    let data_idx = read_le_u32(data, 0);
    let text = match resolve(pool, data_idx) {
        Ok(s) => s,
        Err(_) => {
            return None;
        },
    };
    let comment_s = match resolve_optional(pool, comment) {
        Ok(o) => o,
        Err(_) => {
            return None;
        },
    };
    Some(CData { line_number: line, comment: comment_s, data: text })
}

#[verifier::rlimit(100)]
#[verifier::loop_isolation(false)]
fn make_element_start(chunk: &Chunk, pool: &StringPool, line: u32, comment: u32) -> (r: Option<
    ElementStart,
>)
    requires
        header_ok(chunk@),
        line == line_of(chunk@),
        comment == comment_of(chunk@),
        opt_str_ok(comment, pool.strings()),
    ensures
        match r {
            Some(e) => start_ok(chunk@, pool.strings()) && start_matches(
                e,
                chunk@,
                pool.strings(),
            ),
            None => !start_ok(chunk@, pool.strings()),
        },
{
    let data = chunk.data.as_slice();
    let len = data.len();
    if len < 20 {
        return None;
    }
    let ns_idx = read_le_u32(data, 0);
    let name_idx = read_le_u32(data, 4);
    let count = read_le_u16(data, 12);
    let ns = match resolve_optional(pool, ns_idx) {
        Ok(o) => o,
        Err(_) => {
            return None;
        },
    };
    let name = match resolve(pool, name_idx) {
        Ok(s) => s,
        Err(_) => {
            return None;
        },
    };
    let comment_s = match resolve_optional(pool, comment) {
        Ok(o) => o,
        Err(_) => {
            return None;
        },
    };
    let ghost all = spec_attrs(chunk@.data, 20, count as int);
    let ghost pool_strings = pool.strings();
    let mut attrs: Vec<Attribute> = Vec::new();
    let mut off: usize = 20;
    let mut remaining: u16 = count;
    proof {
        if all is Some {
            lemma_spec_attrs_len(chunk@.data, 20, count as int);
            assert(all->Some_0 =~= all->Some_0.take(0) + all->Some_0);
        }
    }
    while remaining > 0
        invariant
            len == chunk.data@.len(),
            data@ == chunk.data@,
            20 <= off <= len,
            remaining <= count,
            pool_strings == pool.strings(),
            count == le16_at(chunk@.data, 12),
            chunk@.data.len() >= 20,
            all == spec_attrs(chunk@.data, 20, count as int),
            all is None ==> spec_attrs(chunk@.data, off as int, remaining as int) is None,
            all is Some ==> all->Some_0.len() == count,
            all is Some ==> spec_attrs(chunk@.data, off as int, remaining as int) is Some,
            all is Some ==> all->Some_0 =~= all->Some_0.take(attrs@.len() as int) + spec_attrs(
                chunk@.data,
                off as int,
                remaining as int,
            )->Some_0,
            all is Some ==> attrs@.len() + remaining == count,
            all is Some ==> attrs_all_match(attrs@, all->Some_0, pool_strings),
        decreases remaining,
    {
        if len - off < 12 {
            proof {
                assert(spec_attrs(chunk@.data, off as int, remaining as int) is None);
            }
            return None;
        }
        let a_ns = read_le_u32(data, off);
        let a_name = read_le_u32(data, off + 4);
        let _a_raw = read_le_u32(data, off + 8);
        let (rv, n) = match parse_res_value(data, off + 12) {
            Ok(v) => v,
            Err(_) => {
                proof {
                    assert(spec_attrs(chunk@.data, off as int, remaining as int) is None);
                }
                return None;
            },
        };
        let ghost raw = RawAttrView {
            ns: le32_at(chunk@.data, off as int),
            name: le32_at(chunk@.data, off as int + 4),
            raw_value: le32_at(chunk@.data, off as int + 8),
            value: rv,
        };
        proof {
            assert(spec_attrs(chunk@.data, off as int, remaining as int) == (match spec_attrs(
                chunk@.data,
                off as int + 12 + n,
                remaining as int - 1,
            ) {
                Some(rest) => Some(seq![raw] + rest),
                None => None::<Seq<RawAttrView>>,
            }));
            if all is Some {
                lemma_spec_attrs_len(chunk@.data, off as int, remaining as int);
                assert(all->Some_0[attrs@.len() as int] == raw);
            }
        }
        let a_ns_s = match resolve_optional(pool, a_ns) {
            Ok(o) => o,
            Err(_) => {
                proof {
                    if all is Some {
                        assert(!raw_attr_ok(all->Some_0[attrs@.len() as int], pool_strings));
                        assert(spec_attrs(chunk@.data, 20, le16_at(chunk@.data, 12) as int)
                            == all);
                        assert(!raw_attr_ok(
                            spec_attrs(
                                chunk@.data,
                                20,
                                le16_at(chunk@.data, 12) as int,
                            )->Some_0[attrs@.len() as int],
                            pool.strings(),
                        ));
                        assert(!start_ok(chunk@, pool.strings()));
                    }
                }
                return None;
            },
        };
        let a_name_s = match resolve(pool, a_name) {
            Ok(s) => s,
            Err(_) => {
                proof {
                    if all is Some {
                        assert(!raw_attr_ok(all->Some_0[attrs@.len() as int], pool_strings));
                        assert(spec_attrs(chunk@.data, 20, le16_at(chunk@.data, 12) as int)
                            == all);
                        assert(!raw_attr_ok(
                            spec_attrs(
                                chunk@.data,
                                20,
                                le16_at(chunk@.data, 12) as int,
                            )->Some_0[attrs@.len() as int],
                            pool.strings(),
                        ));
                        assert(!start_ok(chunk@, pool.strings()));
                    }
                }
                return None;
            },
        };
        let value = match TypedValue::from(rv, pool) {
            Ok(v) => v,
            Err(_) => {
                proof {
                    if all is Some {
                        assert(!raw_attr_ok(all->Some_0[attrs@.len() as int], pool_strings));
                        assert(spec_attrs(chunk@.data, 20, le16_at(chunk@.data, 12) as int)
                            == all);
                        assert(!raw_attr_ok(
                            spec_attrs(
                                chunk@.data,
                                20,
                                le16_at(chunk@.data, 12) as int,
                            )->Some_0[attrs@.len() as int],
                            pool.strings(),
                        ));
                        assert(!start_ok(chunk@, pool.strings()));
                    }
                }
                return None;
            },
        };
        let ghost prev = attrs@;
        attrs.push(Attribute { ns: a_ns_s, name: a_name_s, value });
        proof {
            if all is Some {
                assert(attr_matches(attrs@[prev.len() as int], raw, pool_strings));
                assert(raw_attr_ok(raw, pool_strings));
                assert(all->Some_0 =~= all->Some_0.take(attrs@.len() as int) + spec_attrs(
                    chunk@.data,
                    off as int + 12 + n,
                    remaining as int - 1,
                )->Some_0);
            }
        }
        off = off + 12 + n;
        remaining = remaining - 1;
        proof {
            if all is Some {
                assert(attrs@.drop_last() =~= prev);
                assert(attrs@.last() == attrs@[prev.len() as int]);
                assert(all->Some_0[attrs@.len() - 1] == raw);
                assert(attrs_all_match(attrs@, all->Some_0, pool_strings));
            }
        }
    }
    proof {
        assert(spec_attrs(chunk@.data, off as int, 0) == Some(Seq::<RawAttrView>::empty()));
        if all is Some {
            assert(all->Some_0 =~= all->Some_0.take(attrs@.len() as int));
            assert(all->Some_0.len() == attrs@.len());
            lemma_attrs_all_match(attrs@, all->Some_0, pool_strings);
        }
        assert(start_ok(chunk@, pool.strings()));
    }
    let attributes = if count > 0 {
        Some(attrs)
    } else {
        None
    };
    let result = ElementStart { line_number: line, comment: comment_s, ns, name, attributes };
    proof {
        assert(start_matches(result, chunk@, pool.strings()));
    }
    Some(result)
}

/// The event stream over a binary-XML document: the document's sub-chunks,
/// its string pool, and the position of the next node chunk.
pub struct XmlElementStream {
    pub chunks: Vec<Chunk>,
    pub string_pool: StringPool,
    pub index: usize,
}

impl XmlElementStream {
    /// Opens the stream: parses the document chunk, its sub-chunks and the
    /// leading string pool, and skips a resource-map chunk if one follows
    /// the pool.
    pub fn new(data: &[u8]) -> (r: Result<XmlElementStream, ParseError>)
        ensures
            r is Ok <==> spec_parse_chunk(data@, 0) is Some && spec_parse_chunks(
                spec_parse_chunk(data@, 0)->Some_0.0.data,
                0,
            ).len() > 0 && spec_pool_ok(
                spec_parse_chunks(spec_parse_chunk(data@, 0)->Some_0.0.data, 0)[0],
            ),
            match r {
                Ok(st) => {
                    &&& spec_parse_chunk(data@, 0) is Some
                    &&& st.chunks@.map_values(|c: Chunk| c@) == spec_parse_chunks(
                        spec_parse_chunk(data@, 0)->Some_0.0.data,
                        0,
                    )
                    &&& st.chunks@.len() > 0
                    &&& spec_pool_ok(st.chunks@[0]@)
                    &&& st.string_pool.pool@.len() == pool_string_count(st.chunks@[0]@)
                    &&& forall|i: int|
                        0 <= i < pool_string_count(st.chunks@[0]@)
                            ==> #[trigger] st.string_pool.strings()[i] == pool_string_at(
                            st.chunks@[0]@,
                            i,
                        )->Some_0
                    &&& st.index == (if st.chunks@.len() >= 2 && st.chunks@[1]@.typ == 0x180 {
                        2int
                    } else {
                        1int
                    })
                },
                Err(_) => true,
            },
    {
        let (root, _n) = match parse_chunk(data, 0) {
            Ok(v) => v,
            Err(e) => {
                return Err(e);
            },
        };
        let chunks = root.get_sub_chunks();
        if chunks.len() == 0 {
            return Err(ParseError::WrongChunkType);
        }
        let string_pool = match parse_string_pool_chunk(&chunks[0]) {
            Ok(p) => p,
            Err(e) => {
                return Err(e);
            },
        };
        let index: usize = if chunks.len() >= 2 && chunks[1].typ == 0x180 {
            2
        } else {
            1
        };
        Ok(XmlElementStream { chunks, string_pool, index })
    }

    /// Yields the next event, or `None` at the end of the document or on
    /// the first chunk that does not resolve to an event.
    pub fn next(&mut self) -> (r: Option<XmlEvent>)
        ensures
            final(self).chunks@ == old(self).chunks@,
            final(self).string_pool == old(self).string_pool,
            old(self).index >= old(self).chunks@.len() ==> r is None && final(self).index == old(
                self,
            ).index,
            old(self).index < old(self).chunks@.len() ==> {
                &&& final(self).index == old(self).index + 1
                &&& match r {
                    Some(e) => spec_event_ok(
                        old(self).chunks@[old(self).index as int]@,
                        old(self).string_pool.strings(),
                    ) && event_matches(
                        e,
                        old(self).chunks@[old(self).index as int]@,
                        old(self).string_pool.strings(),
                    ),
                    None => !spec_event_ok(
                        old(self).chunks@[old(self).index as int]@,
                        old(self).string_pool.strings(),
                    ),
                }
            },
    {
        if self.index >= self.chunks.len() {
            return None;
        }
        let i = self.index;
        self.index = i + 1;
        let chunk = &self.chunks[i];
        let meta = match chunk.get_additional_header() {
            Some(m) => m,
            None => {
                return None;
            },
        };
        let line = meta.line_number;
        let comment = meta.comment;
        if comment != ABSENT_STRING && !((comment as usize) < self.string_pool.len()) {
            return None;
        }
        match chunk.typ {
            0x100 => match make_namespace(chunk, &self.string_pool, line, comment) {
                Some(ns) => Some(XmlEvent::NamespaceStart(ns)),
                None => None,
            },
            0x101 => match make_namespace(chunk, &self.string_pool, line, comment) {
                Some(ns) => Some(XmlEvent::NamespaceEnd(ns)),
                None => None,
            },
            0x102 => match make_element_start(chunk, &self.string_pool, line, comment) {
                Some(e) => Some(XmlEvent::ElementStart(e)),
                None => None,
            },
            0x103 => match make_element_end(chunk, &self.string_pool, line, comment) {
                Some(e) => Some(XmlEvent::ElementEnd(e)),
                None => None,
            },
            0x104 => match make_cdata(chunk, &self.string_pool, line, comment) {
                Some(e) => Some(XmlEvent::CData(e)),
                None => None,
            },
            _ => None,
        }
    }
}

impl ElementStart {
    /// The number of attributes of the element.
    pub fn attribute_len(&self) -> (r: usize)
        ensures
            r == (match self.attributes {
                Some(attrs) => attrs@.len(),
                None => 0,
            }),
    {
        if let Some(ref attrs) = self.attributes {
            attrs.len()
        } else {
            0
        }
    }
}

} // verus!
