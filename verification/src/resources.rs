//! The resource table: per-type collections of per-configuration entry
//! arrays, with lookups by 32-bit resource identifier.

use vstd::prelude::*;

use crate::chunk::{Chunk, parse_chunk, spec_parse_chunk, spec_parse_chunks};
use crate::config::{Configuration, parse_resource_table_config, spec_config_at, spec_config_ok, CONFIG_BYTES};
use crate::cursor::{le16_at, le32_at, read_le_u16, read_le_u32, read_u8};
use crate::error::ParseError;
use crate::stringpool::{
    ABSENT_STRING, StringPool, parse_string_pool_chunk, spec_pool_ok, pool_string_count,
    pool_string_at, utf8_lossy, utf8_lossy_of, utf16_lossy, utf16_lossy_of,
};
use crate::typedvalue::{ResourceValue, parse_res_value, spec_parse_res_value};

verus! {

/// The position of the first zero unit, or the length if none.
pub open spec fn spec_first_zero16(s: Seq<u16>, i: int) -> int
    decreases s.len() - i,
{
    if i < 0 || i >= s.len() {
        s.len() as int
    } else if s[i] == 0 {
        i
    } else {
        spec_first_zero16(s, i + 1)
    }
}

/// The position of the first zero byte, or the length if none.
pub open spec fn spec_first_zero8(s: Seq<u8>, i: int) -> int
    decreases s.len() - i,
{
    if i < 0 || i >= s.len() {
        s.len() as int
    } else if s[i] == 0 {
        i
    } else {
        spec_first_zero8(s, i + 1)
    }
}

fn first_zero16(data: &[u16]) -> (r: usize)
    ensures
        r == spec_first_zero16(data@, 0),
        r <= data@.len(),
{
    let len = data.len();
    for i in 0..len
        invariant
            len == data@.len(),
            spec_first_zero16(data@, 0) == spec_first_zero16(data@, i as int),
            forall|k: int| 0 <= k < i ==> data@[k] != 0,
    {
        if data[i] == 0 {
            return i;
        }
    }
    len
}

fn first_zero8(data: &[u8]) -> (r: usize)
    ensures
        r == spec_first_zero8(data@, 0),
        r <= data@.len(),
{
    let len = data.len();
    for i in 0..len
        invariant
            len == data@.len(),
            spec_first_zero8(data@, 0) == spec_first_zero8(data@, i as int),
            forall|k: int| 0 <= k < i ==> data@[k] != 0,
    {
        if data[i] == 0 {
            return i;
        }
    }
    len
}

/// Decodes the units before the first zero, lossily as UTF-16.
pub fn convert_zero_terminated_u16(data: &[u16]) -> (r: String)
    ensures
        r@ == utf16_lossy_of(data@.take(spec_first_zero16(data@, 0))),
{
    let zpos = first_zero16(data);
    let prefix = vstd::slice::slice_subrange(data, 0, zpos);
    proof {
        assert(prefix@ =~= data@.take(zpos as int));
    }
    utf16_lossy(prefix)
}

/// Decodes the bytes before the first zero, lossily as UTF-8.
pub fn convert_zero_terminated_u8(data: &[u8]) -> (r: String)
    ensures
        r@ == utf8_lossy_of(data@.take(spec_first_zero8(data@, 0))),
{
    let zpos = first_zero8(data);
    let prefix = vstd::slice::slice_subrange(data, 0, zpos);
    proof {
        assert(prefix@ =~= data@.take(zpos as int));
    }
    utf8_lossy(prefix)
}

/// The header of a package chunk.
pub struct PackageChunkHeader {
    pub id: u32,
    pub name: String,
    pub type_strings_offset: u32,
    pub last_public_type: u32,
    pub key_strings_offset: u32,
    pub last_public_key: u32,
}

/// Parses a package chunk's additional header: the package id, its name as
/// 128 zero-terminated UTF-16 units, and the string-pool offsets.
pub fn parse_package_chunk_header(s: &[u8]) -> (r: Result<PackageChunkHeader, ParseError>)
    ensures
        match r {
            Ok(h) => {
                &&& s@.len() >= 276
                &&& h.id == le32_at(s@, 0)
                &&& h.type_strings_offset == le32_at(s@, 260)
                &&& h.last_public_type == le32_at(s@, 264)
                &&& h.key_strings_offset == le32_at(s@, 268)
                &&& h.last_public_key == le32_at(s@, 272)
            },
            Err(_) => s@.len() < 276,
        },
{
    let len = s.len();
    if len < 276 {
        return Err(ParseError::InvalidData);
    }
    let id = read_le_u32(s, 0);
    let mut name_units: Vec<u16> = Vec::new();
    for i in 0..128usize
        invariant
            s@.len() >= 276,
            name_units@.len() == i,
    {
        name_units.push(read_le_u16(s, 4 + 2 * i));
    }
    let name = convert_zero_terminated_u16(name_units.as_slice());
    Ok(
        PackageChunkHeader {
            id,
            name,
            type_strings_offset: read_le_u32(s, 260),
            last_public_type: read_le_u32(s, 264),
            key_strings_offset: read_le_u32(s, 268),
            last_public_key: read_le_u32(s, 272),
        },
    )
}

/// One name/value pair of a complex entry.
#[derive(Debug, Clone, Copy, PartialEq, Eq, Structural)]
pub struct ResourceTableMapping {
    pub name: u32,
    pub value: ResourceValue,
}

/// The payload of a complex entry: a parent reference and its mappings.
#[derive(Debug, PartialEq, Eq)]
pub struct ResourceTableMapEntry {
    pub parent: u32,
    pub count: u32,
    pub mappings: Vec<ResourceTableMapping>,
}

/// An entry's payload: one typed value, or a complex map.
#[derive(Debug, PartialEq, Eq)]
pub enum EntryData {
    Simple(ResourceValue),
    Complex(ResourceTableMapEntry),
}

/// One resource entry: its flags, its key (an index into the key pool) and
/// its payload.  Flag bit 0 marks a complex entry.
#[derive(Debug, PartialEq, Eq)]
pub struct Entry {
    pub flags: u16,
    pub key: u32,
    pub data: EntryData,
}

impl Clone for ResourceTableMapEntry {
    fn clone(&self) -> (r: Self)
        ensures
            r.parent == self.parent,
            r.count == self.count,
            r.mappings@ == self.mappings@,
    {
        let n = self.mappings.len();
        let mut mappings: Vec<ResourceTableMapping> = Vec::new();
        for i in 0..n
            invariant
                n == self.mappings@.len(),
                mappings@ =~= self.mappings@.take(i as int),
        {
            mappings.push(self.mappings[i]);
        }
        proof {
            assert(mappings@ =~= self.mappings@);
        }
        ResourceTableMapEntry { parent: self.parent, count: self.count, mappings }
    }
}

impl Clone for Entry {
    fn clone(&self) -> (r: Self)
        ensures
            r@ == self@,
            r.key == self.key,
            r.flags == self.flags,
    {
        let data = match &self.data {
            EntryData::Simple(v) => EntryData::Simple(*v),
            EntryData::Complex(m) => EntryData::Complex(m.clone()),
        };
        Entry { flags: self.flags, key: self.key, data }
    }
}

impl Entry {
    /// Whether flag bit 0 marks the entry as complex.
    pub fn is_complex(&self) -> (r: bool)
        ensures
            r == (self.flags & 0x0001 == 1),
    {
        self.flags & 0x0001 == 1
    }
}

/// The ghost form of an entry.
pub ghost struct EntryView {
    pub flags: u16,
    pub key: u32,
    pub simple: Option<ResourceValue>,
    pub parent: u32,
    pub mappings: Seq<ResourceTableMapping>,
}

impl View for Entry {
    type V = EntryView;

    open spec fn view(&self) -> EntryView {
        match self.data {
            EntryData::Simple(v) => EntryView {
                flags: self.flags,
                key: self.key,
                simple: Some(v),
                parent: 0,
                mappings: Seq::empty(),
            },
            EntryData::Complex(m) => EntryView {
                flags: self.flags,
                key: self.key,
                simple: None,
                parent: m.parent,
                mappings: m.mappings@,
            },
        }
    }
}

/// The `count` mappings at `off`: each a 32-bit name and a value cell.
pub open spec fn spec_parse_mappings(s: Seq<u8>, off: int, count: int) -> Option<
    (Seq<ResourceTableMapping>, int),
>
    decreases count,
{
    if count <= 0 {
        Some((Seq::empty(), off))
    } else if off + 4 <= s.len() {
        match spec_parse_res_value(s, off + 4) {
            Some((rv, n)) => match spec_parse_mappings(s, off + 4 + n, count - 1) {
                Some((rest, end)) => Some(
                    (seq![ResourceTableMapping { name: le32_at(s, off), value: rv }] + rest, end),
                ),
                None => None,
            },
            None => None,
        }
    } else {
        None
    }
}

/// The entry at `off`: 8 fixed bytes, then a single value cell, or (when
/// flag bit 0 is set) a parent, a count and that many mappings.
pub open spec fn spec_parse_entry(s: Seq<u8>, off: int) -> Option<EntryView> {
    if off + 8 <= s.len() {
        let flags = le16_at(s, off + 2);
        let key = le32_at(s, off + 4);
        if flags & 0x0001 == 1 {
            if off + 16 <= s.len() {
                let parent = le32_at(s, off + 8);
                let count = le32_at(s, off + 12);
                match spec_parse_mappings(s, off + 16, count as int) {
                    Some((mappings, _)) => Some(
                        EntryView { flags, key, simple: None, parent, mappings },
                    ),
                    None => None,
                }
            } else {
                None
            }
        } else {
            match spec_parse_res_value(s, off + 8) {
                Some((rv, _)) => Some(
                    EntryView { flags, key, simple: Some(rv), parent: 0, mappings: Seq::empty() },
                ),
                None => None,
            }
        }
    } else {
        None
    }
}

/// Parses one entry at `off`.
#[verifier::loop_isolation(false)]
pub fn parse_entry(s: &[u8], off: usize) -> (r: Result<Entry, ParseError>)
    ensures
        match r {
            Ok(e) => spec_parse_entry(s@, off as int) == Some(e@),
            Err(_) => spec_parse_entry(s@, off as int) is None,
        },
{
    let len = s.len();
    if off > len || len - off < 8 {
        return Err(ParseError::MalformedChunk);
    }
    let flags = read_le_u16(s, off + 2);
    let key = read_le_u32(s, off + 4);
    if flags & 0x0001 == 1 {
        if len - off < 16 {
            return Err(ParseError::MalformedChunk);
        }
        let parent = read_le_u32(s, off + 8);
        let count = read_le_u32(s, off + 12);
        let ghost all = spec_parse_mappings(s@, off as int + 16, count as int);
        let mut mappings: Vec<ResourceTableMapping> = Vec::new();
        let mut at: usize = off + 16;
        let mut remaining: u32 = count;
        while remaining > 0
            invariant
                off + 16 <= at <= len,
                remaining <= count,
                all is None ==> spec_parse_mappings(s@, at as int, remaining as int) is None,
                all is Some ==> {
                    &&& spec_parse_mappings(s@, at as int, remaining as int) is Some
                    &&& all->Some_0.0 =~= mappings@ + spec_parse_mappings(
                        s@,
                        at as int,
                        remaining as int,
                    )->Some_0.0
                },
            decreases remaining,
        {
            if len - at < 4 {
                proof {
                    assert(spec_parse_mappings(s@, at as int, remaining as int) is None);
                }
                return Err(ParseError::MalformedChunk);
            }
            let name = read_le_u32(s, at);
            let (rv, n) = match parse_res_value(s, at + 4) {
                Ok(v) => v,
                Err(_) => {
                    proof {
                        assert(spec_parse_mappings(s@, at as int, remaining as int) is None);
                    }
                    return Err(ParseError::MalformedChunk);
                },
            };
            let ghost prev = mappings@;
            mappings.push(ResourceTableMapping { name, value: rv });
            proof {
                if all is Some {
                    assert(all->Some_0.0 =~= mappings@ + spec_parse_mappings(
                        s@,
                        at as int + 4 + n,
                        remaining as int - 1,
                    )->Some_0.0);
                }
            }
            at = at + 4 + n;
            remaining = remaining - 1;
        }
        proof {
            assert(spec_parse_mappings(s@, at as int, 0) == Some(
                (Seq::<ResourceTableMapping>::empty(), at as int),
            ));
            assert(all->Some_0.0 =~= mappings@);
        }
        Ok(Entry { flags, key, data: EntryData::Complex(ResourceTableMapEntry { parent, count, mappings }) })
    } else {
        let (rv, _n) = match parse_res_value(s, off + 8) {
            Ok(v) => v,
            Err(_) => {
                return Err(ParseError::MalformedChunk);
            },
        };
        Ok(Entry { flags, key, data: EntryData::Simple(rv) })
    }
}

/// The entry slot `i` of a type chunk body: the offset word at `4 * i`,
/// where the sentinel means "absent" and any other offset indexes the
/// entry region after the offset array.
pub open spec fn spec_type_entry(s: Seq<u8>, count: int, i: int) -> Option<Option<EntryView>> {
    let o = le32_at(s, 4 * i);
    if o == ABSENT_STRING {
        Some(None)
    } else {
        match spec_parse_entry(s.skip(4 * count), o as int) {
            Some(e) => Some(Some(e)),
            None => None,
        }
    }
}

/// A type chunk body parses: the offset array fits and every present
/// entry decodes.
pub open spec fn spec_type_body_ok(s: Seq<u8>, count: int) -> bool {
    &&& 4 * count <= s.len()
    &&& forall|i: int| 0 <= i < count ==> (#[trigger] spec_type_entry(s, count, i)) is Some
}

/// Parses a type chunk body: `entry_count` offset words, then the entry
/// records they point at.
pub fn parse_resource_table_type_body(input: &[u8], entry_count: u32) -> (r: Result<
    Vec<Option<Entry>>,
    ParseError,
>)
    ensures
        match r {
            Ok(v) => {
                &&& spec_type_body_ok(input@, entry_count as int)
                &&& v@.len() == entry_count
                &&& forall|i: int|
                    0 <= i < entry_count ==> (match #[trigger] v@[i] {
                        Some(e) => spec_type_entry(input@, entry_count as int, i) == Some(
                            Some(e@),
                        ),
                        None => spec_type_entry(input@, entry_count as int, i) == Some(
                            None::<EntryView>,
                        ),
                    })
            },
            Err(_) => !spec_type_body_ok(input@, entry_count as int),
        },
{
    let len = input.len();
    if 4 * (entry_count as u64) > len as u64 {
        return Err(ParseError::MalformedChunk);
    }
    let offsets_end = (4 * entry_count as u64) as usize;
    let rest = vstd::slice::slice_subrange(input, offsets_end, len);
    proof {
        assert(rest@ =~= input@.skip(4 * (entry_count as int)));
    }
    let mut entries: Vec<Option<Entry>> = Vec::new();
    let n = entry_count as usize;
    for i in 0..n
        invariant
            n == entry_count,
            len == input@.len(),
            4 * (entry_count as int) <= len,
            rest@ == input@.skip(4 * (entry_count as int)),
            entries@.len() == i,
            forall|k: int|
                0 <= k < i ==> (#[trigger] spec_type_entry(input@, entry_count as int, k))
                    is Some,
            forall|k: int|
                0 <= k < i ==> (match #[trigger] entries@[k] {
                    Some(e) => spec_type_entry(input@, entry_count as int, k) == Some(Some(e@)),
                    None => spec_type_entry(input@, entry_count as int, k) == Some(
                        None::<EntryView>,
                    ),
                }),
    {
        proof {
            assert(4 * (i as int) + 4 <= 4 * (entry_count as int));
        }
        let offset = read_le_u32(input, 4 * i);
        if offset != ABSENT_STRING {
            match parse_entry(rest, offset as usize) {
                Ok(e) => {
                    entries.push(Some(e));
                },
                Err(_) => {
                    proof {
                        assert(spec_type_entry(input@, entry_count as int, i as int) is None);
                    }
                    return Err(ParseError::MalformedChunk);
                },
            }
        } else {
            entries.push(None);
        }
    }
    Ok(entries)
}

/// One configuration's entry array.
pub struct ResourceData {
    pub config: Configuration,
    pub values: Vec<Option<Entry>>,
}

/// All the entry arrays of one resource type, one per configuration.
pub struct ResourceType {
    pub id: u8,
    pub data: Vec<ResourceData>,
}

/// The ghost model of one configuration's entry array: its configuration
/// and its entry slots.
pub open spec fn resource_data_model(d: ResourceData) -> (Configuration, Seq<Option<EntryView>>) {
    (
        d.config,
        d.values@.map_values(
            |o: Option<Entry>| match o {
                Some(e) => Some(e@),
                None => None::<EntryView>,
            },
        ),
    )
}

/// The ghost model of one resource type: its id and its per-configuration
/// entry arrays.
pub open spec fn resource_type_model(t: ResourceType) -> (
    u8,
    Seq<(Configuration, Seq<Option<EntryView>>)>,
) {
    (t.id, t.data@.map_values(|d: ResourceData| resource_data_model(d)))
}

/// The ghost model of the whole per-type collection.
pub open spec fn types_model(ts: Seq<ResourceType>) -> Seq<
    (u8, Seq<(Configuration, Seq<Option<EntryView>>)>),
> {
    ts.map_values(|t: ResourceType| resource_type_model(t))
}

/// Appending one configuration's array to the collection: the first type
/// of the same id receives it, unless the lengths disagree, in which case
/// it is dropped; an unseen id starts a new type at the end.
pub open spec fn spec_add(
    types: Seq<(u8, Seq<(Configuration, Seq<Option<EntryView>>)>)>,
    id: u8,
    rd: (Configuration, Seq<Option<EntryView>>),
) -> Seq<(u8, Seq<(Configuration, Seq<Option<EntryView>>)>)>
    decreases types.len(),
{
    if types.len() == 0 {
        seq![(id, seq![rd])]
    } else if types[0].0 == id {
        let t = types[0];
        let updated = if t.1.len() == 0 || t.1[0].1.len() == rd.1.len() {
            (t.0, t.1.push(rd))
        } else {
            t
        };
        seq![updated] + types.skip(1)
    } else {
        seq![types[0]] + spec_add(types.skip(1), id, rd)
    }
}

impl ResourceType {
    /// Every configuration's entry array has the same length: the type's
    /// declared entry count.
    pub open spec fn wf(&self) -> bool {
        forall|j: int|
            0 <= j < self.data@.len() ==> (#[trigger] self.data@[j].values)@.len()
                == self.data@[0].values@.len()
    }
}

/// The parsed resource table: the per-type entry collections and the three
/// string pools.
pub struct Resources {
    pub device_config: Option<Configuration>,
    pub resource_types: Vec<ResourceType>,
    pub values: StringPool,
    pub keys: StringPool,
    pub types: StringPool,
}

/// The type id packed in bits 16-23 of a resource id.
pub open spec fn spec_type_id_of(id: u32) -> u32 {
    (id >> 16) & 0xff
}

/// The entry index packed in the low 16 bits of a resource id.
pub open spec fn spec_entry_index_of(id: u32) -> u32 {
    id & 0xffff
}

fn get_resource_type_from_id(id: u32) -> (r: u8)
    ensures
        r == spec_type_id_of(id),
{
    proof {
        assert((id >> 16) & 0xff <= 0xff) by (bit_vector);
    }
    ((id >> 16) & 0xff) as u8
}

/// Adding skips past every type whose id differs: the collection keeps
/// its prefix and the addition lands in the rest.
proof fn lemma_spec_add_skip(
    types: Seq<(u8, Seq<(Configuration, Seq<Option<EntryView>>)>)>,
    i: int,
    id: u8,
    rd: (Configuration, Seq<Option<EntryView>>),
)
    requires
        0 <= i <= types.len(),
        forall|k: int| 0 <= k < i ==> (#[trigger] types[k]).0 != id,
    ensures
        spec_add(types, id, rd) =~= types.take(i) + spec_add(types.skip(i), id, rd),
    decreases i,
{
    if i == 0 {
        assert(types.take(0) =~= Seq::<(u8, Seq<(Configuration, Seq<Option<EntryView>>)>)>::empty());
        assert(types.skip(0) =~= types);
    } else {
        assert(types[0].0 != id);
        lemma_spec_add_skip(types.skip(1), i - 1, id, rd);
        assert(types.skip(1).take(i - 1) =~= types.take(i).skip(1));
        assert(types.skip(1).skip(i - 1) =~= types.skip(i));
        assert(seq![types[0]] + (types.take(i).skip(1) + spec_add(types.skip(i), id, rd))
            =~= types.take(i) + spec_add(types.skip(i), id, rd));
    }
}

impl Resources {
    /// Every resource type keeps arrays of one length.
    pub open spec fn wf(&self) -> bool {
        forall|t: int|
            0 <= t < self.resource_types@.len() ==> (#[trigger] self.resource_types@[t]).wf()
    }

    /// The position of the first resource type whose id matches the id's
    /// type byte, searched from `from`.
    pub open spec fn spec_type_index_from(&self, id: u32, from: int) -> Option<int>
        decreases self.resource_types@.len() - from,
    {
        if from < 0 || from >= self.resource_types@.len() {
            None
        } else if self.resource_types@[from].id == spec_type_id_of(id) {
            Some(from)
        } else {
            self.spec_type_index_from(id, from + 1)
        }
    }

    /// The position of the resource type addressed by the id.
    pub open spec fn spec_type_index(&self, id: u32) -> Option<int> {
        self.spec_type_index_from(id, 0)
    }

    /// Appends one configuration's entry array to its type's collection,
    /// creating the type on first sight.  An array whose length differs
    /// from the type's established one is dropped, which keeps the table
    /// well formed.
    fn add_resource_data(&mut self, resource_type_id: u8, data: ResourceData)
        requires
            old(self).wf(),
        ensures
            final(self).wf(),
            final(self).values == old(self).values,
            final(self).keys == old(self).keys,
            final(self).types == old(self).types,
            final(self).device_config == old(self).device_config,
            types_model(final(self).resource_types@) == spec_add(
                types_model(old(self).resource_types@),
                resource_type_id,
                resource_data_model(data),
            ),
    {
        let ghost old_model = types_model(old(self).resource_types@);
        let ghost rd_model = resource_data_model(data);
        let n = self.resource_types.len();
        let mut i: usize = 0;
        while i < n
            invariant
                self == old(self),
                old(self).wf(),
                n == self.resource_types@.len(),
                i <= n,
                old_model == types_model(self.resource_types@),
                rd_model == resource_data_model(data),
                forall|k: int|
                    0 <= k < i ==> (#[trigger] self.resource_types@[k]).id != resource_type_id,
            decreases n - i,
        {
            if self.resource_types[i].id == resource_type_id {
                proof {
                    assert(forall|k: int| 0 <= k < i ==> (#[trigger] old_model[k]).0
                        != resource_type_id);
                    lemma_spec_add_skip(old_model, i as int, resource_type_id, rd_model);
                    assert(old_model.skip(i as int)[0] == old_model[i as int]);
                }
                let existing = &self.resource_types[i];
                let fits = existing.data.len() == 0 || existing.data[0].values.len()
                    == data.values.len();
                if fits {
                    let ghost old_types = self.resource_types@;
                    let ghost old_rt = self.resource_types@[i as int];
                    let slot = &mut self.resource_types[i];
                    let ghost prevd = slot.data@;
                    slot.data.push(data);
                    proof {
                        let new_rt = self.resource_types@[i as int];
                        assert(new_rt.data@ == prevd.push(new_rt.data@.last()));
                        assert(old_rt.wf());
                        assert forall|j: int|
                            0 <= j < new_rt.data@.len() implies (#[trigger] new_rt.data@[j].values)@.len()
                            == new_rt.data@[0].values@.len() by {
                            if j < prevd.len() {
                                assert(new_rt.data@[j] == prevd[j]);
                            }
                            if prevd.len() > 0 {
                                assert(new_rt.data@[0] == prevd[0]);
                            }
                        }
                        assert(new_rt.wf());
                        assert forall|t: int|
                            0 <= t < self.resource_types@.len() implies (
                        #[trigger] self.resource_types@[t]).wf() by {
                            if t != i {
                                assert(self.resource_types@[t] == old_types[t]);
                            }
                        }
                        // the model of the updated slot is the old model with
                        // this array appended
                        assert(resource_type_model(new_rt).1 =~= resource_type_model(
                            old_rt,
                        ).1.push(rd_model));
                        assert(resource_type_model(new_rt) == (
                            resource_type_model(old_rt).0,
                            resource_type_model(old_rt).1.push(rd_model),
                        ));
                        assert(old_model[i as int].1.len() == 0 || old_model[i as int].1[0].1.len()
                            == rd_model.1.len()) by {
                            if prevd.len() > 0 {
                                assert(old_model[i as int].1[0] == resource_data_model(prevd[0]));
                            }
                        }
                        assert(spec_add(old_model.skip(i as int), resource_type_id, rd_model)
                            =~= seq![resource_type_model(new_rt)] + old_model.skip(i as int).skip(
                            1,
                        ));
                        assert(old_model.skip(i as int).skip(1) =~= old_model.skip(i as int + 1));
                        assert(types_model(self.resource_types@) =~= old_model.take(i as int)
                            + seq![resource_type_model(new_rt)] + old_model.skip(i as int + 1));
                        assert(types_model(self.resource_types@) =~= spec_add(
                            old_model,
                            resource_type_id,
                            rd_model,
                        ));
                    }
                } else {
                    proof {
                        assert(old_model[i as int].1.len() > 0 && old_model[i as int].1[0].1.len()
                            != rd_model.1.len()) by {
                            assert(old_model[i as int].1[0] == resource_data_model(
                                self.resource_types@[i as int].data@[0],
                            ));
                        }
                        assert(spec_add(old_model.skip(i as int), resource_type_id, rd_model)
                            =~= seq![old_model[i as int]] + old_model.skip(i as int).skip(1));
                        assert(old_model.skip(i as int).skip(1) =~= old_model.skip(i as int + 1));
                        assert(old_model.take(i as int) + seq![old_model[i as int]]
                            + old_model.skip(i as int + 1) =~= old_model);
                        assert(types_model(self.resource_types@) =~= spec_add(
                            old_model,
                            resource_type_id,
                            rd_model,
                        ));
                    }
                }
                return ;
            }
            i = i + 1;
        }
        let mut resource_type = ResourceType { id: resource_type_id, data: Vec::new() };
        resource_type.data.push(data);
        let ghost new_rt_model = resource_type_model(resource_type);
        proof {
            assert(new_rt_model.1 =~= seq![rd_model]);
        }
        let ghost prev = self.resource_types@;
        self.resource_types.push(resource_type);
        proof {
            assert forall|t: int|
                0 <= t < self.resource_types@.len() implies (#[trigger] self.resource_types@[t]).wf() by {
                if t < prev.len() {
                    assert(self.resource_types@[t] == prev[t]);
                } else {
                    assert(self.resource_types@[t].data@.len() == 1);
                }
            }
            assert(forall|k: int| 0 <= k < old_model.len() ==> (#[trigger] old_model[k]).0
                != resource_type_id);
            lemma_spec_add_skip(old_model, old_model.len() as int, resource_type_id, rd_model);
            assert(old_model.skip(old_model.len() as int) =~= Seq::<
                (u8, Seq<(Configuration, Seq<Option<EntryView>>)>),
            >::empty());
            assert(old_model.take(old_model.len() as int) =~= old_model);
            assert(types_model(self.resource_types@) =~= old_model.push(new_rt_model));
            assert(old_model.push(new_rt_model) =~= old_model + seq![new_rt_model]);
            assert(types_model(self.resource_types@) =~= spec_add(
                old_model,
                resource_type_id,
                rd_model,
            ));
        }
    }

}


/// The first package chunk (type code 0x200) at or after `from`.
pub open spec fn spec_first_package(chunks: Seq<crate::chunk::ChunkView>, from: int) -> Option<int>
    decreases chunks.len() - from,
{
    if from < 0 || from >= chunks.len() {
        None
    } else if chunks[from].typ == 0x200 {
        Some(from)
    } else {
        spec_first_package(chunks, from + 1)
    }
}

/// Whether a resource-table document parses: a root chunk declaring one
/// package, a leading values pool, and, if a package chunk is present, a
/// full package header and its two leading pools.
pub open spec fn spec_table_ok(data: Seq<u8>) -> bool {
    &&& spec_parse_chunk(data, 0) is Some
    &&& {
        let root = spec_parse_chunk(data, 0)->Some_0.0;
        let chunks = spec_parse_chunks(root.data, 0);
        &&& root.additional_header.len() >= 4
        &&& le32_at(root.additional_header, 0) == 1
        &&& chunks.len() >= 1
        &&& spec_pool_ok(chunks[0])
        &&& match spec_first_package(chunks, 0) {
            Some(p) => {
                let pchunks = spec_parse_chunks(chunks[p].data, 0);
                &&& chunks[p].additional_header.len() >= 276
                &&& pchunks.len() >= 2
                &&& spec_pool_ok(pchunks[0])
                &&& spec_pool_ok(pchunks[1])
            },
            None => true,
        }
    }
}

/// What one package sub-chunk contributes to the table: a decoded type
/// chunk's id, configuration and entry array, or nothing for any other or
/// malformed chunk.
pub open spec fn spec_type_chunk(c: crate::chunk::ChunkView) -> Option<
    (u8, (Configuration, Seq<Option<EntryView>>)),
> {
    let count = le32_at(c.additional_header, 4) as int;
    if c.typ == 0x201 && c.additional_header.len() >= 12 + CONFIG_BYTES && spec_config_ok(
        c.additional_header,
        12,
    ) && spec_type_body_ok(c.data, count) {
        Some(
            (
                c.additional_header[0],
                (
                    spec_config_at(c.additional_header, 12),
                    Seq::new(count as nat, |i: int| spec_type_entry(c.data, count, i)->Some_0),
                ),
            ),
        )
    } else {
        None
    }
}

/// The per-type collection built from the first `i` package sub-chunks:
/// each decoded type chunk appends its array to its type, and every other
/// chunk is skipped.
pub open spec fn spec_build_types(chunks: Seq<crate::chunk::ChunkView>, i: int) -> Seq<
    (u8, Seq<(Configuration, Seq<Option<EntryView>>)>),
>
    decreases i,
{
    if i <= 0 {
        Seq::empty()
    } else {
        let prev = spec_build_types(chunks, i - 1);
        match spec_type_chunk(chunks[i - 1]) {
            Some((id, rd)) => spec_add(prev, id, rd),
            None => prev,
        }
    }
}

/// A string pool holds exactly the strings of a well-formed pool chunk.
pub open spec fn pool_matches(p: &StringPool, c: crate::chunk::ChunkView) -> bool {
    &&& p.pool@.len() == pool_string_count(c)
    &&& forall|i: int|
        0 <= i < pool_string_count(c) ==> #[trigger] p.strings()[i] == pool_string_at(c, i)->Some_0
}

/// Parses a resource table document.  Succeeds exactly on documents whose
/// framing, declared package count and string pools are well formed; the
/// result is `None` when no package chunk is present.  Type chunks that do
/// not decode are skipped, so the table is well formed either way.
#[verifier::rlimit(100)]
#[verifier::loop_isolation(false)]
pub fn parse_resource_table(data: &[u8]) -> (r: Result<Option<Resources>, ParseError>)
    ensures
        r is Ok <==> spec_table_ok(data@),
        match r {
            Ok(opt) => {
                let root = spec_parse_chunk(data@, 0)->Some_0.0;
                let chunks = spec_parse_chunks(root.data, 0);
                match opt {
                    Some(res) => {
                        &&& spec_first_package(chunks, 0) is Some
                        &&& res.wf()
                        &&& res.device_config is None
                        &&& pool_matches(&res.values, chunks[0])
                        &&& {
                            let pchunks = spec_parse_chunks(
                                chunks[spec_first_package(chunks, 0)->Some_0].data,
                                0,
                            );
                            &&& pool_matches(&res.types, pchunks[0])
                            &&& pool_matches(&res.keys, pchunks[1])
                            &&& types_model(res.resource_types@) == spec_build_types(
                                pchunks,
                                pchunks.len() as int,
                            )
                        }
                    },
                    None => spec_first_package(chunks, 0) is None,
                }
            },
            Err(_) => true,
        },
{
    let (root, _n) = match parse_chunk(data, 0) {
        Ok(v) => v,
        Err(e) => {
            return Err(e);
        },
    };
    let ah = root.additional_header.as_slice();
    if ah.len() < 4 {
        return Err(ParseError::MalformedChunk);
    }
    let num_packages = read_le_u32(ah, 0);
    if num_packages != 1 {
        return Err(ParseError::InvalidData);
    }
    let chunks = root.get_sub_chunks();
    if chunks.len() == 0 {
        return Err(ParseError::MalformedChunk);
    }
    let strings = match parse_string_pool_chunk(&chunks[0]) {
        Ok(p) => p,
        Err(e) => {
            return Err(e);
        },
    };
    let ghost chunk_views = chunks@.map_values(|c: Chunk| c@);
    let n = chunks.len();
    let mut pi: usize = 0;
    while pi < n
        invariant
            n == chunks@.len(),
            pi <= n,
            spec_first_package(chunk_views, 0) == spec_first_package(chunk_views, pi as int),
        decreases n - pi,
    {
        if chunks[pi].typ == 0x200 {
            break ;
        }
        pi = pi + 1;
    }
    if pi >= n {
        proof {
            assert(spec_first_package(chunk_views, pi as int) is None);
        }
        return Ok(None);
    }
    proof {
        assert(spec_first_package(chunk_views, 0) == Some(pi as int));
    }
    let package = &chunks[pi];
    let _pch = match parse_package_chunk_header(package.additional_header.as_slice()) {
        Ok(h) => h,
        Err(e) => {
            return Err(e);
        },
    };
    let package_chunks = package.get_sub_chunks();
    if package_chunks.len() < 2 {
        return Err(ParseError::MalformedChunk);
    }
    let type_strings = match parse_string_pool_chunk(&package_chunks[0]) {
        Ok(p) => p,
        Err(e) => {
            return Err(e);
        },
    };
    let key_strings = match parse_string_pool_chunk(&package_chunks[1]) {
        Ok(p) => p,
        Err(e) => {
            return Err(e);
        },
    };
    let mut resources = Resources {
        device_config: None,
        resource_types: Vec::new(),
        values: strings,
        keys: key_strings,
        types: type_strings,
    };
    let ghost pviews = package_chunks@.map_values(|c: Chunk| c@);
    let pn = package_chunks.len();
    for ci in 0..pn
        invariant
            pn == package_chunks@.len(),
            pviews == package_chunks@.map_values(|c: Chunk| c@),
            resources.wf(),
            resources.device_config is None,
            pool_matches(&resources.values, chunk_views[0]),
            pool_matches(&resources.types, pviews[0]),
            pool_matches(&resources.keys, pviews[1]),
            types_model(resources.resource_types@) == spec_build_types(pviews, ci as int),
    {
        let sub_chunk = &package_chunks[ci];
        proof {
            assert(pviews[ci as int] == sub_chunk@);
        }
        if sub_chunk.typ == 0x201 {
            let tah = sub_chunk.additional_header.as_slice();
            if tah.len() >= 12 + CONFIG_BYTES {
                let type_id = read_u8(tah, 0);
                let entry_count = read_le_u32(tah, 4);
                match parse_resource_table_config(tah, 12) {
                    Ok(config) => {
                        match parse_resource_table_type_body(
                            sub_chunk.data.as_slice(),
                            entry_count,
                        ) {
                            Ok(entries) => {
                                let ghost entries_view = entries@;
                                let rd = ResourceData { config, values: entries };
                                proof {
                                    assert(spec_type_chunk(sub_chunk@) is Some);
                                    assert(resource_data_model(rd).1 =~= Seq::new(
                                        entry_count as nat,
                                        |i: int| spec_type_entry(
                                            sub_chunk@.data,
                                            entry_count as int,
                                            i,
                                        )->Some_0,
                                    ));
                                    assert(resource_data_model(rd) == spec_type_chunk(
                                        sub_chunk@,
                                    )->Some_0.1);
                                    assert(type_id == spec_type_chunk(sub_chunk@)->Some_0.0);
                                }
                                resources.add_resource_data(type_id, rd);
                                proof {
                                    assert(types_model(resources.resource_types@)
                                        == spec_build_types(pviews, ci + 1));
                                }
                            },
                            Err(_) => {
                                proof {
                                    assert(spec_type_chunk(sub_chunk@) is None);
                                }
                            },
                        }
                    },
                    Err(_) => {
                        proof {
                            assert(spec_type_chunk(sub_chunk@) is None);
                        }
                    },
                }
            } else {
                proof {
                    assert(spec_type_chunk(sub_chunk@) is None);
                }
            }
        } else {
            proof {
                assert(spec_type_chunk(sub_chunk@) is None);
            }
        }
    }
    Ok(Some(resources))
}

/// For a well-formed table, every configuration of a resource type holds
/// exactly as many entry slots as the type's first configuration: the
/// entry count the type was declared with.
pub proof fn lemma_entry_arrays_uniform(res: &Resources, t: int, j: int)
    requires
        res.wf(),
        0 <= t < res.resource_types@.len(),
        0 <= j < res.resource_types@[t].data@.len(),
    ensures
        res.resource_types@[t].data@[j].values@.len()
            == res.resource_types@[t].data@[0].values@.len(),
{
}

/// The first configuration position at or after `from` whose entry array
/// covers `idx` and holds an entry there.
pub open spec fn spec_first_present(t: ResourceType, idx: int, from: int) -> Option<int>
    decreases t.data@.len() - from,
{
    if from < 0 || from >= t.data@.len() {
        None
    } else if 0 <= idx < t.data@[from].values@.len() && t.data@[from].values@[idx] is Some {
        Some(from)
    } else {
        spec_first_present(t, idx, from + 1)
    }
}

impl Resources {
    /// The key name of the id: the key-pool string named by the first
    /// present entry across configurations, or `None` when the id's type
    /// or entry is absent or the key does not resolve.
    pub open spec fn spec_get_key_name(&self, id: u32) -> Option<Seq<char>> {
        match self.spec_type_index(id) {
            Some(ti) => {
                let t = self.resource_types@[ti];
                let idx = spec_entry_index_of(id) as int;
                match spec_first_present(t, idx, 0) {
                    Some(j) => {
                        let e = t.data@[j].values@[idx]->Some_0;
                        if e.key != ABSENT_STRING && e.key < self.keys.strings().len() {
                            Some(self.keys.strings()[e.key as int])
                        } else {
                            None
                        }
                    },
                    None => None,
                }
            },
            None => None,
        }
    }

    fn get_resource_type_by_id(&self, id: u32) -> (r: Option<&ResourceType>)
        ensures
            match r {
                Some(t) => self.spec_type_index(id) is Some && *t
                    == self.resource_types@[self.spec_type_index(id)->Some_0],
                None => self.spec_type_index(id) is None,
            },
    {
        let res_type_id = get_resource_type_from_id(id);
        let n = self.resource_types.len();
        let mut i: usize = 0;
        while i < n
            invariant
                n == self.resource_types@.len(),
                i <= n,
                res_type_id == spec_type_id_of(id),
                self.spec_type_index(id) == self.spec_type_index_from(id, i as int),
            decreases n - i,
        {
            if self.resource_types[i].id == res_type_id {
                return Some(&self.resource_types[i]);
            }
            i = i + 1;
        }
        None
    }

    /// The name of the id's resource type: the type-pool string at the
    /// type byte minus one, or `None` when it is out of range.
    pub fn get_resource_type(&self, id: u32) -> (r: Option<String>)
        ensures
            match r {
                Some(s) => spec_type_id_of(id) >= 1 && spec_type_id_of(id) - 1
                    < self.types.strings().len() && s@ == self.types.strings()[spec_type_id_of(
                    id,
                ) - 1],
                None => spec_type_id_of(id) == 0 || spec_type_id_of(id) - 1
                    >= self.types.strings().len(),
            },
    {
        let type_id = get_resource_type_from_id(id);
        if type_id == 0 {
            return None;
        }
        let type_index = (type_id - 1) as u32;
        if (type_index as usize) < self.types.len() {
            Some(self.types.get(type_index))
        } else {
            None
        }
    }

    /// Looks the id's key name up, as `spec_get_key_name` has it.
    pub fn get_key_name(&self, id: u32) -> (r: Option<String>)
        ensures
            r is Some <==> self.spec_get_key_name(id) is Some,
            r is Some ==> r->Some_0@ == self.spec_get_key_name(id)->Some_0,
    {
        let index = (id & 0xffff) as usize;
        proof {
            assert(id & 0xffff <= 0xffff) by (bit_vector);
        }
        let t = match self.get_resource_type_by_id(id) {
            Some(t) => t,
            None => {
                return None;
            },
        };
        let n = t.data.len();
        let mut j: usize = 0;
        while j < n
            invariant
                n == t.data@.len(),
                j <= n,
                index == spec_entry_index_of(id),
                self.spec_type_index(id) is Some,
                *t == self.resource_types@[self.spec_type_index(id)->Some_0],
                spec_first_present(*t, index as int, 0) == spec_first_present(
                    *t,
                    index as int,
                    j as int,
                ),
            decreases n - j,
        {
            if index < t.data[j].values.len() {
                if let Some(entry) = &t.data[j].values[index] {
                    let key = entry.key;
                    proof {
                        assert(spec_first_present(*t, index as int, 0) == Some(j as int));
                    }
                    if key != ABSENT_STRING && (key as usize) < self.keys.len() {
                        return Some(self.keys.get(key));
                    } else {
                        return None;
                    }
                }
            }
            j = j + 1;
        }
        None
    }
}

/// The present entries of a type at `idx`, with their configurations, in
/// configuration order, starting at `from`.
pub open spec fn spec_present_entries(t: ResourceType, idx: int, from: int) -> Seq<
    (Configuration, EntryView),
>
    decreases t.data@.len() - from,
{
    if from < 0 || from >= t.data@.len() {
        Seq::empty()
    } else {
        let head: Seq<(Configuration, EntryView)> = if 0 <= idx < t.data@[from].values@.len()
            && t.data@[from].values@[idx] is Some {
            seq![(t.data@[from].config, t.data@[from].values@[idx]->Some_0@)]
        } else {
            Seq::empty()
        };
        head + spec_present_entries(t, idx, from + 1)
    }
}

/// The string values among a list of present entries: each simple entry of
/// string type whose value index is inside the values pool.
pub open spec fn spec_string_values(
    entries: Seq<(Configuration, EntryView)>,
    pool: Seq<Seq<char>>,
) -> Seq<(Configuration, Seq<char>)>
    decreases entries.len(),
{
    if entries.len() == 0 {
        Seq::empty()
    } else {
        let head: Seq<(Configuration, Seq<char>)> = match entries[0].1.simple {
            Some(rv) => if rv.typ == 0x03 && rv.value < pool.len() {
                seq![(entries[0].0, pool[rv.value as int])]
            } else {
                Seq::empty()
            },
            None => Seq::empty(),
        };
        head + spec_string_values(entries.skip(1), pool)
    }
}

impl Resources {
    fn get_entry_by_id_all_configs(&self, id: u32) -> (r: Option<Vec<(Configuration, Entry)>>)
        ensures
            match r {
                Some(v) => self.spec_type_index(id) is Some && v@.map_values(
                    |p: (Configuration, Entry)| (p.0, p.1@),
                ) == spec_present_entries(
                    self.resource_types@[self.spec_type_index(id)->Some_0],
                    spec_entry_index_of(id) as int,
                    0,
                ),
                None => self.spec_type_index(id) is None,
            },
    {
        let index = (id & 0xffff) as usize;
        proof {
            assert(id & 0xffff <= 0xffff) by (bit_vector);
        }
        let t = match self.get_resource_type_by_id(id) {
            Some(t) => t,
            None => {
                return None;
            },
        };
        let n = t.data.len();
        let mut result: Vec<(Configuration, Entry)> = Vec::new();
        let mut j: usize = 0;
        while j < n
            invariant
                n == t.data@.len(),
                j <= n,
                index == spec_entry_index_of(id),
                self.spec_type_index(id) is Some,
                *t == self.resource_types@[self.spec_type_index(id)->Some_0],
                spec_present_entries(*t, index as int, 0) =~= result@.map_values(
                    |p: (Configuration, Entry)| (p.0, p.1@),
                ) + spec_present_entries(*t, index as int, j as int),
            decreases n - j,
        {
            if index < t.data[j].values.len() {
                if let Some(entry) = &t.data[j].values[index] {
                    let ghost prev = result@;
                    result.push((t.data[j].config, entry.clone()));
                    proof {
                        assert(result@.map_values(|p: (Configuration, Entry)| (p.0, p.1@))
                            =~= prev.map_values(|p: (Configuration, Entry)| (p.0, p.1@)) + seq![
                            (
                                t.data@[j as int].config,
                                t.data@[j as int].values@[index as int]->Some_0@,
                            ),
                        ]);
                    }
                }
            }
            j = j + 1;
        }
        proof {
            assert(spec_present_entries(*t, index as int, n as int) =~= Seq::<
                (Configuration, EntryView),
            >::empty());
            assert(result@.map_values(|p: (Configuration, Entry)| (p.0, p.1@))
                =~= spec_present_entries(*t, index as int, 0));
        }
        Some(result)
    }

    /// All string values of the id, one per configuration whose entry is a
    /// present string entry, in configuration order.
    pub fn get_string_by_id_all_configs(&self, id: u32) -> (r: Option<
        Vec<(Configuration, String)>,
    >)
        ensures
            match r {
                Some(v) => {
                    &&& self.spec_type_index(id) is Some
                    &&& {
                        let expected = spec_string_values(
                            spec_present_entries(
                                self.resource_types@[self.spec_type_index(id)->Some_0],
                                spec_entry_index_of(id) as int,
                                0,
                            ),
                            self.values.strings(),
                        );
                        &&& v@.len() == expected.len()
                        &&& forall|k: int|
                            0 <= k < expected.len() ==> (#[trigger] v@[k]).0 == expected[k].0
                                && v@[k].1@ == expected[k].1
                    }
                },
                None => self.spec_type_index(id) is None,
            },
    {
        let entries = match self.get_entry_by_id_all_configs(id) {
            Some(v) => v,
            None => {
                return None;
            },
        };
        let ghost all = entries@.map_values(|p: (Configuration, Entry)| (p.0, p.1@));
        let ghost pool = self.values.strings();
        let mut result: Vec<(Configuration, String)> = Vec::new();
        let n = entries.len();
        let mut j: usize = 0;
        while j < n
            invariant
                n == all.len(),
                entries@.map_values(|p: (Configuration, Entry)| (p.0, p.1@)) == all,
                j <= n,
                pool == self.values.strings(),
                ({
                    let expected = spec_string_values(all.take(j as int), pool);
                    &&& result@.len() == expected.len()
                    &&& forall|k: int|
                        0 <= k < expected.len() ==> (#[trigger] result@[k]).0 == expected[k].0
                            && result@[k].1@ == expected[k].1
                }),
            decreases n - j,
        {
            proof {
                lemma_string_values_step(all, pool, j as int);
            }
            let pair = &entries[j];
            proof {
                assert(all[j as int] == (pair.0, pair.1@));
            }
            match &pair.1.data {
                EntryData::Simple(rv) => {
                    if rv.typ == 0x03 && (rv.value as usize) < self.values.len() {
                        let s = self.values.get(rv.value);
                        result.push((pair.0, s));
                    }
                },
                EntryData::Complex(_) => {},
            }
            j = j + 1;
        }
        proof {
            assert(all.take(n as int) =~= all);
        }
        Some(result)
    }

    /// A single-configuration string lookup is not offered yet: the
    /// per-configuration values are exposed whole instead.
    pub fn get_string_by_id(&self, id: u32) -> (r: Option<String>)
        ensures
            r is None,
    {
        None
    }
}

/// One step of the string-value filter: the values of the first `j + 1`
/// entries are the values of the first `j` plus the head of the rest.
proof fn lemma_string_values_step(
    entries: Seq<(Configuration, EntryView)>,
    pool: Seq<Seq<char>>,
    j: int,
)
    requires
        0 <= j < entries.len(),
    ensures
        spec_string_values(entries.take(j + 1), pool) =~= spec_string_values(
            entries.take(j),
            pool,
        ) + (match entries[j].1.simple {
            Some(rv) => if rv.typ == 0x03 && rv.value < pool.len() {
                seq![(entries[j].0, pool[rv.value as int])]
            } else {
                Seq::empty()
            },
            None => Seq::empty(),
        }),
    decreases j,
{
    if j == 0 {
        assert(entries.take(1).skip(1) =~= Seq::<(Configuration, EntryView)>::empty());
        assert(entries.take(0) =~= Seq::<(Configuration, EntryView)>::empty());
        assert(entries.take(1)[0] == entries[0]);
    } else {
        lemma_string_values_step(entries.skip(1), pool, j - 1);
        assert(entries.take(j + 1)[0] == entries[0]);
        assert(entries.take(j)[0] == entries[0]);
        assert(entries.take(j + 1).skip(1) =~= entries.skip(1).take(j));
        assert(entries.take(j).skip(1) =~= entries.skip(1).take(j - 1));
        assert(entries.skip(1)[j - 1] == entries[j]);
    }
}

/// The first present configuration is found whenever any configuration is
/// present.
proof fn lemma_first_present_finds(t: ResourceType, idx: int, from: int, j: int)
    requires
        from <= j < t.data@.len(),
        0 <= from,
        0 <= idx < t.data@[j].values@.len(),
        t.data@[j].values@[idx] is Some,
    ensures
        spec_first_present(t, idx, from) is Some,
        from <= spec_first_present(t, idx, from)->Some_0 <= j,
        ({
            let j0 = spec_first_present(t, idx, from)->Some_0;
            0 <= idx < t.data@[j0].values@.len() && t.data@[j0].values@[idx] is Some
        }),
    decreases j - from,
{
    if !(0 <= idx < t.data@[from].values@.len() && t.data@[from].values@[idx] is Some) {
        lemma_first_present_finds(t, idx, from + 1, j);
    }
}

/// For an id that is present under some configuration, the key name is the
/// same whichever present configuration is consulted, provided every
/// present entry at that index carries the same key, as valid tables do.
pub proof fn lemma_key_name_config_independent(res: &Resources, id: u32, j: int)
    requires
        res.wf(),
        res.spec_type_index(id) is Some,
        ({
            let t = res.resource_types@[res.spec_type_index(id)->Some_0];
            let idx = spec_entry_index_of(id) as int;
            &&& 0 <= j < t.data@.len()
            &&& idx < t.data@[j].values@.len()
            &&& t.data@[j].values@[idx] is Some
            &&& forall|a: int, b: int|
                (0 <= a < t.data@.len() && 0 <= b < t.data@.len() && idx < t.data@[a].values@.len()
                    && idx < t.data@[b].values@.len() && (#[trigger] t.data@[a].values@[idx])
                    is Some && (#[trigger] t.data@[b].values@[idx]) is Some)
                    ==> t.data@[a].values@[idx]->Some_0.key == t.data@[b].values@[idx]->Some_0.key
        }),
    ensures
        ({
            let t = res.resource_types@[res.spec_type_index(id)->Some_0];
            let idx = spec_entry_index_of(id) as int;
            let key = t.data@[j].values@[idx]->Some_0.key;
            res.spec_get_key_name(id) == (if key != ABSENT_STRING && key
                < res.keys.strings().len() {
                Some(res.keys.strings()[key as int])
            } else {
                None::<Seq<char>>
            })
        }),
{
    let t = res.resource_types@[res.spec_type_index(id)->Some_0];
    let idx = spec_entry_index_of(id) as int;
    lemma_first_present_finds(t, idx, 0, j);
    let j0 = spec_first_present(t, idx, 0)->Some_0;
    assert(t.data@[j0].values@[idx]->Some_0.key == t.data@[j].values@[idx]->Some_0.key);
}

} // verus!
