//! A DER walker just sufficient to reach a PKCS#7 signer certificate:
//! identifier and length triples, object identifiers, and element trees.

use vstd::prelude::*;

use crate::error::ParseError;

verus! {

/// The class of a DER tag, from bits 6-7 of the identifier byte.
#[derive(Debug, Clone, Copy, PartialEq, Eq, Structural)]
pub enum TagClass {
    Universal,
    Application,
    Context,
    Private,
}

/// Whether this octet ends a high-bit-continued series.
pub open spec fn spec_is_last_octet(octet: u8) -> bool {
    octet & 0x80 == 0x00
}

pub fn is_last_octet(octet: u8) -> (r: bool)
    ensures
        r == spec_is_last_octet(octet),
{
    octet & 0x80 == 0x00
}

/// The length of the base-128 series at `off`: the count of bytes up to
/// and including the first one with a clear high bit.
pub open spec fn spec_octet_series_len(s: Seq<u8>, off: int) -> Option<int>
    decreases s.len() - off,
{
    if off < 0 || off >= s.len() {
        None
    } else if spec_is_last_octet(s[off]) {
        Some(1)
    } else {
        match spec_octet_series_len(s, off + 1) {
            Some(n) => Some(n + 1),
            None => None,
        }
    }
}

/// Takes one high-bit-continued octet series: every byte up to and
/// including the first one with a clear high bit.  Returns the series and
/// the count of bytes consumed.
pub fn parse_octet_series(input: &[u8]) -> (r: Result<(Vec<u8>, usize), ParseError>)
    ensures
        match r {
            Ok((series, n)) => spec_octet_series_len(input@, 0) == Some(n as int) && series@
                == input@.subrange(0, n as int) && 1 <= n <= input@.len(),
            Err(_) => spec_octet_series_len(input@, 0) is None,
        },
{
    let len = input.len();
    let mut i: usize = 0;
    loop
        invariant
            len == input@.len(),
            0 <= i <= len,
            spec_octet_series_len(input@, 0) == (match spec_octet_series_len(input@, i as int) {
                Some(n) => Some(n + i),
                None => None::<int>,
            }),
        decreases len - i,
    {
        if i >= len {
            return Err(ParseError::InvalidData);
        }
        if is_last_octet(input[i]) {
            let series = crate::cursor::take_bytes(input, 0, i + 1);
            return Ok((series, i + 1));
        }
        i = i + 1;
    }
}

/// The value of one base-128 series: seven bits per byte, big-endian.
pub open spec fn spec_oid_part(s: Seq<u8>) -> int
    decreases s.len(),
{
    if s.len() == 0 {
        0
    } else {
        spec_oid_part(s.drop_last()) * 0x80 + (s.last() & 0x7f)
    }
}

/// The back-to-back octet series in `s` starting at `off`; stops at the
/// end or at a trailing incomplete series.
pub open spec fn spec_sub_ids(s: Seq<u8>, off: int) -> Seq<Seq<u8>>
    decreases s.len() - off,
{
    if 0 <= off < s.len() {
        match spec_octet_series_len(s, off) {
            Some(n) => if 1 <= n <= s.len() - off {
                seq![s.subrange(off, off + n)] + spec_sub_ids(s, off + n)
            } else {
                Seq::empty()
            },
            None => Seq::empty(),
        }
    } else {
        Seq::empty()
    }
}

/// The object-identifier components encoded by the sub-id series: the
/// first series carries two components (value / 40 and value % 40), each
/// further series one.
pub open spec fn spec_oid_values(ids: Seq<Seq<u8>>) -> Seq<int> {
    if ids.len() == 0 {
        Seq::empty()
    } else {
        seq![spec_oid_part(ids[0]) / 40, spec_oid_part(ids[0]) % 40] + ids.skip(1).map_values(
            |sub: Seq<u8>| spec_oid_part(sub),
        )
    }
}

proof fn lemma_octet_series_len_bounds(s: Seq<u8>, off: int)
    requires
        spec_octet_series_len(s, off) is Some,
    ensures
        1 <= spec_octet_series_len(s, off)->Some_0 <= s.len() - off,
    decreases s.len() - off,
{
    if !spec_is_last_octet(s[off]) {
        lemma_octet_series_len_bounds(s, off + 1);
    }
}

/// Decodes an object identifier.  Fails only when a component overflows
/// 32 bits; a trailing incomplete series is ignored, as the series walk
/// has it.
pub fn decode_object_identifier(data: &[u8]) -> (r: Result<Vec<u32>, ParseError>)
    ensures
        match r {
            Ok(parts) => {
                &&& parts@.map_values(|v: u32| v as int) == spec_oid_values(
                    spec_sub_ids(data@, 0),
                )
                &&& forall|i: int|
                    0 <= i < spec_sub_ids(data@, 0).len() ==> spec_oid_part(
                        #[trigger] spec_sub_ids(data@, 0)[i],
                    ) <= u32::MAX
            },
            Err(_) => exists|i: int|
                0 <= i < spec_sub_ids(data@, 0).len() && spec_oid_part(
                    #[trigger] spec_sub_ids(data@, 0)[i],
                ) > u32::MAX,
        },
{
    let len = data.len();
    let ghost all = spec_sub_ids(data@, 0);
    let mut parts: Vec<u32> = Vec::new();
    let mut off: usize = 0;
    let ghost mut seen: int = 0;
    loop
        invariant
            len == data@.len(),
            0 <= off <= len,
            0 <= seen <= all.len(),
            all == spec_sub_ids(data@, 0),
            spec_sub_ids(data@, off as int) == all.skip(seen),
            forall|i: int| 0 <= i < seen ==> spec_oid_part(#[trigger] all[i]) <= u32::MAX,
            parts@.map_values(|v: u32| v as int) == spec_oid_values(all.take(seen)),
            seen == 0 <==> parts@.len() == 0,
        decreases len - off,
    {
        if off >= len {
            proof {
                assert(all.skip(seen) =~= Seq::<Seq<u8>>::empty());
                assert(all.take(seen) =~= all);
            }
            return Ok(parts);
        }
        let sub = vstd::slice::slice_subrange(data, off, len);
        match parse_octet_series(sub) {
            Ok((series, n)) => {
                let ghost sv = series@;
                proof {
                    lemma_series_len_tail(data@, off as int);
                    assert(spec_octet_series_len(data@, off as int) == Some(n as int));
                    lemma_octet_series_len_bounds(data@, off as int);
                    assert(1 <= n as int <= data@.len() - off);
                    assert(sub@ == data@.subrange(off as int, len as int));
                    assert(sv =~= data@.subrange(off as int, off + n));
                    assert(spec_sub_ids(data@, off as int) == seq![data@.subrange(
                        off as int,
                        off + n,
                    )] + spec_sub_ids(data@, off + n));
                    assert(all.skip(seen).len() == all.len() - seen);
                    assert((seq![data@.subrange(off as int, off + n)] + spec_sub_ids(
                        data@,
                        off + n,
                    )).len() >= 1);
                    assert(seen < all.len());
                    assert(all.skip(seen)[0] == data@.subrange(off as int, off + n));
                    assert(all[seen] == all.skip(seen)[0]);
                    assert(all[seen] == sv);
                }
                let mut part: u64 = 0;
                let count = series.len();
                for j in 0..count
                    invariant
                        count == sv.len(),
                        series@ == sv,
                        part <= u32::MAX as u64 ==> part == spec_oid_part(sv.take(j as int)),
                        part > u32::MAX as u64 ==> spec_oid_part(sv) > u32::MAX,
                        part <= u64::MAX / 2,
                    decreases count - j,
                {
                    proof {
                        assert(sv.take(j + 1).drop_last() =~= sv.take(j as int));
                        assert(sv.take(j + 1).last() == sv[j as int]);
                        let b = sv[j as int];
                        assert((b & 0x7f) < 0x80) by (bit_vector);
                    }
                    if part > u32::MAX as u64 {
                        // already too large; keep it saturated above the cap
                        part = (u32::MAX as u64) + 1;
                    } else {
                        let ghost old_part = part as int;
                        part = part * 0x80 + (series[j] & 0x7f) as u64;
                        proof {
                            assert(part == spec_oid_part(sv.take(j + 1)));
                            if part > u32::MAX as u64 {
                                lemma_oid_part_prefix(sv, j + 1);
                            }
                        }
                    }
                }
                proof {
                    assert(sv.take(count as int) =~= sv);
                }
                if part > u32::MAX as u64 {
                    proof {
                        assert(spec_oid_part(all[seen]) > u32::MAX);
                        assert(0 <= seen < all.len());
                    }
                    return Err(ParseError::InvalidData);
                }
                let ghost prev_parts = parts@;
                if parts.len() == 0 {
                    let value = part as u32;
                    parts.push(value / 40);
                    parts.push(value % 40);
                } else {
                    parts.push(part as u32);
                }
                proof {
                    seen = seen + 1;
                    assert(all.take(seen).drop_last() =~= all.take(seen - 1));
                    assert(all.take(seen)[0] == all[0]);
                    lemma_oid_values_step(all, seen);
                    assert(parts@.map_values(|v: u32| v as int) =~= spec_oid_values(
                        all.take(seen),
                    ));
                    assert(all.skip(seen - 1).skip(1) =~= all.skip(seen));
                    assert(spec_sub_ids(data@, off + n) =~= all.skip(seen));
                }
                off = off + n;
            },
            Err(_) => {
                proof {
                    lemma_series_len_tail(data@, off as int);
                    assert(spec_sub_ids(data@, off as int) =~= Seq::<Seq<u8>>::empty());
                    assert(all.take(seen) =~= all);
                }
                return Ok(parts);
            },
        }
    }
}

proof fn lemma_series_len_tail(s: Seq<u8>, off: int)
    requires
        0 <= off <= s.len(),
    ensures
        spec_octet_series_len(s.subrange(off, s.len() as int), 0) == spec_octet_series_len(s, off),
    decreases s.len() - off,
{
    let tail = s.subrange(off, s.len() as int);
    if off < s.len() && !spec_is_last_octet(s[off]) {
        lemma_series_len_tail(s, off + 1);
        assert(s.subrange(off + 1, s.len() as int) =~= tail.subrange(1, tail.len() as int));
        lemma_series_len_tail(tail, 1);
    }
}

proof fn lemma_oid_part_prefix(s: Seq<u8>, j: int)
    requires
        0 <= j <= s.len(),
    ensures
        spec_oid_part(s.take(j)) <= spec_oid_part(s),
    decreases s.len() - j,
{
    if j < s.len() {
        lemma_oid_part_prefix(s, j + 1);
        assert(s.take(j + 1).drop_last() =~= s.take(j));
        assert(spec_oid_part(s.take(j)) >= 0) by {
            lemma_oid_part_nonneg(s.take(j));
        }
    } else {
        assert(s.take(j) =~= s);
    }
}

proof fn lemma_oid_part_nonneg(s: Seq<u8>)
    ensures
        spec_oid_part(s) >= 0,
    decreases s.len(),
{
    if s.len() > 0 {
        lemma_oid_part_nonneg(s.drop_last());
    }
}

proof fn lemma_oid_values_step(all: Seq<Seq<u8>>, seen: int)
    requires
        1 <= seen <= all.len(),
    ensures
        seen == 1 ==> spec_oid_values(all.take(1)) == seq![
            spec_oid_part(all[0]) / 40,
            spec_oid_part(all[0]) % 40,
        ],
        seen > 1 ==> spec_oid_values(all.take(seen)) == spec_oid_values(all.take(seen - 1)) + seq![
            spec_oid_part(all[seen - 1]),
        ],
{
    let pre = all.take(seen - 1);
    let now = all.take(seen);
    if seen == 1 {
        assert(now.skip(1) =~= Seq::<Seq<u8>>::empty());
        assert(spec_oid_values(now) =~= seq![
            spec_oid_part(all[0]) / 40,
            spec_oid_part(all[0]) % 40,
        ]);
    } else {
        assert(now[0] == all[0]);
        assert(pre[0] == all[0]);
        assert(now.skip(1).map_values(|sub: Seq<u8>| spec_oid_part(sub)) =~= pre.skip(
            1,
        ).map_values(|sub: Seq<u8>| spec_oid_part(sub)) + seq![spec_oid_part(all[seen - 1])]);
        assert(spec_oid_values(now) =~= spec_oid_values(pre) + seq![
            spec_oid_part(all[seen - 1]),
        ]);
    }
}

/// The identifier triple decoded at `off`: class, constructed flag, tag
/// number, and the count of bytes consumed.  A low-tag identifier is one
/// byte; a high-tag identifier continues in base-128 bytes, up to four.
pub open spec fn spec_parse_identifier(s: Seq<u8>, off: int) -> Option<
    ((TagClass, bool, u32), int),
> {
    if off + 1 > s.len() {
        None
    } else {
        let b = s[off];
        let cls = spec_tag_class(b);
        let constructed = b & 0x20 == 0x20;
        if b & 0x1f != 0x1f {
            Some(((cls, constructed, (b & 0x1f) as u32), 1))
        } else {
            match spec_octet_series_len(s, off + 1) {
                Some(n) => if n <= 4 && off + 1 + n <= s.len() {
                    Some(
                        (
                            (cls, constructed, spec_oid_part(s.subrange(off + 1, off + 1 + n)) as u32),
                            1 + n,
                        ),
                    )
                } else {
                    None
                },
                None => None,
            }
        }
    }
}

/// The tag class encoded in bits 6-7 of the identifier byte.
pub open spec fn spec_tag_class(b: u8) -> TagClass {
    let v = (b & 0xc0) / 0x40;
    if v == 0 {
        TagClass::Universal
    } else if v == 1 {
        TagClass::Application
    } else if v == 2 {
        TagClass::Context
    } else {
        TagClass::Private
    }
}

/// Parses a DER identifier octet (and any high-tag continuation bytes).
pub fn parse_identifier(input: &[u8]) -> (r: Result<((TagClass, bool, u32), usize), ParseError>)
    ensures
        match r {
            Ok((v, n)) => spec_parse_identifier(input@, 0) == Some((v, n as int)) && 1 <= n
                <= input@.len(),
            Err(_) => spec_parse_identifier(input@, 0) is None,
        },
{
    let len = input.len();
    if len < 1 {
        return Err(ParseError::InvalidData);
    }
    let b = input[0];
    let cls_bits = (b & 0xc0) / 0x40;
    proof {
        assert((b & 0xc0) / 0x40 < 4) by (bit_vector);
    }
    let tag_class = match cls_bits {
        0 => TagClass::Universal,
        1 => TagClass::Application,
        2 => TagClass::Context,
        _ => TagClass::Private,
    };
    let constructed = b & 0x20 == 0x20;
    if b & 0x1f != 0x1f {
        return Ok(((tag_class, constructed, (b & 0x1f) as u32), 1));
    }
    let tail = vstd::slice::slice_subrange(input, 1, len);
    match parse_octet_series(tail) {
        Ok((series, n)) => {
            proof {
                lemma_series_len_tail(input@, 1);
                assert(spec_octet_series_len(input@, 1) == Some(n as int));
            }
            if n > 4 {
                return Err(ParseError::InvalidData);
            }
            let ghost sv = series@;
            let mut part: u64 = 0;
            let count = series.len();
            proof {
                lemma_oid_part_fits(sv);
            }
            for j in 0..count
                invariant
                    count == sv.len(),
                    count <= 4,
                    series@ == sv,
                    part == spec_oid_part(sv.take(j as int)),
                decreases count - j,
            {
                proof {
                    assert(sv.take(j + 1).drop_last() =~= sv.take(j as int));
                    assert(sv.take(j + 1).last() == sv[j as int]);
                    assert(sv.take(j + 1).len() <= 4);
                    lemma_oid_part_fits(sv.take(j + 1));
                    let b = sv[j as int];
                    assert((b & 0x7f) < 0x80) by (bit_vector);
                }
                part = part * 0x80 + (series[j] & 0x7f) as u64;
            }
            proof {
                assert(sv.take(count as int) =~= sv);
                lemma_oid_part_fits(sv);
                assert(sv =~= input@.subrange(1, 1 + n as int));
            }
            let id = part as u32;
            Ok(((tag_class, constructed, id), 1 + n))
        },
        Err(_) => {
            proof {
                lemma_series_len_tail(input@, 1);
            }
            Err(ParseError::InvalidData)
        },
    }
}

/// 0x80 to the power `n`.
spec fn pow80(n: nat) -> int
    decreases n,
{
    if n == 0 {
        1
    } else {
        0x80 * pow80((n - 1) as nat)
    }
}

proof fn lemma_oid_part_bound(s: Seq<u8>)
    ensures
        0 <= spec_oid_part(s) < pow80(s.len()),
    decreases s.len(),
{
    if s.len() > 0 {
        lemma_oid_part_bound(s.drop_last());
        assert(spec_oid_part(s) == spec_oid_part(s.drop_last()) * 0x80 + (s.last() & 0x7f));
        let b = s.last();
        assert((b & 0x7f) < 0x80) by (bit_vector);
    }
}

/// A series of at most four bytes fits 28 bits.
proof fn lemma_oid_part_fits(s: Seq<u8>)
    requires
        s.len() <= 4,
    ensures
        spec_oid_part(s) < 0x10000000,
        spec_oid_part(s) >= 0,
{
    lemma_oid_part_bound(s);
    assert(pow80(0) == 1);
    assert(pow80(1) == 0x80);
    assert(pow80(2) == 0x4000);
    assert(pow80(3) == 0x200000);
    assert(pow80(4) == 0x10000000);
}

/// The definite-form length decoded at `off`, and the count of bytes it
/// consumes.  Short form below 0x80; long form `0x80 | n` followed by `n`
/// big-endian bytes, at most eight.
pub open spec fn spec_parse_length(s: Seq<u8>, off: int) -> Option<(int, int)> {
    if off + 1 > s.len() {
        None
    } else if s[off] & 0x80 != 0x80 {
        Some(((s[off] & 0x7f) as int, 1))
    } else {
        let n = (s[off] & 0x7f) as int;
        if n <= 8 && off + 1 + n <= s.len() {
            Some((spec_be_value(s.subrange(off + 1, off + 1 + n)), 1 + n))
        } else {
            None
        }
    }
}

/// The big-endian value of a byte sequence.
pub open spec fn spec_be_value(s: Seq<u8>) -> int
    decreases s.len(),
{
    if s.len() == 0 {
        0
    } else {
        spec_be_value(s.drop_last()) * 0x100 + s.last()
    }
}

/// 0x100 to the power `n`.
spec fn pow256(n: nat) -> int
    decreases n,
{
    if n == 0 {
        1
    } else {
        0x100 * pow256((n - 1) as nat)
    }
}

proof fn lemma_be_value_bound(s: Seq<u8>)
    ensures
        0 <= spec_be_value(s) < pow256(s.len()),
    decreases s.len(),
{
    if s.len() > 0 {
        lemma_be_value_bound(s.drop_last());
        assert(spec_be_value(s) == spec_be_value(s.drop_last()) * 0x100 + s.last());
    }
}

/// Eight big-endian bytes fit an unsigned 64-bit value.
proof fn lemma_be_value_fits(s: Seq<u8>)
    requires
        s.len() <= 8,
    ensures
        0 <= spec_be_value(s) < 0x10000000000000000,
{
    lemma_be_value_bound(s);
    assert(pow256(0) == 1);
    assert(pow256(1) == 0x100);
    assert(pow256(2) == 0x10000);
    assert(pow256(3) == 0x1000000);
    assert(pow256(4) == 0x100000000);
    assert(pow256(5) == 0x10000000000);
    assert(pow256(6) == 0x1000000000000);
    assert(pow256(7) == 0x100000000000000);
    assert(pow256(8) == 0x10000000000000000);
}

/// Parses a definite-form DER length.
pub fn parse_length(input: &[u8]) -> (r: Result<(u64, usize), ParseError>)
    ensures
        match r {
            Ok((v, n)) => spec_parse_length(input@, 0) == Some((v as int, n as int)) && 1 <= n
                <= input@.len(),
            Err(_) => spec_parse_length(input@, 0) is None,
        },
{
    let len = input.len();
    if len < 1 {
        return Err(ParseError::InvalidData);
    }
    let b = input[0];
    if b & 0x80 != 0x80 {
        return Ok(((b & 0x7f) as u64, 1));
    }
    let n = (b & 0x7f) as usize;
    if n > 8 || len - 1 < n {
        return Err(ParseError::InvalidData);
    }
    let ghost bytes = input@.subrange(1, 1 + n as int);
    proof {
        lemma_be_value_fits(bytes);
    }
    let mut value: u64 = 0;
    for j in 0..n
        invariant
            n <= 8,
            1 + n <= input@.len(),
            bytes == input@.subrange(1, 1 + n as int),
            value == spec_be_value(bytes.take(j as int)),
        decreases n - j,
    {
        proof {
            assert(bytes.take(j + 1).drop_last() =~= bytes.take(j as int));
            assert(bytes.take(j + 1).last() == bytes[j as int]);
            assert(bytes.take(j + 1).len() <= 8);
            lemma_be_value_fits(bytes.take(j + 1));
            assert(bytes[j as int] == input@[1 + j]);
        }
        value = value * 0x100 + input[1 + j] as u64;
    }
    proof {
        assert(bytes.take(n as int) =~= bytes);
    }
    Ok((value, 1 + n))
}

/// One decoded DER element: its tag triple and its value bytes.
pub struct DataElement {
    pub tag_class: TagClass,
    pub constructed: bool,
    pub id: u32,
    pub data: Vec<u8>,
}

/// The mathematical content of a DER element.
pub ghost struct DataElementView {
    pub tag_class: TagClass,
    pub constructed: bool,
    pub id: u32,
    pub data: Seq<u8>,
}

impl View for DataElement {
    type V = DataElementView;

    open spec fn view(&self) -> DataElementView {
        DataElementView {
            tag_class: self.tag_class,
            constructed: self.constructed,
            id: self.id,
            data: self.data@,
        }
    }
}

/// The DER element at `off`: identifier, length, then that many value
/// bytes; and the count of bytes consumed.
pub open spec fn spec_parse_data_element(s: Seq<u8>, off: int) -> Option<(DataElementView, int)> {
    let tail = s.subrange(off, s.len() as int);
    match spec_parse_identifier(tail, 0) {
        Some(((cls, constructed, id), n1)) => match spec_parse_length(tail, n1) {
            Some((length, n2)) => if n1 + n2 + length <= tail.len() {
                Some(
                    (
                        DataElementView {
                            tag_class: cls,
                            constructed,
                            id,
                            data: tail.subrange(n1 + n2, n1 + n2 + length),
                        },
                        n1 + n2 + length,
                    ),
                )
            } else {
                None
            },
            None => None,
        },
        None => None,
    }
}

/// Parses the DER element at `off` in `s`.
pub fn parse_data_element(s: &[u8], off: usize) -> (r: Result<(DataElement, usize), ParseError>)
    requires
        off <= s@.len(),
    ensures
        match r {
            Ok((e, n)) => spec_parse_data_element(s@, off as int) == Some((e@, n as int)) && off
                + n <= s@.len() && n >= 2,
            Err(_) => spec_parse_data_element(s@, off as int) is None,
        },
{
    let len = s.len();
    let tail = vstd::slice::slice_subrange(s, off, len);
    let ((tag_class, constructed, id), n1) = match parse_identifier(tail) {
        Ok(v) => v,
        Err(e) => {
            return Err(e);
        },
    };
    let tail2 = vstd::slice::slice_subrange(tail, n1, tail.len());
    let (length, n2) = match parse_length(tail2) {
        Ok(v) => v,
        Err(e) => {
            proof {
                lemma_length_shift(tail@, n1 as int);
            }
            return Err(e);
        },
    };
    proof {
        lemma_length_shift(tail@, n1 as int);
    }
    let tail_len = tail.len();
    if length > (tail_len - n1 - n2) as u64 {
        return Err(ParseError::InvalidData);
    }
    let start = n1 + n2;
    let data = crate::cursor::take_bytes(tail, start, length as usize);
    Ok((DataElement { tag_class, constructed, id, data }, n1 + n2 + length as usize))
}

/// Parsing a length within the tail equals parsing it at the shifted
/// offset.
proof fn lemma_length_shift(s: Seq<u8>, off: int)
    requires
        0 <= off <= s.len(),
    ensures
        spec_parse_length(s.subrange(off, s.len() as int), 0) == spec_parse_length(s, off),
{
    let tail = s.subrange(off, s.len() as int);
    if off < s.len() {
        assert(tail[0] == s[off]);
        if s[off] & 0x80 == 0x80 {
            let n = (s[off] & 0x7f) as int;
            if n <= 8 && off + 1 + n <= s.len() {
                assert(tail.subrange(1, 1 + n) =~= s.subrange(off + 1, off + 1 + n));
            }
        }
    }
}

/// The elements parsed back to back from `off`, stopping at the first
/// failure or at the end.
pub open spec fn spec_parse_data_elements(s: Seq<u8>, off: int) -> Seq<DataElementView>
    decreases s.len() - off,
{
    if 0 <= off < s.len() {
        match spec_parse_data_element(s, off) {
            Some((e, n)) => if n > 0 {
                seq![e] + spec_parse_data_elements(s, off + n)
            } else {
                Seq::empty()
            },
            None => Seq::empty(),
        }
    } else {
        Seq::empty()
    }
}

/// Parses DER elements back to back until the bytes end or an element is
/// malformed.
pub fn parse_data_elements(s: &[u8]) -> (r: Vec<DataElement>)
    ensures
        r@.map_values(|e: DataElement| e@) == spec_parse_data_elements(s@, 0),
{
    let len = s.len();
    let mut result: Vec<DataElement> = Vec::new();
    let mut off: usize = 0;
    loop
        invariant
            len == s@.len(),
            0 <= off <= len,
            spec_parse_data_elements(s@, 0) == result@.map_values(|e: DataElement| e@)
                + spec_parse_data_elements(s@, off as int),
        decreases len - off,
    {
        if off >= len {
            proof {
                assert(spec_parse_data_elements(s@, off as int) =~= Seq::<DataElementView>::empty());
                assert(result@.map_values(|e: DataElement| e@) + Seq::<DataElementView>::empty()
                    =~= result@.map_values(|e: DataElement| e@));
            }
            return result;
        }
        match parse_data_element(s, off) {
            Ok((e, n)) => {
                proof {
                    assert(spec_parse_data_elements(s@, off as int) =~= seq![e@]
                        + spec_parse_data_elements(s@, off + n));
                }
                let ghost prev = result@;
                result.push(e);
                proof {
                    assert(result@.map_values(|x: DataElement| x@) =~= prev.map_values(
                        |x: DataElement| x@,
                    ) + seq![result@[prev.len() as int]@]);
                }
                off = off + n;
            },
            Err(_) => {
                proof {
                    assert(spec_parse_data_elements(s@, off as int) =~= Seq::<
                        DataElementView,
                    >::empty());
                    assert(result@.map_values(|e: DataElement| e@) + Seq::<
                        DataElementView,
                    >::empty() =~= result@.map_values(|e: DataElement| e@));
                }
                return result;
            },
        }
    }
}

impl DataElement {
    /// The children of a constructed element: the elements framed inside
    /// its value bytes.
    pub fn parse_data(&self) -> (r: Vec<DataElement>)
        ensures
            r@.map_values(|e: DataElement| e@) == spec_parse_data_elements(self.data@, 0),
    {
        parse_data_elements(self.data.as_slice())
    }

    /// The element's value bytes.
    pub fn data(&self) -> (r: &Vec<u8>)
        ensures
            r@ == self.data@,
    {
        &self.data
    }
}

} // verus!
