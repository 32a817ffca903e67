//! The ZIP central-directory reader: finds the end-of-central-directory
//! record in the trailing window, walks the central directory, and hands
//! out each member's bytes (stored, or inflated through the DEFLATE
//! decoder).

use vstd::prelude::*;

use crate::cursor::{le16_at, le32_at, read_le_u16, read_le_u32, take_bytes};
use crate::stringpool::{utf8_lossy, utf8_lossy_of};

verus! {

#[derive(Debug, Clone, Copy, PartialEq, Eq, Structural)]
pub enum ZipError {
    /// The end-of-central-directory signature is missing from the trailing
    /// window.
    CentralDirectoryNotFound,
    /// A ZIP member uses a compression method other than Store or Deflate.
    UnsupportedCompression(u16),
    /// A declared range runs outside the archive, a signature is wrong, or
    /// the compressed stream does not decode.
    InvalidData,
}

/// The known compression methods.
#[derive(Debug, Clone, Copy, PartialEq, Eq, Structural)]
pub enum Compression {
    Store,
    Deflate,
    Bzip2,
    LZMA,
}

impl Compression {
    /// Decodes a compression-method code; the methods outside the known
    /// set give `None`.
    pub open spec fn spec_from(c: u16) -> Option<Compression> {
        if c == 0 {
            Some(Compression::Store)
        } else if c == 8 {
            Some(Compression::Deflate)
        } else if c == 12 {
            Some(Compression::Bzip2)
        } else if c == 14 {
            Some(Compression::LZMA)
        } else {
            None
        }
    }

    pub fn from(c: u16) -> (r: Option<Compression>)
        ensures
            r == Compression::spec_from(c),
    {
        match c {
            0 => Some(Compression::Store),
            8 => Some(Compression::Deflate),
            12 => Some(Compression::Bzip2),
            14 => Some(Compression::LZMA),
            _ => None,
        }
    }
}

/// What the DEFLATE decoder yields on a byte stream, or `None` where the
/// stream does not decode.  The result is a function of the bytes alone.
pub uninterp spec fn inflate_of(data: Seq<u8>) -> Option<Seq<u8>>;

/// Relies on `flate2::read::DeflateDecoder`: reading it to the end yields
/// the decoded stream, or an error on malformed input; the outcome depends
/// on the input bytes alone.
#[verifier::external_body]
fn inflate(data: &[u8]) -> (r: Option<Vec<u8>>)
    ensures
        match r {
            Some(v) => inflate_of(data@) == Some(v@),
            None => inflate_of(data@) is None,
        },
{
    let mut out: Vec<u8> = Vec::new();
    let mut decoder = flate2::read::DeflateDecoder::new(data);
    match std::io::Read::read_to_end(&mut decoder, &mut out) {
        Ok(_) => Some(out),
        Err(_) => None,
    }
}

/// One central-directory file header.
pub struct CentralDirectoryFileHeader {
    pub general_purpose_flags: u16,
    pub compression_method: u16,
    pub crc32: u32,
    pub compressed_size: u32,
    pub uncompressed_size: u32,
    pub relative_offset_of_local_header: u32,
    pub file_name: Vec<u8>,
    pub extra_field: Vec<u8>,
}

/// The mathematical content of a central-directory file header.
pub ghost struct CdfhView {
    pub general_purpose_flags: u16,
    pub compression_method: u16,
    pub crc32: u32,
    pub compressed_size: u32,
    pub uncompressed_size: u32,
    pub relative_offset_of_local_header: u32,
    pub file_name: Seq<u8>,
    pub extra_field: Seq<u8>,
}

impl View for CentralDirectoryFileHeader {
    type V = CdfhView;

    open spec fn view(&self) -> CdfhView {
        CdfhView {
            general_purpose_flags: self.general_purpose_flags,
            compression_method: self.compression_method,
            crc32: self.crc32,
            compressed_size: self.compressed_size,
            uncompressed_size: self.uncompressed_size,
            relative_offset_of_local_header: self.relative_offset_of_local_header,
            file_name: self.file_name@,
            extra_field: self.extra_field@,
        }
    }
}

impl Clone for CentralDirectoryFileHeader {
    fn clone(&self) -> (r: Self)
        ensures
            r@ == self@,
    {
        CentralDirectoryFileHeader {
            general_purpose_flags: self.general_purpose_flags,
            compression_method: self.compression_method,
            crc32: self.crc32,
            compressed_size: self.compressed_size,
            uncompressed_size: self.uncompressed_size,
            relative_offset_of_local_header: self.relative_offset_of_local_header,
            file_name: self.file_name.clone(),
            extra_field: self.extra_field.clone(),
        }
    }
}

impl CentralDirectoryFileHeader {
    /// The member name, decoded lossily as UTF-8.
    pub fn file_name(&self) -> (r: String)
        ensures
            r@ == utf8_lossy_of(self.file_name@),
    {
        utf8_lossy(self.file_name.as_slice())
    }

    /// Whether the general-purpose flags mark the name as proper UTF-8.
    pub fn is_utf8(&self) -> (r: bool)
        ensures
            r == (self.general_purpose_flags & 0x800 == 0x800),
    {
        self.general_purpose_flags & 0x800 == 0x800
    }
}

/// Whether a central-directory file header starts at `off`: its signature
/// matches and all its declared bytes are available.
pub open spec fn cdfh_frame_ok(s: Seq<u8>, off: int) -> bool {
    &&& off + 46 <= s.len()
    &&& s[off] == 0x50u8 && s[off + 1] == 0x4bu8 && s[off + 2] == 0x01u8 && s[off + 3] == 0x02u8
    &&& off + cdfh_total(s, off) <= s.len()
}

/// The full size of the header at `off`: the fixed part plus the name, the
/// extra field and the comment.
pub open spec fn cdfh_total(s: Seq<u8>, off: int) -> int {
    46 + le16_at(s, off + 28) + le16_at(s, off + 30) + le16_at(s, off + 32)
}

/// The header parsed at `off`, with the count of bytes consumed.
pub open spec fn spec_parse_cdfh(s: Seq<u8>, off: int) -> Option<(CdfhView, int)> {
    if cdfh_frame_ok(s, off) {
        let name_len = le16_at(s, off + 28) as int;
        let extra_len = le16_at(s, off + 30) as int;
        Some(
            (
                CdfhView {
                    general_purpose_flags: le16_at(s, off + 8),
                    compression_method: le16_at(s, off + 10),
                    crc32: le32_at(s, off + 16),
                    compressed_size: le32_at(s, off + 20),
                    uncompressed_size: le32_at(s, off + 24),
                    relative_offset_of_local_header: le32_at(s, off + 42),
                    file_name: s.subrange(off + 46, off + 46 + name_len),
                    extra_field: s.subrange(off + 46 + name_len, off + 46 + name_len + extra_len),
                },
                cdfh_total(s, off),
            ),
        )
    } else {
        None
    }
}

/// The headers parsed back to back from `off`, stopping at the first
/// failure.
pub open spec fn spec_parse_cd(s: Seq<u8>, off: int) -> Seq<CdfhView>
    decreases s.len() - off,
{
    if 0 <= off <= s.len() {
        match spec_parse_cdfh(s, off) {
            Some((h, n)) => seq![h] + spec_parse_cd(s, off + n),
            None => Seq::empty(),
        }
    } else {
        Seq::empty()
    }
}

/// Parses the header at `off`: signature, fixed fields, then the name,
/// extra field and comment.
pub fn parse_central_file_header(s: &[u8], off: usize) -> (r: Result<
    (CentralDirectoryFileHeader, usize),
    ZipError,
>)
    ensures
        match r {
            Ok((h, n)) => spec_parse_cdfh(s@, off as int) == Some((h@, n as int)) && off + n
                <= s@.len() && n >= 46,
            Err(_) => spec_parse_cdfh(s@, off as int) is None,
        },
{
    let len = s.len();
    if off > len || len - off < 46 {
        return Err(ZipError::InvalidData);
    }
    if !(s[off] == 0x50 && s[off + 1] == 0x4b && s[off + 2] == 0x01 && s[off + 3] == 0x02) {
        return Err(ZipError::InvalidData);
    }
    let name_len = read_le_u16(s, off + 28) as usize;
    let extra_len = read_le_u16(s, off + 30) as usize;
    let comment_len = read_le_u16(s, off + 32) as usize;
    let total = 46 + name_len + extra_len + comment_len;
    if total > len - off {
        return Err(ZipError::InvalidData);
    }
    let header = CentralDirectoryFileHeader {
        general_purpose_flags: read_le_u16(s, off + 8),
        compression_method: read_le_u16(s, off + 10),
        crc32: read_le_u32(s, off + 16),
        compressed_size: read_le_u32(s, off + 20),
        uncompressed_size: read_le_u32(s, off + 24),
        relative_offset_of_local_header: read_le_u32(s, off + 42),
        file_name: take_bytes(s, off + 46, name_len),
        extra_field: take_bytes(s, off + 46 + name_len, extra_len),
    };
    Ok((header, total))
}

/// Parses central-directory headers back to back until the bytes end or a
/// header is malformed.
pub fn parse_central_directory(s: &[u8]) -> (r: Vec<CentralDirectoryFileHeader>)
    ensures
        r@.map_values(|h: CentralDirectoryFileHeader| h@) == spec_parse_cd(s@, 0),
{
    let len = s.len();
    let mut result: Vec<CentralDirectoryFileHeader> = Vec::new();
    let mut off: usize = 0;
    loop
        invariant
            len == s@.len(),
            0 <= off <= len,
            spec_parse_cd(s@, 0) == result@.map_values(|h: CentralDirectoryFileHeader| h@)
                + spec_parse_cd(s@, off as int),
        decreases len - off,
    {
        match parse_central_file_header(s, off) {
            Ok((h, n)) => {
                proof {
                    assert(spec_parse_cd(s@, off as int) =~= seq![h@] + spec_parse_cd(
                        s@,
                        off + n,
                    ));
                }
                let ghost prev = result@;
                result.push(h);
                proof {
                    assert(result@.map_values(|x: CentralDirectoryFileHeader| x@)
                        =~= prev.map_values(|x: CentralDirectoryFileHeader| x@) + seq![
                        result@[prev.len() as int]@,
                    ]);
                }
                off = off + n;
            },
            Err(_) => {
                proof {
                    assert(spec_parse_cd(s@, off as int) =~= Seq::<CdfhView>::empty());
                    assert(result@.map_values(|h: CentralDirectoryFileHeader| h@) + Seq::<
                        CdfhView,
                    >::empty() =~= result@.map_values(|h: CentralDirectoryFileHeader| h@));
                }
                return result;
            },
        }
    }
}

/// Whether a valid end-of-central-directory record starts at `i` in the
/// trailing window: its signature matches and its comment length reaches
/// exactly the end of the window.
pub open spec fn eocd_at(tail: Seq<u8>, i: int) -> bool {
    &&& 0 <= i
    &&& i + 22 <= tail.len()
    &&& tail[i] == 0x50u8 && tail[i + 1] == 0x4bu8 && tail[i + 2] == 0x05u8 && tail[i + 3]
        == 0x06u8
    &&& i + 22 + le16_at(tail, i + 20) == tail.len()
}

/// The highest position of a valid end-of-central-directory record at or
/// below `i`.
pub open spec fn spec_eocd_search(tail: Seq<u8>, i: int) -> Option<int>
    decreases i + 1,
{
    if i < 0 {
        None
    } else if eocd_at(tail, i) {
        Some(i)
    } else {
        spec_eocd_search(tail, i - 1)
    }
}

/// Scans the trailing window backwards for the end-of-central-directory
/// record and returns the central directory's offset and size from the
/// highest valid record.
pub fn get_range_of_central_directory(tail: &[u8]) -> (r: Result<(u32, u32), ZipError>)
    ensures
        match r {
            Ok((offset, size)) => {
                &&& spec_eocd_search(tail@, tail@.len() - 22) is Some
                &&& offset == le32_at(tail@, spec_eocd_search(tail@, tail@.len() - 22)->Some_0 + 16)
                &&& size == le32_at(tail@, spec_eocd_search(tail@, tail@.len() - 22)->Some_0 + 12)
            },
            Err(e) => spec_eocd_search(tail@, tail@.len() - 22) is None && e
                == ZipError::CentralDirectoryNotFound,
        },
{
    let len = tail.len();
    if len < 22 {
        proof {
            lemma_eocd_search_none(tail@, len as int - 22);
        }
        return Err(ZipError::CentralDirectoryNotFound);
    }
    let mut i: usize = len - 22;
    loop
        invariant
            len == tail@.len(),
            len >= 22,
            0 <= i <= len - 22,
            spec_eocd_search(tail@, len - 22) == spec_eocd_search(tail@, i as int),
        decreases i,
    {
        if tail[i] == 0x50 && tail[i + 1] == 0x4b && tail[i + 2] == 0x05 && tail[i + 3] == 0x06 {
            let comment_len = read_le_u16(tail, i + 20) as usize;
            if comment_len == len - (i + 22) {
                return Ok((read_le_u32(tail, i + 16), read_le_u32(tail, i + 12)));
            }
        }
        if i == 0 {
            proof {
                lemma_eocd_search_none(tail@, -1);
            }
            return Err(ZipError::CentralDirectoryNotFound);
        }
        i = i - 1;
    }
}

proof fn lemma_eocd_search_none(tail: Seq<u8>, i: int)
    requires
        i < 0,
    ensures
        spec_eocd_search(tail, i) is None,
{
}

/// An in-memory ZIP archive: the raw bytes and the parsed central
/// directory.
pub struct ZipArchive {
    pub data: Vec<u8>,
    pub entries: Vec<CentralDirectoryFileHeader>,
}

/// One archive member: a copy of its central-directory header.
pub struct ZipEntry {
    pub header: CentralDirectoryFileHeader,
}

/// The archive bytes behind a valid trailing window: the central-directory
/// range its end record declares, or `None` when no valid record exists or
/// the range runs outside the bytes.
pub open spec fn spec_archive_entries(data: Seq<u8>) -> Option<Seq<CdfhView>> {
    let window = if data.len() <= 1024 {
        0
    } else {
        data.len() - 1024
    };
    let tail = data.skip(window as int);
    match spec_eocd_search(tail, tail.len() - 22) {
        Some(i) => {
            let cd_offset = le32_at(tail, i + 16) as int;
            let cd_size = le32_at(tail, i + 12) as int;
            if cd_offset + cd_size <= data.len() {
                Some(spec_parse_cd(data.subrange(cd_offset, cd_offset + cd_size), 0))
            } else {
                None
            }
        },
        None => None,
    }
}

impl ZipArchive {
    /// The names of the members, in central-directory order.
    pub open spec fn file_names(&self) -> Seq<Seq<char>> {
        self.entries@.map_values(|h: CentralDirectoryFileHeader| utf8_lossy_of(h@.file_name))
    }

    /// Parses an archive held in memory: locates the end-of-central-
    /// directory record in the trailing 1 KiB and decodes the central
    /// directory it points at.
    pub fn parse(data: Vec<u8>) -> (r: Result<ZipArchive, ZipError>)
        ensures
            match r {
                Ok(a) => {
                    &&& a.data@ == data@
                    &&& spec_archive_entries(data@) == Some(
                        a.entries@.map_values(|h: CentralDirectoryFileHeader| h@),
                    )
                },
                Err(_) => spec_archive_entries(data@) is None,
            },
    {
        let len = data.len();
        let window: usize = if len <= 1024 {
            0
        } else {
            len - 1024
        };
        let tail = vstd::slice::slice_subrange(data.as_slice(), window, len);
        proof {
            assert(tail@ =~= data@.skip(window as int));
        }
        let (cd_offset32, cd_size32) = match get_range_of_central_directory(tail) {
            Ok(v) => v,
            Err(_) => {
                return Err(ZipError::CentralDirectoryNotFound);
            },
        };
        let cd_offset = cd_offset32 as usize;
        let cd_size = cd_size32 as usize;
        if cd_offset > len || cd_size > len - cd_offset {
            return Err(ZipError::InvalidData);
        }
        let cd = vstd::slice::slice_subrange(data.as_slice(), cd_offset, cd_offset + cd_size);
        let entries = parse_central_directory(cd);
        proof {
            assert(cd@ =~= data@.subrange(cd_offset as int, cd_offset + cd_size));
        }
        Ok(ZipArchive { data, entries })
    }

    /// All members, in central-directory order.
    pub fn files(&self) -> (r: Vec<ZipEntry>)
        ensures
            r@.len() == self.entries@.len(),
            forall|i: int| 0 <= i < r@.len() ==> (#[trigger] r@[i]).header@ == self.entries@[i]@,
    {
        let mut result: Vec<ZipEntry> = Vec::new();
        let n = self.entries.len();
        for i in 0..n
            invariant
                n == self.entries@.len(),
                result@.len() == i,
                forall|k: int|
                    0 <= k < i ==> (#[trigger] result@[k]).header@ == self.entries@[k]@,
        {
            result.push(ZipEntry { header: self.entries[i].clone() });
        }
        result
    }

    /// The first member with the given name, comparing names by their
    /// lossy UTF-8 decoding.
    pub fn by_name(&self, name: &str) -> (r: Option<ZipEntry>)
        ensures
            match r {
                Some(e) => exists|i: int|
                    0 <= i < self.entries@.len() && #[trigger] utf8_lossy_of(
                        self.entries@[i]@.file_name,
                    ) == name@ && e.header@ == self.entries@[i]@,
                None => forall|i: int|
                    0 <= i < self.entries@.len() ==> #[trigger] utf8_lossy_of(
                        self.entries@[i]@.file_name,
                    ) != name@,
            },
    {
        let wanted: String = name.to_owned();
        let n = self.entries.len();
        for i in 0..n
            invariant
                n == self.entries@.len(),
                wanted@ == name@,
                forall|k: int|
                    0 <= k < i ==> #[trigger] utf8_lossy_of(self.entries@[k]@.file_name)
                        != name@,
        {
            let entry_name = self.entries[i].file_name();
            if entry_name == wanted {
                proof {
                    assert(utf8_lossy_of(self.entries@[i as int]@.file_name) == name@);
                }
                return Some(ZipEntry { header: self.entries[i].clone() });
            }
        }
        None
    }
}

/// The range of a member's raw (possibly compressed) bytes inside the
/// archive: past its local header and its name and extra field, for its
/// declared compressed size; or `None` when the local header is absent or
/// the range runs outside the bytes.
pub open spec fn spec_local_data_range(data: Seq<u8>, h: CdfhView) -> Option<(int, int)> {
    let lho = h.relative_offset_of_local_header as int;
    if lho + 30 <= data.len() && data[lho] == 0x50u8 && data[lho + 1] == 0x4bu8 && data[lho + 2]
        == 0x03u8 && data[lho + 3] == 0x04u8 {
        let start = lho + 30 + le16_at(data, lho + 26) + le16_at(data, lho + 28);
        if start + h.compressed_size <= data.len() {
            Some((start, start + h.compressed_size))
        } else {
            None
        }
    } else {
        None
    }
}

impl ZipEntry {
    /// The member name, decoded lossily as UTF-8.
    pub fn file_name(&self) -> (r: String)
        ensures
            r@ == utf8_lossy_of(self.header@.file_name),
    {
        self.header.file_name()
    }

    /// The member's compression method.
    pub fn compression(&self) -> (r: Option<Compression>)
        ensures
            r == Compression::spec_from(self.header@.compression_method),
    {
        Compression::from(self.header.compression_method)
    }

    /// The member's uncompressed size, as the central directory declares
    /// it.
    pub fn len(&self) -> (r: usize)
        ensures
            r == self.header@.uncompressed_size,
    {
        self.header.uncompressed_size as usize
    }

    /// The member's bytes, from the archive the entry came from.  A stored
    /// member's bytes are returned verbatim, exactly its compressed size;
    /// a deflated member's bytes are what the DEFLATE decoder yields on
    /// its raw bytes.
    pub fn content(&self, archive: &ZipArchive) -> (r: Result<Vec<u8>, ZipError>)
        ensures
            match r {
                Ok(v) => {
                    &&& spec_local_data_range(archive.data@, self.header@) is Some
                    &&& {
                        let range = spec_local_data_range(archive.data@, self.header@)->Some_0;
                        let raw = archive.data@.subrange(range.0, range.1);
                        if self.header@.compression_method == 0 {
                            v@ == raw && v@.len() == self.header@.compressed_size
                        } else {
                            self.header@.compression_method == 8 && inflate_of(raw) == Some(v@)
                        }
                    }
                },
                Err(e) => match e {
                    ZipError::UnsupportedCompression(m) => m == self.header@.compression_method
                        && m != 0 && m != 8,
                    ZipError::InvalidData => (self.header@.compression_method == 0
                        || self.header@.compression_method == 8) && (spec_local_data_range(
                        archive.data@,
                        self.header@,
                    ) is None || (self.header@.compression_method == 8 && inflate_of(
                        archive.data@.subrange(
                            spec_local_data_range(archive.data@, self.header@)->Some_0.0,
                            spec_local_data_range(archive.data@, self.header@)->Some_0.1,
                        ),
                    ) is None)),
                    ZipError::CentralDirectoryNotFound => false,
                },
            },
    {
        let method = self.header.compression_method;
        if method != 0 && method != 8 {
            return Err(ZipError::UnsupportedCompression(method));
        }
        let data = archive.data.as_slice();
        let len = data.len();
        let lho64 = self.header.relative_offset_of_local_header as u64;
        if lho64 + 30 > len as u64 {
            return Err(ZipError::InvalidData);
        }
        let lho = self.header.relative_offset_of_local_header as usize;
        if !(data[lho] == 0x50 && data[lho + 1] == 0x4b && data[lho + 2] == 0x03 && data[lho + 3]
            == 0x04) {
            return Err(ZipError::InvalidData);
        }
        let name_len = read_le_u16(data, lho + 26) as u64;
        let extra_len = read_le_u16(data, lho + 28) as u64;
        let start64 = lho64 + 30 + name_len + extra_len;
        let csize64 = self.header.compressed_size as u64;
        if start64 + csize64 > len as u64 {
            return Err(ZipError::InvalidData);
        }
        let start = start64 as usize;
        let raw = take_bytes(data, start, self.header.compressed_size as usize);
        if method == 0 {
            Ok(raw)
        } else {
            match inflate(raw.as_slice()) {
                Some(v) => Ok(v),
                None => Err(ZipError::InvalidData),
            }
        }
    }
}

/// Listing the members is deterministic: any two walks of the same
/// archive's central directory see the same name sequence, in the same
/// order.
pub proof fn lemma_files_deterministic(
    archive: &ZipArchive,
    names1: Seq<Seq<char>>,
    names2: Seq<Seq<char>>,
)
    requires
        names1 == archive.file_names(),
        names2 == archive.file_names(),
    ensures
        names1 == names2,
{
}

/// A stored member's bytes are exactly as long as its declared compressed
/// size.
pub proof fn lemma_stored_content_len(archive: &ZipArchive, entry: &ZipEntry, content: Seq<u8>)
    requires
        entry.header@.compression_method == 0,
        spec_local_data_range(archive.data@, entry.header@) is Some,
        content == archive.data@.subrange(
            spec_local_data_range(archive.data@, entry.header@)->Some_0.0,
            spec_local_data_range(archive.data@, entry.header@)->Some_0.1,
        ),
    ensures
        content.len() == entry.header@.compressed_size,
{
}

} // verus!
