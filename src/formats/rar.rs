//! RAR 5 archives: a signature followed by a chain of headers.
use crate::binary::{fits, le_at, vint_at, Reader};
use crate::helpers::crc32::{self, crc32_of};
use crate::helpers::text::utf8_string;
use crate::Error;
use vstd::prelude::*;
use vstd::utf8::*;

verus! {

/// The RAR 5 signature, `Rar!\x1A\x07\x01\x00`.
pub open spec fn rar_signature() -> Seq<u8> {
    seq![0x52u8, 0x61, 0x72, 0x21, 0x1a, 0x07, 0x01, 0x00]
}

/// How far into a container the signature is looked for.
pub const SIGNATURE_SCAN_LIMIT: usize = 10_000_000;

/// The variable-length integer at `s[i]` when its value fits in a `u64`,
/// with the position after it.
pub open spec fn vint64(s: Seq<u8>, i: int) -> Option<(u64, int)> {
    match vint_at(s, i) {
        Some((v, n)) => if v <= u64::MAX {
            Some((v as u64, i + n))
        } else {
            None
        },
        None => None,
    }
}

/// A variable-length integer at `s[i]` if `present`, with the position after it.
pub open spec fn opt_vint(s: Seq<u8>, i: int, present: bool) -> Option<(Option<u64>, int)> {
    if present {
        match vint64(s, i) {
            Some((v, p)) => Some((Some(v), p)),
            None => None,
        }
    } else {
        Some((None, i))
    }
}

/// A little-endian `u32` at `s[i]` if `present`, with the position after it.
pub open spec fn opt_u32(s: Seq<u8>, i: int, present: bool) -> Option<(Option<u32>, int)> {
    if present {
        if fits(s, i, 4) {
            Some((Some(le_at(s, i, 4) as u32), i + 4))
        } else {
            None
        }
    } else {
        Some((None, i))
    }
}

/// The position `n` bytes after `i`, if those bytes lie within `s`.
pub open spec fn skip(s: Seq<u8>, i: int, n: int) -> Option<int> {
    if fits(s, i, n) {
        Some(i + n)
    } else {
        None
    }
}

/// The bytes of `b` before its first zero byte; all of `b` if it has none.
pub open spec fn nul_prefix(b: Seq<u8>) -> Seq<u8>
    decreases b.len(),
{
    if b.len() == 0 {
        b
    } else if b[0] == 0 {
        Seq::empty()
    } else {
        seq![b[0]] + nul_prefix(b.drop_first())
    }
}

/// The name stored in the `n` bytes at `s[i]`: the UTF-8 text before the
/// first NUL, with the position after the `n` bytes.
pub open spec fn name_at(s: Seq<u8>, i: int, n: int) -> Option<(Seq<char>, int)> {
    if fits(s, i, n) && valid_utf8(nul_prefix(s.subrange(i, i + n))) {
        Some((decode_utf8(nul_prefix(s.subrange(i, i + n))), i + n))
    } else {
        None
    }
}

/// The locator record of a main header: offsets of the quick-open data and
/// of the recovery record.
#[derive(Debug, Clone, Copy, PartialEq, Eq, Structural)]
pub struct Locator {
    pub quick_open_offset: Option<u64>,
    pub recovery_record_offset: Option<u64>,
}

/// The metadata record of a main header: the archive's original name and
/// creation time.
#[derive(Debug, Clone)]
pub struct Metadata {
    pub name: Option<String>,
    pub created: Option<u64>,
}

/// The mathematical content of a [`Metadata`].
pub struct MetadataModel {
    pub name: Option<Seq<char>>,
    pub created: Option<u64>,
}

impl View for Metadata {
    type V = MetadataModel;

    open spec fn view(&self) -> MetadataModel {
        MetadataModel {
            name: match self.name {
                Some(n) => Some(n@),
                None => None,
            },
            created: self.created,
        }
    }
}

/// The archive-wide header.
#[derive(Debug, Clone)]
pub struct MainHeader {
    pub multivolume: bool,
    pub volume: u64,
    pub solid: bool,
    pub has_recovery: bool,
    pub locked: bool,
    pub locator: Option<Locator>,
    pub metadata: Option<Metadata>,
}

/// The mathematical content of a [`MainHeader`].
pub struct MainModel {
    pub multivolume: bool,
    pub volume: u64,
    pub solid: bool,
    pub has_recovery: bool,
    pub locked: bool,
    pub locator: Option<Locator>,
    pub metadata: Option<MetadataModel>,
}

impl View for MainHeader {
    type V = MainModel;

    open spec fn view(&self) -> MainModel {
        MainModel {
            multivolume: self.multivolume,
            volume: self.volume,
            solid: self.solid,
            has_recovery: self.has_recovery,
            locked: self.locked,
            locator: self.locator,
            metadata: match self.metadata {
                Some(m) => Some(m@),
                None => None,
            },
        }
    }
}

/// The header of one file entry.
#[derive(Debug, Clone)]
pub struct FileHeader {
    pub is_directory: bool,
    pub size_uncompressed: Option<u64>,
    pub size: u64,
    pub modified: Option<u32>,
    pub checksum: Option<u32>,
    pub compression_info: u64,
    pub created_with: u64,
    pub name: String,
    /// Where the entry's payload starts in the container.
    pub offset: u64,
}

/// The mathematical content of a [`FileHeader`].
pub struct FileModel {
    pub is_directory: bool,
    pub size_uncompressed: Option<u64>,
    pub size: u64,
    pub modified: Option<u32>,
    pub checksum: Option<u32>,
    pub compression_info: u64,
    pub created_with: u64,
    pub name: Seq<char>,
    pub offset: u64,
}

impl View for FileHeader {
    type V = FileModel;

    open spec fn view(&self) -> FileModel {
        FileModel {
            is_directory: self.is_directory,
            size_uncompressed: self.size_uncompressed,
            size: self.size,
            modified: self.modified,
            checksum: self.checksum,
            compression_info: self.compression_info,
            created_with: self.created_with,
            name: self.name@,
            offset: self.offset,
        }
    }
}

/// The archive encryption header: where it stands and its checksum.
#[derive(Debug, Clone, Copy, PartialEq, Eq, Structural)]
pub struct EncryptionHeader {
    pub checksum: u32,
    pub offset: u64,
    pub size: u64,
}

/// The end-of-archive header.
#[derive(Debug, Clone, Copy, PartialEq, Eq, Structural)]
pub struct EndHeader {
    pub is_last_volume: bool,
}

/// What a header holds, by its type.
#[derive(Debug, Clone)]
pub enum HeaderType {
    Main(MainHeader),
    File(FileHeader),
    Service,
    Encryption(EncryptionHeader),
    End(EndHeader),
    Unknown,
}

/// The mathematical content of a [`HeaderType`].
pub enum HeaderTypeModel {
    Main(MainModel),
    File(FileModel),
    Service,
    Encryption(EncryptionHeader),
    End(EndHeader),
    Unknown,
}

impl View for HeaderType {
    type V = HeaderTypeModel;

    open spec fn view(&self) -> HeaderTypeModel {
        match self {
            HeaderType::Main(h) => HeaderTypeModel::Main(h@),
            HeaderType::File(h) => HeaderTypeModel::File(h@),
            HeaderType::Service => HeaderTypeModel::Service,
            HeaderType::Encryption(h) => HeaderTypeModel::Encryption(*h),
            HeaderType::End(h) => HeaderTypeModel::End(*h),
            HeaderType::Unknown => HeaderTypeModel::Unknown,
        }
    }
}

/// One header of the chain: its content, its leading checksum, and the range
/// `[offset, offset + size)` that the checksum covers.
#[derive(Debug, Clone)]
pub struct Header {
    pub header: HeaderType,
    pub checksum: u32,
    pub offset: u64,
    pub size: u64,
}

/// The mathematical content of a [`Header`].
pub struct HeaderModel {
    pub header: HeaderTypeModel,
    pub checksum: u32,
    pub offset: u64,
    pub size: u64,
}

impl View for Header {
    type V = HeaderModel;

    open spec fn view(&self) -> HeaderModel {
        HeaderModel {
            header: self.header@,
            checksum: self.checksum,
            offset: self.offset,
            size: self.size,
        }
    }
}

/// The locator record body at `s[i]`.
pub open spec fn locator_at(s: Seq<u8>, i: int) -> Option<(Locator, int)> {
    match vint64(s, i) {
        None => None,
        Some((flags, p1)) => match opt_vint(s, p1, flags & 1 != 0) {
            None => None,
            Some((qo, p2)) => match opt_vint(s, p2, flags & 2 != 0) {
                None => None,
                Some((rr, p3)) => Some(
                    (Locator { quick_open_offset: qo, recovery_record_offset: rr }, p3),
                ),
            },
        },
    }
}

/// The creation time of a metadata record at `s[i]` if `present`: eight bytes
/// when `wide`, else four.
pub open spec fn created_at(s: Seq<u8>, i: int, present: bool, wide: bool) -> Option<
    (Option<u64>, int),
> {
    if !present {
        Some((None, i))
    } else if wide {
        if fits(s, i, 8) {
            Some((Some(le_at(s, i, 8) as u64), i + 8))
        } else {
            None
        }
    } else {
        if fits(s, i, 4) {
            Some((Some(le_at(s, i, 4) as u64), i + 4))
        } else {
            None
        }
    }
}

/// The metadata record body at `s[i]`.
pub open spec fn metadata_record_at(s: Seq<u8>, i: int) -> Option<(MetadataModel, int)> {
    match vint64(s, i) {
        None => None,
        Some((flags, p1)) => match (if flags & 1 != 0 {
            match vint64(s, p1) {
                None => None,
                Some((n, p)) => match name_at(s, p, n as int) {
                    None => None,
                    Some((name, q)) => Some((Some(name), q)),
                },
            }
        } else {
            Some((None, p1))
        }) {
            None => None,
            Some((name, p2)) => match created_at(
                s,
                p2,
                flags & 2 != 0,
                flags & 4 != 0 || flags & 8 != 0,
            ) {
                None => None,
                Some((created, p3)) => Some((MetadataModel { name, created }, p3)),
            },
        },
    }
}

/// One record of a main header's extra area at `s[i]`, updating the locator
/// and metadata found so far. A record of another type is skipped by its
/// declared size, counted from after its type.
pub open spec fn main_record_at(
    s: Seq<u8>,
    i: int,
    loc: Option<Locator>,
    meta: Option<MetadataModel>,
) -> Option<(Option<Locator>, Option<MetadataModel>, int)> {
    match vint64(s, i) {
        None => None,
        Some((size, p1)) => match vint64(s, p1) {
            None => None,
            Some((kind, p2)) => if kind == 1 {
                match locator_at(s, p2) {
                    None => None,
                    Some((l, p3)) => Some((Some(l), meta, p3)),
                }
            } else if kind == 2 {
                match metadata_record_at(s, p2) {
                    None => None,
                    Some((m, p3)) => Some((loc, Some(m), p3)),
                }
            } else {
                match skip(s, p2, size as int) {
                    None => None,
                    Some(p3) => Some((loc, meta, p3)),
                }
            },
        },
    }
}

/// The records of a main header's extra area from `s[i]` until `end`.
pub open spec fn main_records(
    s: Seq<u8>,
    i: int,
    end: int,
    loc: Option<Locator>,
    meta: Option<MetadataModel>,
) -> Option<(Option<Locator>, Option<MetadataModel>, int)>
    decreases end - i,
{
    if i >= end {
        Some((loc, meta, i))
    } else {
        match main_record_at(s, i, loc, meta) {
            None => None,
            Some((l, m, j)) => if j >= end {
                Some((l, m, j))
            } else if j > i {
                main_records(s, j, end, l, m)
            } else {
                None
            },
        }
    }
}

/// The body of a main header at `s[i]`, and the position after its data area.
pub open spec fn main_at(s: Seq<u8>, i: int, has_extra: bool, extra_size: u64, data_size: u64) -> Option<
    (MainModel, int),
> {
    match vint64(s, i) {
        None => None,
        Some((flags, p1)) => match opt_vint(s, p1, flags & 2 != 0) {
            None => None,
            Some((volume, p2)) => if !fits(s, p2, extra_size as int) {
                None
            } else {
                match (if has_extra {
                    main_records(s, p2, p2 + extra_size, None, None)
                } else {
                    Some((None, None, p2 + extra_size))
                }) {
                    None => None,
                    Some((locator, metadata, p3)) => match skip(s, p3, data_size as int) {
                        None => None,
                        Some(p4) => Some(
                            (
                                MainModel {
                                    multivolume: flags & 1 != 0,
                                    volume: match volume {
                                        Some(v) => v,
                                        None => 0,
                                    },
                                    solid: flags & 4 != 0,
                                    has_recovery: flags & 8 != 0,
                                    locked: flags & 0x10 != 0,
                                    locator,
                                    metadata,
                                },
                                p4,
                            ),
                        ),
                    },
                }
            },
        },
    }
}

/// The body of a file header at `s[i]`, and the position after its data area.
/// The payload starts after the name, or after one more variable-length
/// integer, which then gives the stored size, when the extra area is not empty.
pub open spec fn file_at(s: Seq<u8>, i: int, extra_size: u64, data_size: u64) -> Option<(FileModel, int)> {
    match vint64(s, i) {
        None => None,
        Some((flags, p1)) => match opt_vint(s, p1, flags & 8 == 0) {
            None => None,
            Some((unpacked, p2)) => match vint64(s, p2) {
                None => None,
                Some((_attributes, p3)) => match opt_u32(s, p3, flags & 2 != 0) {
                    None => None,
                    Some((modified, p4)) => match opt_u32(s, p4, flags & 4 != 0) {
                        None => None,
                        Some((checksum, p5)) => match vint64(s, p5) {
                            None => None,
                            Some((compression_info, p6)) => match vint64(s, p6) {
                                None => None,
                                Some((created_with, p7)) => match vint64(s, p7) {
                                    None => None,
                                    Some((name_len, p8)) => match name_at(s, p8, name_len as int) {
                                        None => None,
                                        Some((name, p9)) => match opt_vint(s, p9, extra_size > 0) {
                                            None => None,
                                            Some((stored, p10)) => match skip(s, p10, data_size as int) {
                                                None => None,
                                                Some(p11) => Some(
                                                    (
                                                        FileModel {
                                                            is_directory: flags & 1 != 0,
                                                            size_uncompressed: unpacked,
                                                            size: match stored {
                                                                Some(v) => v,
                                                                None => match unpacked {
                                                                    Some(u) => u,
                                                                    None => 0,
                                                                },
                                                            },
                                                            modified,
                                                            checksum,
                                                            compression_info,
                                                            created_with,
                                                            name,
                                                            offset: p10 as u64,
                                                        },
                                                        p11,
                                                    ),
                                                ),
                                            },
                                        },
                                    },
                                },
                            },
                        },
                    },
                },
            },
        },
    }
}

/// The position after the body, extra area and data area of a service header
/// at `s[i]`; its fields are read and set aside.
pub open spec fn service_at(s: Seq<u8>, i: int, extra_size: u64, data_size: u64) -> Option<int> {
    match vint64(s, i) {
        None => None,
        Some((flags, p1)) => match opt_vint(s, p1, flags & 8 == 0) {
            None => None,
            Some((_unpacked, p2)) => match vint64(s, p2) {
                None => None,
                Some((_attributes, p3)) => match skip(s, p3, if flags & 2 != 0 { 4 } else { 0 }) {
                    None => None,
                    Some(p4) => match opt_u32(s, p4, flags & 4 != 0) {
                        None => None,
                        Some((_checksum, p5)) => match vint64(s, p5) {
                            None => None,
                            Some((_compression, p6)) => match vint64(s, p6) {
                                None => None,
                                Some((_created_with, p7)) => match vint64(s, p7) {
                                    None => None,
                                    Some((name_len, p8)) => match skip(s, p8, name_len as int) {
                                        None => None,
                                        Some(p9) => match skip(s, p9, extra_size as int) {
                                            None => None,
                                            Some(p10) => skip(s, p10, data_size as int),
                                        },
                                    },
                                },
                            },
                        },
                    },
                },
            },
        },
    }
}

/// The position after the body, extra area and data area of an encryption
/// header at `s[i]`: algorithm (only AES-256, code 0, is known), flags, KDF
/// count (one byte), salt (sixteen bytes) and, when flagged, a ten-byte
/// password check value.
pub open spec fn encryption_at(s: Seq<u8>, i: int, extra_size: u64, data_size: u64) -> Option<int> {
    match vint64(s, i) {
        None => None,
        Some((algorithm, p1)) => if algorithm != 0 {
            None
        } else {
            match vint64(s, p1) {
                None => None,
                Some((flags, p2)) => match skip(s, p2, 17) {
                    None => None,
                    Some(p3) => match skip(s, p3, if flags & 1 != 0 { 10 } else { 0 }) {
                        None => None,
                        Some(p4) => match skip(s, p4, extra_size as int) {
                            None => None,
                            Some(p5) => skip(s, p5, data_size as int),
                        },
                    },
                },
            }
        },
    }
}

/// The header that starts at `s[i]`, and the position after it. A header of
/// a type this library does not know is passed over by its declared size,
/// counted from just after the size field, and then its data area, so that
/// the chain stays in step.
pub open spec fn header_at(s: Seq<u8>, i: int) -> Option<(HeaderModel, int)> {
    if !fits(s, i, 4) {
        None
    } else {
        let crc = le_at(s, i, 4) as u32;
        match vint64(s, i + 4) {
            None => None,
            Some((size, p1)) => match vint64(s, p1) {
                None => None,
                Some((kind, p2)) => match vint64(s, p2) {
                    None => None,
                    Some((flags, p3)) => match opt_vint(s, p3, flags & 1 != 0) {
                        None => None,
                        Some((extra, p4)) => match opt_vint(s, p4, flags & 2 != 0) {
                            None => None,
                            Some((data, p5)) => {
                                let extra_size: u64 = match extra {
                                    Some(v) => v,
                                    None => 0,
                                };
                                let data_size: u64 = match data {
                                    Some(v) => v,
                                    None => 0,
                                };
                                let body: Option<(HeaderTypeModel, int)> = if kind == 1 {
                                    match main_at(s, p5, flags & 1 != 0, extra_size, data_size) {
                                        None => None,
                                        Some((m, q)) => Some((HeaderTypeModel::Main(m), q)),
                                    }
                                } else if kind == 2 {
                                    match file_at(s, p5, extra_size, data_size) {
                                        None => None,
                                        Some((f, q)) => Some((HeaderTypeModel::File(f), q)),
                                    }
                                } else if kind == 3 {
                                    match service_at(s, p5, extra_size, data_size) {
                                        None => None,
                                        Some(q) => Some((HeaderTypeModel::Service, q)),
                                    }
                                } else if kind == 4 {
                                    match encryption_at(s, p5, extra_size, data_size) {
                                        None => None,
                                        Some(q) => Some(
                                            (
                                                HeaderTypeModel::Encryption(
                                                    EncryptionHeader {
                                                        checksum: crc,
                                                        offset: p1 as u64,
                                                        size,
                                                    },
                                                ),
                                                q,
                                            ),
                                        ),
                                    }
                                } else if kind == 5 {
                                    match vint64(s, p5) {
                                        None => None,
                                        Some((end_flags, q)) => Some(
                                            (
                                                HeaderTypeModel::End(
                                                    EndHeader { is_last_volume: end_flags & 1 == 0 },
                                                ),
                                                q,
                                            ),
                                        ),
                                    }
                                } else {
                                    match skip(s, p1, size as int) {
                                        None => None,
                                        Some(q1) => match skip(s, q1, data_size as int) {
                                            None => None,
                                            Some(q2) => Some((HeaderTypeModel::Unknown, q2)),
                                        },
                                    }
                                };
                                match body {
                                    None => None,
                                    Some((h, q)) => Some(
                                        (
                                            HeaderModel {
                                                header: h,
                                                checksum: crc,
                                                offset: p1 as u64,
                                                size,
                                            },
                                            q,
                                        ),
                                    ),
                                }
                            },
                        },
                    },
                },
            },
        }
    }
}

/// The chain of headers from `s[i]` to the end of `s`; `None` when a header
/// does not parse.
pub open spec fn headers_from(s: Seq<u8>, i: int) -> Option<Seq<HeaderModel>>
    decreases s.len() - i,
{
    if i >= s.len() {
        Some(Seq::empty())
    } else {
        match header_at(s, i) {
            None => None,
            Some((h, j)) => if j >= s.len() {
                Some(seq![h])
            } else if j > i {
                match headers_from(s, j) {
                    Some(rest) => Some(seq![h] + rest),
                    None => None,
                }
            } else {
                None
            },
        }
    }
}

fn read_vint64(file: &mut Reader) -> (r: Option<u64>)
    ensures
        final(file).data@ == old(file).data@,
        match vint64(old(file).data@, old(file).pos as int) {
            Some((v, p)) => r == Some(v) && final(file).pos == p,
            None => r is None,
        },
{
    file.read_vint()
}

fn read_opt_vint(file: &mut Reader, present: bool) -> (r: Option<Option<u64>>)
    ensures
        final(file).data@ == old(file).data@,
        match opt_vint(old(file).data@, old(file).pos as int, present) {
            Some((v, p)) => r == Some(v) && final(file).pos == p,
            None => r is None,
        },
{
    if present {
        match read_vint64(file) {
            Some(v) => Some(Some(v)),
            None => None,
        }
    } else {
        Some(None)
    }
}

fn read_opt_u32(file: &mut Reader, present: bool) -> (r: Option<Option<u32>>)
    ensures
        final(file).data@ == old(file).data@,
        match opt_u32(old(file).data@, old(file).pos as int, present) {
            Some((v, p)) => r == Some(v) && final(file).pos == p,
            None => r is None,
        },
{
    if present {
        match file.read_u32le() {
            Some(v) => Some(Some(v)),
            None => None,
        }
    } else {
        Some(None)
    }
}

fn skip_bytes(file: &mut Reader, n: u64) -> (r: bool)
    ensures
        final(file).data@ == old(file).data@,
        match skip(old(file).data@, old(file).pos as int, n as int) {
            Some(p) => r && final(file).pos == p,
            None => !r,
        },
{
    file.jump(n)
}

/// Reads an `n`-byte name: the UTF-8 text before its first NUL.
fn read_name(file: &mut Reader, n: u64) -> (r: Option<String>)
    ensures
        final(file).data@ == old(file).data@,
        match name_at(old(file).data@, old(file).pos as int, n as int) {
            Some((name, p)) => r matches Some(x) && x@ == name && final(file).pos == p,
            None => r is None,
        },
{
    let bytes = match file.read_bytes(n) {
        Some(b) => b,
        None => return None,
    };
    let len = bytes.len();
    let mut k: usize = 0;
    let mut prefix: Vec<u8> = Vec::new();
    proof {
        assert(bytes@.subrange(0, len as int) =~= bytes@);
        assert(prefix@ =~= bytes@.subrange(0, 0));
    }
    while k < len && bytes[k] != 0
        invariant
            k <= len == bytes@.len(),
            prefix@ == bytes@.subrange(0, k as int),
            nul_prefix(bytes@) == prefix@ + nul_prefix(bytes@.subrange(k as int, len as int)),
        decreases len - k,
    {
        proof {
            let rest = bytes@.subrange(k as int, len as int);
            assert(rest.drop_first() =~= bytes@.subrange(k + 1, len as int));
            assert(prefix@.push(bytes@[k as int]) + nul_prefix(rest.drop_first()) =~= prefix@ + (
            seq![rest[0]] + nul_prefix(rest.drop_first())));
            assert(bytes@.subrange(0, k + 1) =~= prefix@.push(bytes@[k as int]));
        }
        prefix.push(bytes[k]);
        k = k + 1;
    }
    proof {
        let rest = bytes@.subrange(k as int, len as int);
        if k < len {
            assert(rest[0] == 0);
        } else {
            assert(rest.len() == 0);
        }
        assert(nul_prefix(rest) =~= Seq::<u8>::empty());
        assert(prefix@ + nul_prefix(rest) =~= prefix@);
    }
    utf8_string(prefix)
}

fn read_locator(file: &mut Reader) -> (r: Option<Locator>)
    ensures
        final(file).data@ == old(file).data@,
        match locator_at(old(file).data@, old(file).pos as int) {
            Some((l, p)) => r == Some(l) && final(file).pos == p,
            None => r is None,
        },
{
    let flags = match read_vint64(file) {
        Some(v) => v,
        None => return None,
    };
    let quick_open_offset = match read_opt_vint(file, flags & 1 != 0) {
        Some(v) => v,
        None => return None,
    };
    let recovery_record_offset = match read_opt_vint(file, flags & 2 != 0) {
        Some(v) => v,
        None => return None,
    };
    Some(Locator { quick_open_offset, recovery_record_offset })
}

fn read_metadata_record(file: &mut Reader) -> (r: Option<Metadata>)
    ensures
        final(file).data@ == old(file).data@,
        match metadata_record_at(old(file).data@, old(file).pos as int) {
            Some((m, p)) => r matches Some(x) && x@ == m && final(file).pos == p,
            None => r is None,
        },
{
    let flags = match read_vint64(file) {
        Some(v) => v,
        None => return None,
    };
    let name = if flags & 1 != 0 {
        let n = match read_vint64(file) {
            Some(v) => v,
            None => return None,
        };
        match read_name(file, n) {
            Some(x) => Some(x),
            None => return None,
        }
    } else {
        None
    };
    let created = if flags & 2 != 0 {
        if flags & 4 != 0 || flags & 8 != 0 {
            match file.read_u64le() {
                Some(v) => Some(v),
                None => return None,
            }
        } else {
            match file.read_u32le() {
                Some(v) => Some(v as u64),
                None => return None,
            }
        }
    } else {
        None
    };
    Some(Metadata { name, created })
}

/// Reads the records of a main header's extra area up to `end`.
fn read_main_records(file: &mut Reader, end: u64) -> (r: Option<(Option<Locator>, Option<Metadata>)>)
    ensures
        final(file).data@ == old(file).data@,
        match main_records(old(file).data@, old(file).pos as int, end as int, None, None) {
            Some((l, m, p)) => r matches Some((rl, rm)) && rl == l && match rm {
                Some(x) => Some(x@),
                None => None::<MetadataModel>,
            } == m && final(file).pos == p,
            None => r is None,
        },
{
    let ghost s = file.data@;
    let ghost start = file.pos as int;
    let mut locator: Option<Locator> = None;
    let mut metadata: Option<Metadata> = None;
    while (file.pos as u64) < end
        invariant
            file.data@ == s,
            s == old(file).data@,
            start == old(file).pos as int,
            main_records(s, start, end as int, None, None) == main_records(
                s,
                file.pos as int,
                end as int,
                locator,
                match metadata {
                    Some(x) => Some(x@),
                    None => None::<MetadataModel>,
                },
            ),
        decreases if file.pos as u64 >= end {
            0
        } else {
            end - file.pos
        },
    {
        let at: usize = file.pos;
        let size = match read_vint64(file) {
            Some(v) => v,
            None => return None,
        };
        let kind = match read_vint64(file) {
            Some(v) => v,
            None => return None,
        };
        if kind == 1 {
            match read_locator(file) {
                Some(l) => {
                    locator = Some(l);
                },
                None => return None,
            }
        } else if kind == 2 {
            match read_metadata_record(file) {
                Some(m) => {
                    metadata = Some(m);
                },
                None => return None,
            }
        } else {
            if !skip_bytes(file, size) {
                return None;
            }
        }
        if file.pos <= at {
            return None;
        }
    }
    Some((locator, metadata))
}

fn read_main(file: &mut Reader, has_extra: bool, extra_size: u64, data_size: u64) -> (r: Option<MainHeader>)
    ensures
        final(file).data@ == old(file).data@,
        match main_at(old(file).data@, old(file).pos as int, has_extra, extra_size, data_size) {
            Some((m, p)) => r matches Some(x) && x@ == m && final(file).pos == p,
            None => r is None,
        },
{
    let flags = match read_vint64(file) {
        Some(v) => v,
        None => return None,
    };
    let volume = match read_opt_vint(file, flags & 2 != 0) {
        Some(v) => v,
        None => return None,
    };
    if !file.has(extra_size) {
        return None;
    }
    let (locator, metadata) = if has_extra {
        let end = file.pos as u64 + extra_size;
        match read_main_records(file, end) {
            Some(x) => x,
            None => return None,
        }
    } else {
        file.jump(extra_size);
        (None, None)
    };
    if !skip_bytes(file, data_size) {
        return None;
    }
    Some(MainHeader {
        multivolume: flags & 1 != 0,
        volume: match volume {
            Some(v) => v,
            None => 0,
        },
        solid: flags & 4 != 0,
        has_recovery: flags & 8 != 0,
        locked: flags & 0x10 != 0,
        locator,
        metadata,
    })
}

fn read_file_header(file: &mut Reader, extra_size: u64, data_size: u64) -> (r: Option<FileHeader>)
    ensures
        final(file).data@ == old(file).data@,
        match file_at(old(file).data@, old(file).pos as int, extra_size, data_size) {
            Some((f, p)) => r matches Some(x) && x@ == f && final(file).pos == p,
            None => r is None,
        },
{
    let flags = match read_vint64(file) {
        Some(v) => v,
        None => return None,
    };
    let size_uncompressed = match read_opt_vint(file, flags & 8 == 0) {
        Some(v) => v,
        None => return None,
    };
    if read_vint64(file).is_none() {
        return None;
    }
    let modified = match read_opt_u32(file, flags & 2 != 0) {
        Some(v) => v,
        None => return None,
    };
    let checksum = match read_opt_u32(file, flags & 4 != 0) {
        Some(v) => v,
        None => return None,
    };
    let compression_info = match read_vint64(file) {
        Some(v) => v,
        None => return None,
    };
    let created_with = match read_vint64(file) {
        Some(v) => v,
        None => return None,
    };
    let name_len = match read_vint64(file) {
        Some(v) => v,
        None => return None,
    };
    let name = match read_name(file, name_len) {
        Some(v) => v,
        None => return None,
    };
    let stored = match read_opt_vint(file, extra_size > 0) {
        Some(v) => v,
        None => return None,
    };
    let offset = file.pos as u64;
    if !skip_bytes(file, data_size) {
        return None;
    }
    Some(FileHeader {
        is_directory: flags & 1 != 0,
        size_uncompressed,
        size: match stored {
            Some(v) => v,
            None => match size_uncompressed {
                Some(u) => u,
                None => 0,
            },
        },
        modified,
        checksum,
        compression_info,
        created_with,
        name,
        offset,
    })
}

fn read_service(file: &mut Reader, extra_size: u64, data_size: u64) -> (r: bool)
    ensures
        final(file).data@ == old(file).data@,
        match service_at(old(file).data@, old(file).pos as int, extra_size, data_size) {
            Some(p) => r && final(file).pos == p,
            None => !r,
        },
{
    let flags = match read_vint64(file) {
        Some(v) => v,
        None => return false,
    };
    if read_opt_vint(file, flags & 8 == 0).is_none() || read_vint64(file).is_none() {
        return false;
    }
    if !skip_bytes(file, if flags & 2 != 0 { 4 } else { 0 }) {
        return false;
    }
    if read_opt_u32(file, flags & 4 != 0).is_none() || read_vint64(file).is_none()
        || read_vint64(file).is_none() {
        return false;
    }
    let name_len = match read_vint64(file) {
        Some(v) => v,
        None => return false,
    };
    skip_bytes(file, name_len) && skip_bytes(file, extra_size) && skip_bytes(file, data_size)
}

fn read_encryption(file: &mut Reader, extra_size: u64, data_size: u64) -> (r: bool)
    ensures
        final(file).data@ == old(file).data@,
        match encryption_at(old(file).data@, old(file).pos as int, extra_size, data_size) {
            Some(p) => r && final(file).pos == p,
            None => !r,
        },
{
    let algorithm = match read_vint64(file) {
        Some(v) => v,
        None => return false,
    };
    if algorithm != 0 {
        return false;
    }
    let flags = match read_vint64(file) {
        Some(v) => v,
        None => return false,
    };
    skip_bytes(file, 17) && skip_bytes(file, if flags & 1 != 0 { 10 } else { 0 }) && skip_bytes(
        file,
        extra_size,
    ) && skip_bytes(file, data_size)
}

/// Reads the header that starts at the current position and moves past it.
pub fn parse_header(file: &mut Reader) -> (r: Option<Header>)
    ensures
        final(file).data@ == old(file).data@,
        match header_at(old(file).data@, old(file).pos as int) {
            Some((h, p)) => r matches Some(x) && x@ == h && final(file).pos == p,
            None => r is None,
        },
{
    let crc = match file.read_u32le() {
        Some(v) => v,
        None => return None,
    };
    let size = match read_vint64(file) {
        Some(v) => v,
        None => return None,
    };
    let header_offset = file.pos as u64;
    let kind = match read_vint64(file) {
        Some(v) => v,
        None => return None,
    };
    let flags = match read_vint64(file) {
        Some(v) => v,
        None => return None,
    };
    let extra = match read_opt_vint(file, flags & 1 != 0) {
        Some(v) => v,
        None => return None,
    };
    let data = match read_opt_vint(file, flags & 2 != 0) {
        Some(v) => v,
        None => return None,
    };
    let extra_size: u64 = match extra {
        Some(v) => v,
        None => 0,
    };
    let data_size: u64 = match data {
        Some(v) => v,
        None => 0,
    };
    let header = if kind == 1 {
        match read_main(file, flags & 1 != 0, extra_size, data_size) {
            Some(m) => HeaderType::Main(m),
            None => return None,
        }
    } else if kind == 2 {
        match read_file_header(file, extra_size, data_size) {
            Some(f) => HeaderType::File(f),
            None => return None,
        }
    } else if kind == 3 {
        if !read_service(file, extra_size, data_size) {
            return None;
        }
        HeaderType::Service
    } else if kind == 4 {
        if !read_encryption(file, extra_size, data_size) {
            return None;
        }
        HeaderType::Encryption(EncryptionHeader { checksum: crc, offset: header_offset, size })
    } else if kind == 5 {
        match read_vint64(file) {
            Some(end_flags) => HeaderType::End(EndHeader { is_last_volume: end_flags & 1 == 0 }),
            None => return None,
        }
    } else {
        file.seek(header_offset as usize);
        if !(skip_bytes(file, size) && skip_bytes(file, data_size)) {
            return None;
        }
        HeaderType::Unknown
    };
    Some(Header { header, checksum: crc, offset: header_offset, size })
}

/// Whether the RAR 5 signature stands at `s[k]`.
pub open spec fn signature_at(s: Seq<u8>, k: int) -> bool {
    fits(s, k, 8) && s.subrange(k, k + 8) == rar_signature()
}

/// How far into `s` the signature is looked for.
pub open spec fn scan_bound(s: Seq<u8>) -> int {
    if s.len() < SIGNATURE_SCAN_LIMIT {
        s.len() as int
    } else {
        SIGNATURE_SCAN_LIMIT as int
    }
}

/// The first position from `k` on, below the scan bound, where the signature stands.
pub open spec fn first_signature(s: Seq<u8>, k: int) -> Option<int>
    decreases scan_bound(s) - k,
{
    if k < 0 || k >= scan_bound(s) {
        None
    } else if signature_at(s, k) {
        Some(k)
    } else {
        first_signature(s, k + 1)
    }
}

/// The encryption header that leads the chain `hs`, if one does, and the
/// headers that follow it; the rest must open with a main header and close
/// with an end header.
pub open spec fn rar_chain(hs: Seq<HeaderModel>) -> Result<(Option<EncryptionHeader>, Seq<HeaderModel>), Error> {
    if hs.len() == 0 {
        Err(Error::Malformed)
    } else {
        let enc = match hs[0].header {
            HeaderTypeModel::Encryption(e) => Some(e),
            _ => None,
        };
        let rest = if enc is Some {
            hs.drop_first()
        } else {
            hs
        };
        if rest.len() == 0 || !(rest[0].header is Main) || !(rest.last().header is End) {
            Err(Error::Malformed)
        } else {
            Ok((enc, rest))
        }
    }
}

/// Where the archive in `s` starts, its leading encryption header if any,
/// and its other headers.
pub open spec fn rar_archive(s: Seq<u8>) -> Result<(int, Option<EncryptionHeader>, Seq<HeaderModel>), Error> {
    match first_signature(s, 0) {
        None => Err(Error::NotFound),
        Some(k) => match headers_from(s, k + 8) {
            None => Err(Error::Malformed),
            Some(hs) => match rar_chain(hs) {
                Ok((enc, rest)) => Ok((k, enc, rest)),
                Err(e) => Err(e),
            },
        },
    }
}

/// The encryption algorithm of an entry.
#[derive(Debug, Clone, Copy, PartialEq, Eq, Structural)]
pub enum RarEncryption {
    Aes256,
}

/// How an entry is compressed, decoded from its compression information.
#[derive(Debug, Clone, Copy, PartialEq, Eq, Structural)]
pub struct RarCompression {
    pub version: u8,
    pub solid: bool,
    pub method: u8,
    pub dict_size: u64,
}

/// The system an entry was archived on.
#[derive(Debug, Clone, Copy, PartialEq, Eq, Structural)]
pub enum RarPlatform {
    Windows,
    Unix,
}

/// The compression that the compression information `ci` describes: bits 0-5
/// the version, bit 6 solid, bits 7-9 the method, and bits 10-14 both the base
/// and the extra factor of the dictionary size.
pub open spec fn compression_of(ci: u64) -> RarCompression {
    let base = ((ci & 0x7c00) >> 10) as u64;
    RarCompression {
        version: (ci & 0x3f) as u8,
        solid: ci & 0x40 != 0,
        method: ((ci & 0x380) >> 7) as u8,
        dict_size: (base + if base > 0 {
            (base * base) / 32
        } else {
            0
        }) as u64,
    }
}

/// The platform that the code `cw` names.
pub open spec fn platform_of(cw: u64) -> Option<RarPlatform> {
    if cw == 0 {
        Some(RarPlatform::Windows)
    } else if cw == 1 {
        Some(RarPlatform::Unix)
    } else {
        None
    }
}

/// One entry of a RAR archive.
#[derive(Debug, Clone)]
pub struct RarFileEntry {
    pub path: String,
    pub offset: u64,
    pub size: u64,
    pub uncompressed_size: Option<u64>,
    pub is_directory: bool,
    /// The modification time as the header stores it, in seconds since the
    /// Unix epoch.
    pub modified: Option<u32>,
    pub checksum: Option<u32>,
    pub encryption: Option<RarEncryption>,
    /// `None` for an entry stored without compression.
    pub compression: Option<RarCompression>,
    pub creation_platform: Option<RarPlatform>,
}

/// The mathematical content of a [`RarFileEntry`].
pub struct RarFileModel {
    pub path: Seq<char>,
    pub offset: u64,
    pub size: u64,
    pub uncompressed_size: Option<u64>,
    pub is_directory: bool,
    pub modified: Option<u32>,
    pub checksum: Option<u32>,
    pub encryption: Option<RarEncryption>,
    pub compression: Option<RarCompression>,
    pub creation_platform: Option<RarPlatform>,
}

impl View for RarFileEntry {
    type V = RarFileModel;

    open spec fn view(&self) -> RarFileModel {
        RarFileModel {
            path: self.path@,
            offset: self.offset,
            size: self.size,
            uncompressed_size: self.uncompressed_size,
            is_directory: self.is_directory,
            modified: self.modified,
            checksum: self.checksum,
            encryption: self.encryption,
            compression: self.compression,
            creation_platform: self.creation_platform,
        }
    }
}

/// The entry that a file header describes.
pub open spec fn entry_of(f: FileModel) -> RarFileModel {
    RarFileModel {
        path: f.name,
        offset: f.offset,
        size: f.size,
        uncompressed_size: f.size_uncompressed,
        is_directory: f.is_directory,
        modified: f.modified,
        checksum: f.checksum,
        encryption: None,
        compression: if compression_of(f.compression_info).method > 0 {
            Some(compression_of(f.compression_info))
        } else {
            None
        },
        creation_platform: platform_of(f.created_with),
    }
}

/// The entries of the file headers of `hs`, in order.
pub open spec fn file_entries(hs: Seq<HeaderModel>) -> Seq<RarFileModel>
    decreases hs.len(),
{
    if hs.len() == 0 {
        Seq::empty()
    } else {
        file_entries(hs.drop_last()) + match hs.last().header {
            HeaderTypeModel::File(f) => seq![entry_of(f)],
            _ => Seq::empty(),
        }
    }
}

pub open spec fn headers_view(hs: Seq<Header>) -> Seq<HeaderModel> {
    hs.map_values(|h: Header| h@)
}

pub open spec fn rar_files_view(fs: Seq<RarFileEntry>) -> Seq<RarFileModel> {
    fs.map_values(|f: RarFileEntry| f@)
}

/// What a RAR archive holds: its entries and its archive-wide fields.
#[derive(Debug)]
pub struct RarArchiveMetadata {
    pub files: Vec<RarFileEntry>,
    /// Where the signature stands in the container.
    pub archive_start: u64,
    pub version: (u8, u8),
    pub multivolume: bool,
    pub volume: u64,
    pub solid: bool,
    pub has_recovery: bool,
    pub locked: bool,
    pub original_name: Option<String>,
    pub created: Option<u64>,
    pub qo_offset: Option<u64>,
    pub rr_offset: Option<u64>,
    pub encryption_header: Option<EncryptionHeader>,
    pub is_last: bool,
    pub headers: Vec<Header>,
}

impl Clone for RarArchiveMetadata {
    fn clone(&self) -> Self {
        RarArchiveMetadata {
            files: self.files.clone(),
            archive_start: self.archive_start,
            version: self.version,
            multivolume: self.multivolume,
            volume: self.volume,
            solid: self.solid,
            has_recovery: self.has_recovery,
            locked: self.locked,
            original_name: self.original_name.clone(),
            created: self.created,
            qo_offset: self.qo_offset,
            rr_offset: self.rr_offset,
            encryption_header: self.encryption_header,
            is_last: self.is_last,
            headers: self.headers.clone(),
        }
    }
}

/// Whether `m` describes the archive that starts at `k`, with leading
/// encryption header `enc` and headers `hs`.
pub open spec fn describes(m: RarArchiveMetadata, k: int, enc: Option<EncryptionHeader>, hs: Seq<HeaderModel>) -> bool {
    let main = hs[0].header->Main_0;
    &&& m.archive_start == k
    &&& m.version == (5u8, 0u8)
    &&& m.encryption_header == enc
    &&& headers_view(m.headers@) == hs
    &&& rar_files_view(m.files@) == file_entries(hs)
    &&& m.multivolume == main.multivolume
    &&& m.volume == main.volume
    &&& m.solid == main.solid
    &&& m.has_recovery == main.has_recovery
    &&& m.locked == main.locked
    &&& m.original_name matches Some(n) ==> main.metadata matches Some(md) && md.name == Some(n@)
    &&& m.original_name is None ==> !(main.metadata matches Some(md) && md.name is Some)
    &&& m.created == match main.metadata {
        Some(md) => md.created,
        None => None,
    }
    &&& m.qo_offset == match main.locator {
        Some(l) => l.quick_open_offset,
        None => None,
    }
    &&& m.rr_offset == match main.locator {
        Some(l) => l.recovery_record_offset,
        None => None,
    }
    &&& m.is_last == hs.last().header->End_0.is_last_volume
}

fn has_signature_at(file: &Reader, k: usize) -> (r: bool)
    ensures
        r == signature_at(file.data@, k as int),
{
    let len = file.data.len();
    if k > len || len - k < 8 {
        return false;
    }
    let d = &file.data;
    let r = d[k] == 0x52 && d[k + 1] == 0x61 && d[k + 2] == 0x72 && d[k + 3] == 0x21 && d[k + 4]
        == 0x1a && d[k + 5] == 0x07 && d[k + 6] == 0x01 && d[k + 7] == 0x00;
    proof {
        let sub = file.data@.subrange(k as int, k + 8);
        if r {
            assert(sub =~= rar_signature());
        } else {
            assert(forall|j: int| 0 <= j < 8 ==> sub[j] == file.data@[k + j]);
            assert(rar_signature()[0] == 0x52 && rar_signature()[1] == 0x61 && rar_signature()[2]
                == 0x72 && rar_signature()[3] == 0x21 && rar_signature()[4] == 0x1a
                && rar_signature()[5] == 0x07 && rar_signature()[6] == 0x01
                && rar_signature()[7] == 0x00);
            assert(sub[0] == d[k as int] && sub[1] == d[k + 1] && sub[2] == d[k + 2] && sub[3]
                == d[k + 3] && sub[4] == d[k + 4] && sub[5] == d[k + 5] && sub[6] == d[k + 6]
                && sub[7] == d[k + 7]);
        }
    }
    r
}

/// The first position below the scan bound where the signature stands.
fn find_signature(file: &Reader) -> (r: Option<usize>)
    ensures
        r matches Some(k) ==> first_signature(file.data@, 0) == Some(k as int) && signature_at(
            file.data@,
            k as int,
        ) && k + 8 <= file.data@.len() <= usize::MAX,
        r is None ==> first_signature(file.data@, 0) is None,
{
    let len = file.data.len();
    let bound = if len < SIGNATURE_SCAN_LIMIT {
        len
    } else {
        SIGNATURE_SCAN_LIMIT
    };
    let mut k: usize = 0;
    while k < bound
        invariant
            bound == scan_bound(file.data@),
            len == file.data@.len(),
            k <= bound,
            first_signature(file.data@, 0) == first_signature(file.data@, k as int),
        decreases bound - k,
    {
        if has_signature_at(file, k) {
            return Some(k);
        }
        k = k + 1;
    }
    None
}

/// The compression that the compression information `ci` describes.
pub fn decode_compression(ci: u64) -> (r: RarCompression)
    ensures
        r == compression_of(ci),
{
    let base = (ci & 0x7c00) >> 10;
    assert(base <= 31) by (bit_vector)
        requires
            base == (ci & 0x7c00) >> 10,
    ;
    assert(base * base <= 961) by (nonlinear_arith)
        requires
            base <= 31,
    ;
    assert(ci & 0x3f <= 0x3f) by (bit_vector);
    assert((ci & 0x380) >> 7 <= 7) by (bit_vector);
    RarCompression {
        version: (ci & 0x3f) as u8,
        solid: ci & 0x40 != 0,
        method: ((ci & 0x380) >> 7) as u8,
        dict_size: base + if base > 0 {
            (base * base) / 32
        } else {
            0
        },
    }
}

fn entry_of_header(f: &FileHeader) -> (r: RarFileEntry)
    ensures
        r@ == entry_of(f@),
{
    let c = decode_compression(f.compression_info);
    RarFileEntry {
        path: f.name.clone(),
        offset: f.offset,
        size: f.size,
        uncompressed_size: f.size_uncompressed,
        is_directory: f.is_directory,
        modified: f.modified,
        checksum: f.checksum,
        encryption: None,
        compression: if c.method > 0 {
            Some(c)
        } else {
            None
        },
        creation_platform: if f.created_with == 0 {
            Some(RarPlatform::Windows)
        } else if f.created_with == 1 {
            Some(RarPlatform::Unix)
        } else {
            None
        },
    }
}

/// Reads the header chain from the current position to the end of the container.
fn read_headers(file: &mut Reader) -> (r: Option<Vec<Header>>)
    ensures
        final(file).data@ == old(file).data@,
        match headers_from(old(file).data@, old(file).pos as int) {
            Some(hs) => r matches Some(v) && headers_view(v@) == hs,
            None => r is None,
        },
{
    let ghost s = file.data@;
    let ghost start = file.pos as int;
    let len = file.data.len();
    let mut headers: Vec<Header> = Vec::new();
    while file.pos < len
        invariant
            file.data@ == s,
            s == old(file).data@,
            start == old(file).pos as int,
            len == s.len(),
            headers_from(s, start) == match headers_from(s, file.pos as int) {
                Some(rest) => Some(headers_view(headers@) + rest),
                None => None::<Seq<HeaderModel>>,
            },
        decreases if file.pos >= len {
            0
        } else {
            len - file.pos
        },
    {
        let at: usize = file.pos;
        let h = match parse_header(file) {
            Some(h) => h,
            None => return None,
        };
        if file.pos <= at {
            return None;
        }
        proof {
            let old_view = headers_view(headers@);
            assert(headers_view(headers@.push(h)) =~= old_view.push(h@));
            if file.pos >= len {
                assert(headers_from(s, file.pos as int) == Some(Seq::<HeaderModel>::empty()));
                assert(old_view + seq![h@] =~= old_view.push(h@) + Seq::<HeaderModel>::empty());
            } else {
                match headers_from(s, file.pos as int) {
                    Some(rest) => {
                        assert(old_view + (seq![h@] + rest) =~= old_view.push(h@) + rest);
                    },
                    None => {},
                }
            }
        }
        headers.push(h);
    }
    proof {
        assert(headers_view(headers@) + Seq::<HeaderModel>::empty() =~= headers_view(headers@));
    }
    Some(headers)
}

/// The entries of the file headers among `headers`, in order.
fn collect_files(headers: &Vec<Header>) -> (r: Vec<RarFileEntry>)
    ensures
        rar_files_view(r@) == file_entries(headers_view(headers@)),
{
    let mut files: Vec<RarFileEntry> = Vec::new();
    let mut i: usize = 0;
    while i < headers.len()
        invariant
            i <= headers@.len(),
            rar_files_view(files@) == file_entries(headers_view(headers@).take(i as int)),
        decreases headers@.len() - i,
    {
        let ghost before = files@;
        let ghost hv = headers_view(headers@);
        proof {
            assert(hv.take(i + 1).drop_last() =~= hv.take(i as int));
            assert(hv.take(i + 1).last() == headers@[i as int]@);
        }
        match &headers[i].header {
            HeaderType::File(f) => {
                let e = entry_of_header(f);
                files.push(e);
                proof {
                    assert(rar_files_view(files@) =~= rar_files_view(before) + seq![e@]);
                }
            },
            _ => {
                proof {
                    assert(rar_files_view(files@) =~= rar_files_view(before) + Seq::<
                        RarFileModel,
                    >::empty());
                }
            },
        }
        i = i + 1;
    }
    proof {
        assert(headers_view(headers@).take(headers@.len() as int) =~= headers_view(headers@));
    }
    files
}

fn clone_name(n: &Option<String>) -> (r: Option<String>)
    ensures
        r matches Some(x) ==> n matches Some(y) && x@ == y@,
        r is None ==> n is None,
{
    match n {
        Some(x) => Some(x.clone()),
        None => None,
    }
}

/// The archive-wide fields, taken from the main header `headers[0]` and the
/// end header last in `headers`.
#[verifier::rlimit(40)]
fn from_chain(k: usize, encryption_header: Option<EncryptionHeader>, headers: Vec<Header>) -> (r: RarArchiveMetadata)
    requires
        headers@.len() > 0,
        headers@[0].header is Main,
        headers@.last().header is End,
    ensures
        describes(r, k as int, encryption_header, headers_view(headers@)),
{
    let ghost hv = headers_view(headers@);
    let n = headers.len();
    let is_last = match &headers[n - 1].header {
        HeaderType::End(e) => e.is_last_volume,
        _ => false,
    };
    let files = collect_files(&headers);
    let mut result = match &headers[0].header {
        HeaderType::Main(main) => {
            let (original_name, created) = match &main.metadata {
                Some(md) => (clone_name(&md.name), md.created),
                None => (None, None),
            };
            let (qo_offset, rr_offset) = match main.locator {
                Some(l) => (l.quick_open_offset, l.recovery_record_offset),
                None => (None, None),
            };
            RarArchiveMetadata {
                files,
                archive_start: k as u64,
                version: (5, 0),
                multivolume: main.multivolume,
                volume: main.volume,
                solid: main.solid,
                has_recovery: main.has_recovery,
                locked: main.locked,
                original_name,
                created,
                qo_offset,
                rr_offset,
                encryption_header,
                is_last,
                headers: Vec::new(),
            }
        },
        _ => RarArchiveMetadata {
            files,
            archive_start: k as u64,
            version: (5, 0),
            multivolume: false,
            volume: 0,
            solid: false,
            has_recovery: false,
            locked: false,
            original_name: None,
            created: None,
            qo_offset: None,
            rr_offset: None,
            encryption_header,
            is_last,
            headers: Vec::new(),
        },
    };
    result.headers = headers;
    proof {
        assert(hv[0] == headers@[0]@);
        assert(hv.last() == headers@.last()@);
    }
    result
}

/// Checks the shape of the chain `headers` and builds the archive's metadata.
fn assemble(k: usize, headers: Vec<Header>) -> (r: Result<RarArchiveMetadata, Error>)
    ensures
        match rar_chain(headers_view(headers@)) {
            Ok((enc, hs)) => r matches Ok(m) && describes(m, k as int, enc, hs),
            Err(e) => r matches Err(x) && x == e,
        },
{
    let mut headers = headers;
    if headers.len() == 0 {
        return Err(Error::Malformed);
    }
    let ghost all = headers_view(headers@);
    let encryption_header = match &headers[0].header {
        HeaderType::Encryption(e) => Some(*e),
        _ => None,
    };
    if encryption_header.is_some() {
        headers.remove(0);
        proof {
            assert(headers_view(headers@) =~= all.drop_first());
        }
    }
    let n = headers.len();
    if n == 0 {
        return Err(Error::Malformed);
    }
    let main_first = match &headers[0].header {
        HeaderType::Main(_) => true,
        _ => false,
    };
    let end_last = match &headers[n - 1].header {
        HeaderType::End(_) => true,
        _ => false,
    };
    proof {
        assert(headers_view(headers@)[0] == headers@[0]@);
        assert(headers_view(headers@).last() == headers@.last()@);
    }
    if !main_first || !end_last {
        return Err(Error::Malformed);
    }
    Ok(from_chain(k, encryption_header, headers))
}

/// Reads a RAR 5 archive: finds the signature within the first ten million
/// bytes, reads the header chain after it to the end of the container, and
/// checks that the chain is well formed: an optional leading encryption
/// header, then a main header first and an end header last.
pub fn metadata(file: &mut Reader) -> (r: Result<RarArchiveMetadata, Error>)
    ensures
        final(file).data@ == old(file).data@,
        match rar_archive(old(file).data@) {
            Ok((k, enc, hs)) => r matches Ok(m) && describes(m, k, enc, hs),
            Err(e) => r matches Err(x) && x == e,
        },
{
    let k = match find_signature(file) {
        Some(k) => k,
        None => return Err(Error::NotFound),
    };
    file.seek(k + 8);
    let headers = match read_headers(file) {
        Some(h) => h,
        None => return Err(Error::Malformed),
    };
    assemble(k, headers)
}

/// The stored bytes of `entry`; `Unsupported` for a compressed entry.
pub fn get_file(file: &mut Reader, entry: &RarFileEntry) -> (r: Result<Vec<u8>, Error>)
    ensures
        final(file).data@ == old(file).data@,
        entry.compression is Some ==> r == Err::<Vec<u8>, Error>(Error::Unsupported),
        entry.compression is None && entry.offset + entry.size <= old(file).data@.len() ==> (
        r matches Ok(v) && v@ == old(file).data@.subrange(
            entry.offset as int,
            entry.offset + entry.size,
        )),
        entry.compression is None && entry.offset + entry.size > old(file).data@.len() ==> r
            == Err::<Vec<u8>, Error>(Error::Malformed),
{
    if entry.compression.is_some() {
        return Err(Error::Unsupported);
    }
    let len = file.size();
    if entry.offset > len as u64 {
        return Err(Error::Malformed);
    }
    file.seek(entry.offset as usize);
    match file.read_bytes(entry.size) {
        Some(v) => Ok(v),
        None => Err(Error::Malformed),
    }
}

/// Whether the CRC-32 of `file`'s stored bytes matches its recorded checksum:
/// `None` when it records none, `Some(false)` when the bytes do not lie within
/// the container, and `Unsupported` for a compressed entry.
pub fn check_integrity(source: &Reader, file: &RarFileEntry) -> (r: Result<Option<bool>, Error>)
    ensures
        file.compression is Some ==> r == Err::<Option<bool>, Error>(Error::Unsupported),
        file.compression is None ==> r == Ok::<Option<bool>, Error>(
            match file.checksum {
                None => None,
                Some(c) => Some(
                    file.offset + file.size <= source.data@.len() && crc32_of(
                        source.data@.subrange(file.offset as int, file.offset + file.size),
                    ) == c,
                ),
            },
        ),
{
    if file.compression.is_some() {
        return Err(Error::Unsupported);
    }
    let checksum = match file.checksum {
        Some(c) => c,
        None => return Ok(None),
    };
    match crc32::hash(source, file.offset, file.size) {
        Some(h) => Ok(Some(h == checksum)),
        None => Ok(Some(false)),
    }
}

/// Whether an entry passes its check: entries without a recorded checksum
/// pass, and so do compressed ones, whose checksum covers data this library
/// does not decompress.
pub open spec fn entry_intact(source: Seq<u8>, f: RarFileModel) -> bool {
    f.compression is None ==> match f.checksum {
        None => true,
        Some(c) => f.offset + f.size <= source.len() && crc32_of(
            source.subrange(f.offset as int, f.offset + f.size),
        ) == c,
    }
}

/// Whether every entry passes its check.
pub fn check_integrity_all(source: &Reader, files: &Vec<RarFileEntry>) -> (r: bool)
    ensures
        r == forall|k: int| 0 <= k < files@.len() ==> entry_intact(source.data@, #[trigger] files@[k]@),
{
    let mut i: usize = 0;
    while i < files.len()
        invariant
            i <= files@.len(),
            forall|k: int| 0 <= k < i ==> entry_intact(source.data@, #[trigger] files@[k]@),
        decreases files@.len() - i,
    {
        match check_integrity(source, &files[i]) {
            Ok(Some(false)) => {
                assert(!entry_intact(source.data@, files@[i as int]@));
                return false;
            },
            _ => {},
        }
        i = i + 1;
    }
    true
}

/// Whether a header's leading checksum is the CRC-32 of its range.
pub open spec fn header_intact(source: Seq<u8>, checksum: u32, offset: u64, size: u64) -> bool {
    offset + size <= source.len() && crc32_of(source.subrange(offset as int, offset + size))
        == checksum
}

/// Whether every header's leading checksum, the encryption header's included
/// when there is one, is the CRC-32 of the range it covers.
pub fn check_integrity_headers(source: &Reader, metadata: &RarArchiveMetadata) -> (r: bool)
    ensures
        r == ((forall|k: int|
            0 <= k < metadata.headers@.len() ==> header_intact(
                source.data@,
                (#[trigger] metadata.headers@[k]).checksum,
                metadata.headers@[k].offset,
                metadata.headers@[k].size,
            )) && match metadata.encryption_header {
            Some(e) => header_intact(source.data@, e.checksum, e.offset, e.size),
            None => true,
        }),
{
    let mut i: usize = 0;
    while i < metadata.headers.len()
        invariant
            i <= metadata.headers@.len(),
            forall|k: int|
                0 <= k < i ==> header_intact(
                    source.data@,
                    (#[trigger] metadata.headers@[k]).checksum,
                    metadata.headers@[k].offset,
                    metadata.headers@[k].size,
                ),
        decreases metadata.headers@.len() - i,
    {
        let h = &metadata.headers[i];
        match crc32::hash(source, h.offset, h.size) {
            Some(c) => {
                if c != h.checksum {
                    return false;
                }
            },
            None => {
                return false;
            },
        }
        i = i + 1;
    }
    match metadata.encryption_header {
        Some(e) => match crc32::hash(source, e.offset, e.size) {
            Some(c) => c == e.checksum,
            None => false,
        },
        None => true,
    }
}

} // verus!
