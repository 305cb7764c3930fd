//! ZIP archives, read and written as a sequence of local file headers.
use crate::binary::{
    fits, le_at, le_bytes, lemma_le_bytes_len, lemma_le_round_trip, lemma_pow256_values,
    write_bytes, write_u16le, write_u32le, Reader,
};
use crate::helpers::crc32::{self, crc32_of};
use crate::helpers::msdos::{
    self, dos_date, dos_representable, dos_time, dos_timestamp, lemma_dos_round_trip,
};
use crate::helpers::text::{string_bytes, utf8_string};
use crate::types::Timestamp;
use crate::Error;
use vstd::prelude::*;
use vstd::utf8::*;

verus! {

/// The signature that opens each local file header: `PK\x03\x04`.
pub const LOCAL_HEADER_SIGNATURE: u32 = 0x04034b50;

/// The compression method that a local file header declares.
#[derive(Debug, Clone, Copy, PartialEq, Eq, Structural)]
pub enum ZipCompression {
    Stored,
    Shrunk,
    Reduced1,
    Reduced2,
    Reduced3,
    Reduced4,
    Imploded,
    Tokenizing,
    Deflated,
    Deflated64,
    Dcli,
    Reserved,
    Bzip2,
    Reserved2,
    Lzma,
    Reserved3,
    Cmpsc,
    Reserved4,
    Terse,
    Lz77,
    Deprecated,
    Zstd,
    Mp3,
    Xz,
    Jpeg,
    Wavpack,
    Ppmd,
    Aes,
    Unknown,
}

/// The method that the numeric `code` of a local file header names.
pub open spec fn compression_of(code: u16) -> ZipCompression {
    match code {
        0 => ZipCompression::Stored,
        1 => ZipCompression::Shrunk,
        2 => ZipCompression::Reduced1,
        3 => ZipCompression::Reduced2,
        4 => ZipCompression::Reduced3,
        5 => ZipCompression::Reduced4,
        6 => ZipCompression::Imploded,
        7 => ZipCompression::Tokenizing,
        8 => ZipCompression::Deflated,
        9 => ZipCompression::Deflated64,
        10 => ZipCompression::Dcli,
        11 => ZipCompression::Reserved,
        12 => ZipCompression::Bzip2,
        13 => ZipCompression::Reserved2,
        14 => ZipCompression::Lzma,
        15 => ZipCompression::Reserved3,
        16 => ZipCompression::Cmpsc,
        17 => ZipCompression::Reserved4,
        18 => ZipCompression::Terse,
        19 => ZipCompression::Lz77,
        20 => ZipCompression::Deprecated,
        93 => ZipCompression::Zstd,
        94 => ZipCompression::Mp3,
        95 => ZipCompression::Xz,
        96 => ZipCompression::Jpeg,
        97 => ZipCompression::Wavpack,
        98 => ZipCompression::Ppmd,
        99 => ZipCompression::Aes,
        _ => ZipCompression::Unknown,
    }
}

impl ZipCompression {
    /// The method that the numeric `code` of a local file header names.
    pub fn from_code(code: u16) -> (r: ZipCompression)
        ensures
            r == compression_of(code),
    {
        match code {
            0 => ZipCompression::Stored,
            1 => ZipCompression::Shrunk,
            2 => ZipCompression::Reduced1,
            3 => ZipCompression::Reduced2,
            4 => ZipCompression::Reduced3,
            5 => ZipCompression::Reduced4,
            6 => ZipCompression::Imploded,
            7 => ZipCompression::Tokenizing,
            8 => ZipCompression::Deflated,
            9 => ZipCompression::Deflated64,
            10 => ZipCompression::Dcli,
            11 => ZipCompression::Reserved,
            12 => ZipCompression::Bzip2,
            13 => ZipCompression::Reserved2,
            14 => ZipCompression::Lzma,
            15 => ZipCompression::Reserved3,
            16 => ZipCompression::Cmpsc,
            17 => ZipCompression::Reserved4,
            18 => ZipCompression::Terse,
            19 => ZipCompression::Lz77,
            20 => ZipCompression::Deprecated,
            93 => ZipCompression::Zstd,
            94 => ZipCompression::Mp3,
            95 => ZipCompression::Xz,
            96 => ZipCompression::Jpeg,
            97 => ZipCompression::Wavpack,
            98 => ZipCompression::Ppmd,
            99 => ZipCompression::Aes,
            _ => ZipCompression::Unknown,
        }
    }

    /// The method's lower-case name.
    pub open spec fn spec_name(&self) -> Seq<char> {
        match self {
            ZipCompression::Stored => "stored"@,
            ZipCompression::Shrunk => "shrunk"@,
            ZipCompression::Reduced1 => "reduced1"@,
            ZipCompression::Reduced2 => "reduced2"@,
            ZipCompression::Reduced3 => "reduced3"@,
            ZipCompression::Reduced4 => "reduced4"@,
            ZipCompression::Imploded => "imploded"@,
            ZipCompression::Tokenizing => "tokenizing"@,
            ZipCompression::Deflated => "deflated"@,
            ZipCompression::Deflated64 => "deflated64"@,
            ZipCompression::Dcli => "dcli"@,
            ZipCompression::Reserved => "reserved"@,
            ZipCompression::Bzip2 => "bzip2"@,
            ZipCompression::Reserved2 => "reserved2"@,
            ZipCompression::Lzma => "lzma"@,
            ZipCompression::Reserved3 => "reserved3"@,
            ZipCompression::Cmpsc => "cmpsc"@,
            ZipCompression::Reserved4 => "reserved4"@,
            ZipCompression::Terse => "terse"@,
            ZipCompression::Lz77 => "lz77"@,
            ZipCompression::Deprecated => "deprecated"@,
            ZipCompression::Zstd => "zstd"@,
            ZipCompression::Mp3 => "mp3"@,
            ZipCompression::Xz => "xz"@,
            ZipCompression::Jpeg => "jpeg"@,
            ZipCompression::Wavpack => "wavpack"@,
            ZipCompression::Ppmd => "ppmd"@,
            ZipCompression::Aes => "aes"@,
            ZipCompression::Unknown => "unknown"@,
        }
    }

    /// The method's lower-case name, such as `"stored"` or `"deflated"`.
    pub fn as_str(&self) -> (r: &'static str)
        ensures
            r@ == self.spec_name(),
    {
        match self {
            ZipCompression::Stored => "stored",
            ZipCompression::Shrunk => "shrunk",
            ZipCompression::Reduced1 => "reduced1",
            ZipCompression::Reduced2 => "reduced2",
            ZipCompression::Reduced3 => "reduced3",
            ZipCompression::Reduced4 => "reduced4",
            ZipCompression::Imploded => "imploded",
            ZipCompression::Tokenizing => "tokenizing",
            ZipCompression::Deflated => "deflated",
            ZipCompression::Deflated64 => "deflated64",
            ZipCompression::Dcli => "dcli",
            ZipCompression::Reserved => "reserved",
            ZipCompression::Bzip2 => "bzip2",
            ZipCompression::Reserved2 => "reserved2",
            ZipCompression::Lzma => "lzma",
            ZipCompression::Reserved3 => "reserved3",
            ZipCompression::Cmpsc => "cmpsc",
            ZipCompression::Reserved4 => "reserved4",
            ZipCompression::Terse => "terse",
            ZipCompression::Lz77 => "lz77",
            ZipCompression::Deprecated => "deprecated",
            ZipCompression::Zstd => "zstd",
            ZipCompression::Mp3 => "mp3",
            ZipCompression::Xz => "xz",
            ZipCompression::Jpeg => "jpeg",
            ZipCompression::Wavpack => "wavpack",
            ZipCompression::Ppmd => "ppmd",
            ZipCompression::Aes => "aes",
            ZipCompression::Unknown => "unknown",
        }
    }
}

/// One entry of a ZIP archive, as its local file header describes it.
#[derive(Debug, Clone)]
pub struct ZipFileEntry {
    pub path: String,
    /// Where the entry's payload starts in the container.
    pub offset: u64,
    /// The payload's stored (compressed) size.
    pub size: u64,
    pub modified: Timestamp,
    pub is_directory: bool,
    pub uncompressed_size: u32,
    pub checksum: u32,
    pub extra_field: Vec<u8>,
    pub version: u16,
    pub bit_flag: u16,
    pub compression: ZipCompression,
}

/// The mathematical content of a [`ZipFileEntry`].
pub struct ZipEntryModel {
    pub path: Seq<char>,
    pub offset: nat,
    pub size: nat,
    pub modified: Timestamp,
    pub is_directory: bool,
    pub uncompressed_size: u32,
    pub checksum: u32,
    pub extra_field: Seq<u8>,
    pub version: u16,
    pub bit_flag: u16,
    pub compression: ZipCompression,
}

impl View for ZipFileEntry {
    type V = ZipEntryModel;

    open spec fn view(&self) -> ZipEntryModel {
        ZipEntryModel {
            path: self.path@,
            offset: self.offset as nat,
            size: self.size as nat,
            modified: self.modified,
            is_directory: self.is_directory,
            uncompressed_size: self.uncompressed_size,
            checksum: self.checksum,
            extra_field: self.extra_field@,
            version: self.version,
            bit_flag: self.bit_flag,
            compression: self.compression,
        }
    }
}

/// The entries of a ZIP archive, in the order of their local file headers.
#[derive(Debug, Clone)]
pub struct ZipArchiveMetadata {
    pub files: Vec<ZipFileEntry>,
}

impl crate::formats::ArchiveFormat for ZipArchiveMetadata {
    fn get_type(&self) -> crate::formats::ArchiveFormatType {
        crate::formats::ArchiveFormatType::ZipLike
    }
}

/// The models of `files`, in order.
pub open spec fn entries_view(files: Seq<ZipFileEntry>) -> Seq<ZipEntryModel> {
    files.map_values(|e: ZipFileEntry| e@)
}

/// Whether a name, as bytes, marks a directory: it ends with `/`.
pub open spec fn names_directory(name: Seq<u8>) -> bool {
    name.len() > 0 && name.last() == 0x2f
}

/// The entry that the local file header whose fields start at `i` describes,
/// if the header, its name, its extra field and its payload lie within `s`
/// and the name is UTF-8.
pub open spec fn local_header_at(s: Seq<u8>, i: int) -> Option<ZipEntryModel> {
    if !fits(s, i, 26) {
        None
    } else {
        let name_len = le_at(s, i + 22, 2) as int;
        let extra_len = le_at(s, i + 24, 2) as int;
        let size = le_at(s, i + 14, 4) as int;
        let name = s.subrange(i + 26, i + 26 + name_len);
        let offset = i + 26 + name_len + extra_len;
        if !fits(s, i + 26, name_len + extra_len + size) || !valid_utf8(name) {
            None
        } else {
            Some(
                ZipEntryModel {
                    path: decode_utf8(name),
                    offset: offset as nat,
                    size: size as nat,
                    modified: dos_timestamp(
                        le_at(s, i + 8, 2) as u16,
                        le_at(s, i + 6, 2) as u16,
                    ),
                    is_directory: names_directory(name),
                    uncompressed_size: le_at(s, i + 18, 4) as u32,
                    checksum: le_at(s, i + 10, 4) as u32,
                    extra_field: s.subrange(i + 26 + name_len, offset),
                    version: le_at(s, i, 2) as u16,
                    bit_flag: le_at(s, i + 2, 2) as u16,
                    compression: compression_of(le_at(s, i + 4, 2) as u16),
                },
            )
        }
    }
}

/// The entries of the run of local file headers that starts at `i`. The run
/// ends at the first position that does not hold the signature; a header that
/// does not lie within `s` makes the archive malformed.
pub open spec fn zip_entries(s: Seq<u8>, i: int) -> Result<Seq<ZipEntryModel>, Error>
    decreases s.len() - i,
{
    if !fits(s, i, 4) || le_at(s, i, 4) != LOCAL_HEADER_SIGNATURE {
        Ok(Seq::empty())
    } else {
        match local_header_at(s, i + 4) {
            None => Err(Error::Malformed),
            Some(e) => if e.offset + e.size > i {
                match zip_entries(s, (e.offset + e.size) as int) {
                    Ok(rest) => Ok(seq![e] + rest),
                    Err(x) => Err(x),
                }
            } else {
                Err(Error::Malformed)
            },
        }
    }
}

/// Reads the local file header whose fields start at the current position
/// (just after its signature) and moves past its payload.
fn read_local_header(file: &mut Reader) -> (r: Result<ZipFileEntry, Error>)
    ensures
        final(file).data@ == old(file).data@,
        match local_header_at(old(file).data@, old(file).pos as int) {
            Some(e) => r matches Ok(x) && x@ == e && final(file).pos == e.offset + e.size,
            None => r == Err::<ZipFileEntry, Error>(Error::Malformed),
        },
{
    if !file.has(26) {
        return Err(Error::Malformed);
    }
    let version = file.read_u16le().unwrap();
    let bit_flag = file.read_u16le().unwrap();
    let method = file.read_u16le().unwrap();
    let lastmod_time = file.read_u16le().unwrap();
    let lastmod_date = file.read_u16le().unwrap();
    let checksum = file.read_u32le().unwrap();
    let size = file.read_u32le().unwrap();
    let uncompressed_size = file.read_u32le().unwrap();
    let name_length = file.read_u16le().unwrap();
    let extra_length = file.read_u16le().unwrap();
    let name_bytes = match file.read_bytes(name_length as u64) {
        Some(b) => b,
        None => return Err(Error::Malformed),
    };
    let extra_field = match file.read_bytes(extra_length as u64) {
        Some(b) => b,
        None => return Err(Error::Malformed),
    };
    let offset = file.position();
    if !file.jump(size as u64) {
        return Err(Error::Malformed);
    }
    let n = name_bytes.len();
    let is_directory = n > 0 && name_bytes[n - 1] == 0x2f;
    let path = match utf8_string(name_bytes) {
        Some(p) => p,
        None => return Err(Error::Malformed),
    };
    Ok(ZipFileEntry {
        path,
        offset: offset as u64,
        size: size as u64,
        modified: msdos::parse(lastmod_date, lastmod_time),
        is_directory,
        uncompressed_size,
        checksum,
        extra_field,
        version,
        bit_flag,
        compression: ZipCompression::from_code(method),
    })
}

/// Reads the run of local file headers that starts at the current position:
/// header after header while the next four bytes hold the local file header
/// signature. Payloads are skipped, never decoded.
pub fn metadata(file: &mut Reader) -> (r: Result<ZipArchiveMetadata, Error>)
    ensures
        final(file).data@ == old(file).data@,
        match zip_entries(old(file).data@, old(file).pos as int) {
            Ok(es) => r matches Ok(m) && entries_view(m.files@) == es,
            Err(e) => r == Err::<ZipArchiveMetadata, Error>(e),
        },
{
    let ghost s = file.data@;
    let ghost start = file.pos as int;
    let mut files: Vec<ZipFileEntry> = Vec::new();
    loop
        invariant
            file.data@ == s,
            s == old(file).data@,
            start == old(file).pos as int,
            zip_entries(s, start) == match zip_entries(s, file.pos as int) {
                Ok(rest) => Ok(entries_view(files@) + rest),
                Err(e) => Err::<Seq<ZipEntryModel>, Error>(e),
            },
        decreases s.len() - file.pos,
    {
        let ghost at = file.pos as int;
        let signature = file.read_u32le();
        match signature {
            Some(sig) => {
                if sig != LOCAL_HEADER_SIGNATURE {
                    proof {
                        assert(entries_view(files@) + Seq::<ZipEntryModel>::empty() =~= entries_view(files@));
                    }
                    return Ok(ZipArchiveMetadata { files });
                }
            },
            None => {
                proof {
                    assert(entries_view(files@) + Seq::<ZipEntryModel>::empty() =~= entries_view(files@));
                }
                return Ok(ZipArchiveMetadata { files });
            },
        }
        let entry = read_local_header(file);
        match entry {
            Ok(e) => {
                proof {
                    let m = e@;
                    let old_view = entries_view(files@);
                    assert(entries_view(files@.push(e)) =~= old_view.push(m));
                    match zip_entries(s, file.pos as int) {
                        Ok(rest) => {
                            assert(old_view + (seq![m] + rest) =~= old_view.push(m) + rest);
                        },
                        Err(_) => {},
                    }
                }
                files.push(e);
            },
            Err(x) => {
                return Err(x);
            },
        }
    }
}

/// The stored bytes of `entry`: the range `[offset, offset + size)` of the
/// container. The reader ends after that range.
pub fn get_file(file: &mut Reader, entry: &ZipFileEntry) -> (r: Result<Vec<u8>, Error>)
    ensures
        final(file).data@ == old(file).data@,
        entry.offset + entry.size <= old(file).data@.len() ==> (r matches Ok(v) && v@
            == old(file).data@.subrange(entry.offset as int, entry.offset + entry.size)),
        entry.offset + entry.size > old(file).data@.len() ==> r == Err::<Vec<u8>, Error>(
            Error::Malformed,
        ),
{
    let len = file.size();
    if entry.offset > len as u64 {
        return Err(Error::Malformed);
    }
    file.seek(entry.offset as usize);
    match file.read_bytes(entry.size) {
        Some(v) => Ok(v),
        None => Err(Error::Malformed),
    }
}

/// Whether the CRC-32 of `file`'s stored bytes matches its recorded checksum;
/// `false` when those bytes do not lie within the container.
pub fn check_integrity(source: &Reader, file: &ZipFileEntry) -> (r: bool)
    ensures
        r == (file.offset + file.size <= source.data@.len() && crc32_of(
            source.data@.subrange(file.offset as int, file.offset + file.size),
        ) == file.checksum),
{
    match crc32::hash(source, file.offset, file.size) {
        Some(h) => h == file.checksum,
        None => false,
    }
}

/// Whether every entry passes [`check_integrity`].
pub fn check_integrity_all(source: &Reader, files: &Vec<ZipFileEntry>) -> (r: bool)
    ensures
        r == forall|k: int|
            0 <= k < files@.len() ==> (#[trigger] files@[k]).offset + files@[k].size
                <= source.data@.len() && crc32_of(
                source.data@.subrange(files@[k].offset as int, files@[k].offset + files@[k].size),
            ) == files@[k].checksum,
{
    let mut i: usize = 0;
    while i < files.len()
        invariant
            i <= files@.len(),
            forall|k: int|
                0 <= k < i ==> (#[trigger] files@[k]).offset + files@[k].size
                    <= source.data@.len() && crc32_of(
                    source.data@.subrange(files@[k].offset as int, files@[k].offset + files@[k].size),
                ) == files@[k].checksum,
        decreases files@.len() - i,
    {
        if !check_integrity(source, &files[i]) {
            return false;
        }
        i = i + 1;
    }
    true
}

/// A file to be written into a ZIP archive, with its content in memory.
#[derive(Debug, Clone)]
pub struct ZipFile {
    pub path: String,
    pub modified: Timestamp,
    pub is_directory: bool,
    /// The CRC-32 of `source`, as it is to be recorded.
    pub checksum: u32,
    pub source: Vec<u8>,
}

/// The mathematical content of a [`ZipFile`].
pub struct ZipFileModel {
    pub path: Seq<char>,
    pub modified: Timestamp,
    pub is_directory: bool,
    pub checksum: u32,
    pub source: Seq<u8>,
}

impl View for ZipFile {
    type V = ZipFileModel;

    open spec fn view(&self) -> ZipFileModel {
        ZipFileModel {
            path: self.path@,
            modified: self.modified,
            is_directory: self.is_directory,
            checksum: self.checksum,
            source: self.source@,
        }
    }
}

/// The files that [`write`] puts into an archive, in order.
#[derive(Debug, Clone)]
pub struct ZipArchiveData {
    pub files: Vec<ZipFile>,
}

/// The models of `files`, in order.
pub open spec fn files_view(files: Seq<ZipFile>) -> Seq<ZipFileModel> {
    files.map_values(|f: ZipFile| f@)
}

/// Whether the writer can hold `f` in a stored local file header: a regular
/// file whose time MS-DOS packing can hold, whose size fits in 32 bits and
/// whose name fits in 16.
pub open spec fn writable(f: ZipFileModel) -> bool {
    !f.is_directory && dos_representable(f.modified) && f.source.len() < 0x1_0000_0000
        && encode_utf8(f.path).len() < 0x1_0000
}

/// The stored local file header of `f`, followed by its bytes.
pub open spec fn zip_record(f: ZipFileModel) -> Seq<u8> {
    let name = encode_utf8(f.path);
    le_bytes(LOCAL_HEADER_SIGNATURE as nat, 4) + le_bytes(20, 2) + le_bytes(0, 2) + le_bytes(0, 2)
        + le_bytes(dos_time(f.modified) as nat, 2) + le_bytes(dos_date(f.modified) as nat, 2)
        + le_bytes(f.checksum as nat, 4) + le_bytes(f.source.len(), 4) + le_bytes(
        f.source.len(),
        4,
    ) + le_bytes(name.len(), 2) + le_bytes(0, 2) + name + f.source
}

/// The records of `files`, one after another.
pub open spec fn zip_image(files: Seq<ZipFileModel>) -> Seq<u8>
    decreases files.len(),
{
    if files.len() == 0 {
        Seq::empty()
    } else {
        zip_record(files[0]) + zip_image(files.drop_first())
    }
}

proof fn lemma_zip_image_push(files: Seq<ZipFileModel>, f: ZipFileModel)
    ensures
        zip_image(files.push(f)) == zip_image(files) + zip_record(f),
    decreases files.len(),
{
    if files.len() == 0 {
        assert(files.push(f).drop_first() =~= Seq::<ZipFileModel>::empty());
        assert(files.push(f)[0] == f);
        assert(zip_image(files.push(f).drop_first()) == Seq::<u8>::empty());
        assert(zip_image(files) == Seq::<u8>::empty());
        assert(zip_image(files.push(f)) =~= zip_image(files) + zip_record(f));
    } else {
        lemma_zip_image_push(files.drop_first(), f);
        assert(files.push(f).drop_first() =~= files.drop_first().push(f));
        assert(files.push(f)[0] == files[0]);
        let df = files.drop_first();
        assert(zip_image(files.push(f)) == zip_record(files[0]) + zip_image(df.push(f)));
        assert(zip_image(files) == zip_record(files[0]) + zip_image(df));
        assert(zip_image(files.push(f)) =~= zip_image(files) + zip_record(f));
    }
}

proof fn lemma_signature_bytes()
    ensures
        le_bytes(LOCAL_HEADER_SIGNATURE as nat, 4) == seq![0x50u8, 0x4b, 0x03, 0x04],
{
    assert(le_bytes(0, 0) =~= Seq::<u8>::empty());
    assert(le_bytes(0x04, 1) =~= seq![0x04u8]);
    assert(le_bytes(0x0403, 2) =~= seq![0x03u8, 0x04]);
    assert(le_bytes(0x04034b, 3) =~= seq![0x4bu8, 0x03, 0x04]);
    assert(le_bytes(0x04034b50, 4) =~= seq![0x50u8, 0x4b, 0x03, 0x04]);
}

/// Appends the stored local file header of `f` and then its bytes.
fn write_record(target: &mut Vec<u8>, f: &ZipFile)
    requires
        writable(f@),
    ensures
        final(target)@ == old(target)@ + zip_record(f@),
{
    let ghost at = target@;
    let name = string_bytes(&f.path);
    let (date, time) = msdos::serialize(&f.modified);
    let size = f.source.len() as u32;
    write_bytes(target, &[0x50u8, 0x4b, 0x03, 0x04]);
    write_u16le(target, 20);
    write_u16le(target, 0);
    write_u16le(target, 0);
    write_u16le(target, time);
    write_u16le(target, date);
    write_u32le(target, f.checksum);
    write_u32le(target, size);
    write_u32le(target, size);
    write_u16le(target, name.len() as u16);
    write_u16le(target, 0);
    write_bytes(target, name.as_slice());
    write_bytes(target, f.source.as_slice());
    proof {
        lemma_pow256_values();
        lemma_signature_bytes();
        assert(target@ =~= at + zip_record(f@));
    }
}

/// Writes `data` as a ZIP archive after the bytes already in `target`: for
/// each file, in order, a stored local file header and then its bytes. Fails
/// with `Unsupported`, and leaves `target` as it was, when a file is a
/// directory or does not fit a local file header.
pub fn write(target: &mut Vec<u8>, data: &ZipArchiveData) -> (r: Result<(), Error>)
    ensures
        (forall|k: int| 0 <= k < data.files@.len() ==> writable(#[trigger] data.files@[k]@)) ==> (
        r is Ok && final(target)@ == old(target)@ + zip_image(files_view(data.files@))),
        !(forall|k: int| 0 <= k < data.files@.len() ==> writable(#[trigger] data.files@[k]@))
            ==> (r == Err::<(), Error>(Error::Unsupported) && final(target)@ == old(target)@),
{
    let n = data.files.len();
    let mut i: usize = 0;
    while i < n
        invariant
            n == data.files@.len(),
            i <= n,
            forall|k: int| 0 <= k < i ==> writable(#[trigger] data.files@[k]@),
        decreases n - i,
    {
        let f = &data.files[i];
        let name = string_bytes(&f.path);
        let m = f.modified;
        if f.is_directory || m.year < 1980 || m.year > 2107 || m.month >= 16 || m.day >= 32
            || m.hour >= 32 || m.minute >= 64 || m.second >= 64
            || f.source.len() > 0xffff_ffff || name.len() > 0xffff {
            assert(!writable(data.files@[i as int]@));
            return Err(Error::Unsupported);
        }
        i = i + 1;
    }
    let ghost before = target@;
    let mut i: usize = 0;
    while i < n
        invariant
            n == data.files@.len(),
            i <= n,
            forall|k: int| 0 <= k < n ==> writable(#[trigger] data.files@[k]@),
            target@ == before + zip_image(files_view(data.files@).take(i as int)),
        decreases n - i,
    {
        let f = &data.files[i];
        assert(writable(data.files@[i as int]@));
        write_record(target, f);
        proof {
            let fs = files_view(data.files@);
            assert(fs.take(i + 1) =~= fs.take(i as int).push(f@));
            lemma_zip_image_push(fs.take(i as int), f@);
        }
        i = i + 1;
    }
    proof {
        assert(files_view(data.files@).take(n as int) =~= files_view(data.files@));
    }
    Ok(())
}

proof fn lemma_subrange_in_middle(pre: Seq<u8>, r: Seq<u8>, tail: Seq<u8>, a: int, b: int)
    requires
        0 <= a <= b <= r.len(),
    ensures
        (pre + r + tail).subrange(pre.len() + a, pre.len() + b) == r.subrange(a, b),
{
    assert((pre + r + tail).subrange(pre.len() + a, pre.len() + b) =~= r.subrange(a, b));
}

/// How the parser reads the record of `f` when it stands between `pre` and `tail`.
proof fn lemma_zip_record_parse(pre: Seq<u8>, f: ZipFileModel, tail: Seq<u8>)
    requires
        writable(f),
    ensures
        ({
            let s = pre + zip_record(f) + tail;
            let p = pre.len() as int;
            let name_len = encode_utf8(f.path).len() as int;
            &&& fits(s, p, 4)
            &&& le_at(s, p, 4) == LOCAL_HEADER_SIGNATURE
            &&& local_header_at(s, p + 4) matches Some(e)
            &&& e.offset == p + 30 + name_len
            &&& e.offset + e.size == p + zip_record(f).len()
            &&& e.path == f.path
            &&& e.size == f.source.len()
            &&& (f.modified.valid() && f.modified.second % 2 == 0) ==> e.modified == f.modified
            &&& e.checksum == f.checksum
            &&& e.compression == ZipCompression::Stored
            &&& e.uncompressed_size == f.source.len()
            &&& s.subrange(e.offset as int, (e.offset + e.size) as int) == f.source
        }),
{
    let s = pre + zip_record(f) + tail;
    let r = zip_record(f);
    let p = pre.len() as int;
    let name = encode_utf8(f.path);
    let n = f.source.len();
    lemma_pow256_values();
    lemma_le_bytes_len(LOCAL_HEADER_SIGNATURE as nat, 4);
    lemma_le_bytes_len(20, 2);
    lemma_le_bytes_len(0, 2);
    lemma_le_bytes_len(dos_time(f.modified) as nat, 2);
    lemma_le_bytes_len(dos_date(f.modified) as nat, 2);
    lemma_le_bytes_len(f.checksum as nat, 4);
    lemma_le_bytes_len(n, 4);
    lemma_le_bytes_len(name.len(), 2);
    lemma_le_round_trip(LOCAL_HEADER_SIGNATURE as nat, 4);
    lemma_le_round_trip(20, 2);
    lemma_le_round_trip(0, 2);
    lemma_le_round_trip(dos_time(f.modified) as nat, 2);
    lemma_le_round_trip(dos_date(f.modified) as nat, 2);
    lemma_le_round_trip(f.checksum as nat, 4);
    lemma_le_round_trip(n, 4);
    lemma_le_round_trip(name.len(), 2);
    assert(r.len() == 30 + name.len() as int + n);
    assert(r.subrange(0, 4) =~= le_bytes(LOCAL_HEADER_SIGNATURE as nat, 4));
    assert(r.subrange(4, 6) =~= le_bytes(20, 2));
    assert(r.subrange(6, 8) =~= le_bytes(0, 2));
    assert(r.subrange(8, 10) =~= le_bytes(0, 2));
    assert(r.subrange(10, 12) =~= le_bytes(dos_time(f.modified) as nat, 2));
    assert(r.subrange(12, 14) =~= le_bytes(dos_date(f.modified) as nat, 2));
    assert(r.subrange(14, 18) =~= le_bytes(f.checksum as nat, 4));
    assert(r.subrange(18, 22) =~= le_bytes(n, 4));
    assert(r.subrange(22, 26) =~= le_bytes(n, 4));
    assert(r.subrange(26, 28) =~= le_bytes(name.len(), 2));
    assert(r.subrange(28, 30) =~= le_bytes(0, 2));
    assert(r.subrange(30, 30 + name.len() as int) =~= name);
    assert(r.subrange(30 + name.len() as int, 30 + name.len() as int) =~= Seq::<u8>::empty());
    assert(r.subrange(30 + name.len() as int, r.len() as int) =~= f.source);
    lemma_subrange_in_middle(pre, r, tail, 0, 4);
    lemma_subrange_in_middle(pre, r, tail, 4, 6);
    lemma_subrange_in_middle(pre, r, tail, 6, 8);
    lemma_subrange_in_middle(pre, r, tail, 8, 10);
    lemma_subrange_in_middle(pre, r, tail, 10, 12);
    lemma_subrange_in_middle(pre, r, tail, 12, 14);
    lemma_subrange_in_middle(pre, r, tail, 14, 18);
    lemma_subrange_in_middle(pre, r, tail, 18, 22);
    lemma_subrange_in_middle(pre, r, tail, 22, 26);
    lemma_subrange_in_middle(pre, r, tail, 26, 28);
    lemma_subrange_in_middle(pre, r, tail, 28, 30);
    lemma_subrange_in_middle(pre, r, tail, 30, 30 + name.len() as int);
    lemma_subrange_in_middle(pre, r, tail, 30 + name.len() as int, 30 + name.len() as int);
    lemma_subrange_in_middle(pre, r, tail, 30 + name.len() as int, r.len() as int);
    if f.modified.valid() && f.modified.second % 2 == 0 {
        lemma_dos_round_trip(f.modified);
    }
    broadcast use vstd::utf8::encode_utf8_valid_utf8, vstd::utf8::encode_utf8_decode_utf8;

    assert(dos_time(f.modified) as nat as u16 == dos_time(f.modified));
    assert(dos_date(f.modified) as nat as u16 == dos_date(f.modified));
}

/// Whether the parsed entry `e` of archive `s` carries the path, size (stored
/// and uncompressed) and checksum of `f`, stored uncompressed, with `f`'s
/// bytes as its content, and `f`'s modification time wherever that time
/// exists and has an even second (MS-DOS packing halves the seconds).
pub open spec fn entry_matches(e: ZipEntryModel, f: ZipFileModel, s: Seq<u8>) -> bool {
    &&& e.path == f.path
    &&& e.size == f.source.len()
    &&& (f.modified.valid() && f.modified.second % 2 == 0) ==> e.modified == f.modified
    &&& e.uncompressed_size == f.source.len()
    &&& e.checksum == f.checksum
    &&& e.compression == ZipCompression::Stored
    &&& e.offset + e.size <= s.len()
    &&& s.subrange(e.offset as int, (e.offset + e.size) as int) == f.source
}

/// Reading back what [`write`] produced gives, for each file in order, an
/// entry with the same path, sizes and checksum, stored uncompressed, whose
/// bytes in the archive are the file's bytes, and with the same modification
/// time wherever that time exists and has an even second.
pub proof fn lemma_zip_round_trip(files: Seq<ZipFileModel>)
    requires
        forall|k: int| 0 <= k < files.len() ==> writable(#[trigger] files[k]),
    ensures
        zip_entries(zip_image(files), 0) matches Ok(es) && es.len() == files.len() && forall|k: int|
            0 <= k < files.len() ==> entry_matches(#[trigger] es[k], files[k], zip_image(files)),
{
    lemma_zip_round_trip_after(Seq::empty(), files);
    assert(Seq::<u8>::empty() + zip_image(files) =~= zip_image(files));
}

#[verifier::rlimit(60)]
proof fn lemma_zip_round_trip_after(pre: Seq<u8>, files: Seq<ZipFileModel>)
    requires
        forall|k: int| 0 <= k < files.len() ==> writable(#[trigger] files[k]),
    ensures
        zip_entries(pre + zip_image(files), pre.len() as int) matches Ok(es) && es.len()
            == files.len() && forall|k: int|
            0 <= k < files.len() ==> entry_matches(#[trigger] es[k], files[k], pre + zip_image(files)),
    decreases files.len(),
{
    let s = pre + zip_image(files);
    if files.len() == 0 {
        assert(s =~= pre);
        assert(!fits(s, pre.len() as int, 4));
    } else {
        let f = files[0];
        let rest = files.drop_first();
        let r = zip_record(f);
        let pre2 = pre + r;
        assert(s =~= pre + r + zip_image(rest));
        assert(pre2 + zip_image(rest) =~= s);
        lemma_zip_record_parse(pre, f, zip_image(rest));
        assert(forall|k: int| 0 <= k < rest.len() ==> rest[k] == files[k + 1]);
        lemma_zip_round_trip_after(pre2, rest);
        let e = local_header_at(s, pre.len() + 4int)->Some_0;
        let es_rest = zip_entries(s, pre2.len() as int)->Ok_0;
        let es = seq![e] + es_rest;
        assert(entry_matches(e, f, s));
        assert(zip_entries(s, pre.len() as int) == Ok::<Seq<ZipEntryModel>, Error>(es));
        assert forall|k: int| 0 <= k < files.len() implies entry_matches(#[trigger] es[k], files[k], s) by {
            if k > 0 {
                assert(es[k] == es_rest[k - 1]);
                assert(files[k] == rest[k - 1]);
            }
        }
    }
}

} // verus!
