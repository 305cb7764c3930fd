//! One interface over the three codecs: metadata, extraction and creation.
use crate::binary::Reader;
use crate::formats::hssp::{
    self, header_size, table_image, hssp_files_view, hssp_image, hssp_parse, hssp_writable, HsspArchiveData, HsspFile,
    HsspFileModel, HsspMetadata, HsspModel, CHECKSUM_SEED,
};
use crate::formats::rar::{self, describes, entry_intact, rar_archive, rar_files_view, file_entries, RarArchiveMetadata, RarFileModel};
use crate::formats::zip::{
    self, entries_view, files_view, lemma_zip_round_trip, writable, zip_entries, zip_image, ZipArchiveData,
    ZipArchiveMetadata, ZipEntryModel, ZipFile, ZipFileModel,
};
use crate::helpers::crc32::crc32_bytes;
use crate::types::{EntryTime, Timestamp};
use crate::formats::Formats;
use crate::helpers::crc32::crc32_of;
use crate::helpers::murmur3::murmur3_of;
use crate::helpers::text::string_bytes;
use crate::Error;
use vstd::prelude::*;
use vstd::utf8::*;

verus! {

/// The metadata of an archive, in the shape of its format.
#[derive(Debug)]
pub enum OriginalArchiveMetadata {
    Zip(ZipArchiveMetadata),
    Rar(RarArchiveMetadata),
    Hssp(HsspMetadata),
}

/// What every format says of an entry.
#[derive(Debug, Clone)]
pub struct FileEntry {
    pub path: String,
    pub offset: u64,
    pub size: u64,
    pub is_directory: bool,
    pub modified: Option<EntryTime>,
}

/// The mathematical content of a [`FileEntry`].
pub struct FileEntryModel {
    pub path: Seq<char>,
    pub offset: u64,
    pub size: u64,
    pub is_directory: bool,
    pub modified: Option<EntryTime>,
}

impl View for FileEntry {
    type V = FileEntryModel;

    open spec fn view(&self) -> FileEntryModel {
        FileEntryModel {
            path: self.path@,
            offset: self.offset,
            size: self.size,
            is_directory: self.is_directory,
            modified: self.modified,
        }
    }
}

/// An archive as extraction sees it: its entries, which of them are
/// compressed, and the bytes the entries' offsets point into (none for an
/// encrypted archive that was not opened).
pub struct ArchiveModel {
    pub entries: Seq<FileEntryModel>,
    pub compressed: Seq<bool>,
    pub body: Option<Seq<u8>>,
}

pub open spec fn zip_model(s: Seq<u8>, es: Seq<ZipEntryModel>) -> ArchiveModel {
    ArchiveModel {
        entries: es.map_values(
            |e: ZipEntryModel|
                FileEntryModel {
                    path: e.path,
                    offset: e.offset as u64,
                    size: e.size as u64,
                    is_directory: e.is_directory,
                    modified: Some(EntryTime::Civil(e.modified)),
                },
        ),
        compressed: es.map_values(|e: ZipEntryModel| false),
        body: Some(s),
    }
}

pub open spec fn rar_model(s: Seq<u8>, fs: Seq<RarFileModel>) -> ArchiveModel {
    ArchiveModel {
        entries: fs.map_values(
            |f: RarFileModel|
                FileEntryModel {
                    path: f.path,
                    offset: f.offset,
                    size: f.size,
                    is_directory: f.is_directory,
                    modified: match f.modified {
                        Some(u) => Some(EntryTime::Unix(u)),
                        None => None,
                    },
                },
        ),
        compressed: fs.map_values(|f: RarFileModel| f.compression is Some),
        body: Some(s),
    }
}

pub open spec fn hssp_model(s: Seq<u8>, m: HsspModel) -> ArchiveModel {
    ArchiveModel {
        entries: m.files.map_values(
            |f: hssp::HsspEntryModel|
                FileEntryModel {
                    path: f.name,
                    offset: f.offset,
                    size: f.size,
                    is_directory: f.is_directory,
                    modified: None,
                },
        ),
        compressed: m.files.map_values(|f: hssp::HsspEntryModel| false),
        body: match m.encryption {
            Some(e) => e.data,
            None => Some(s),
        },
    }
}

/// Whether every ZIP entry's stored bytes have its recorded CRC-32.
pub open spec fn zip_intact(s: Seq<u8>, es: Seq<ZipEntryModel>) -> bool {
    forall|k: int|
        0 <= k < es.len() ==> (#[trigger] es[k]).offset + es[k].size <= s.len() && crc32_of(
            s.subrange(es[k].offset as int, (es[k].offset + es[k].size) as int),
        ) == es[k].checksum
}

/// Whether the body of an HSSP archive has its recorded checksum.
pub open spec fn hssp_intact(s: Seq<u8>, m: HsspModel) -> bool {
    header_size(m.version) <= s.len() && s.len() - header_size(m.version) < 0x1_0000_0000 && murmur3_of(
        s.subrange(header_size(m.version), s.len() as int),
        CHECKSUM_SEED,
    ) == m.checksum
}

/// The archive in `s` read as `format`, opened with password `pw`, and, when
/// `check` asks for it, refused with `IntegrityMismatch` if a checksum does
/// not match.
pub open spec fn archive_model(format: Formats, s: Seq<u8>, check: bool, pw: Seq<u8>) -> Result<ArchiveModel, Error> {
    match format {
        Formats::Zip => match zip_entries(s, 0) {
            Err(e) => Err(e),
            Ok(es) => if check && !zip_intact(s, es) {
                Err(Error::IntegrityMismatch)
            } else {
                Ok(zip_model(s, es))
            },
        },
        Formats::Rar => match rar_archive(s) {
            Err(e) => Err(e),
            Ok((k, enc, hs)) => if check && !(forall|j: int|
                0 <= j < file_entries(hs).len() ==> entry_intact(s, #[trigger] file_entries(hs)[j])) {
                Err(Error::IntegrityMismatch)
            } else {
                Ok(rar_model(s, file_entries(hs)))
            },
        },
        Formats::Hssp => match hssp_parse(s, pw) {
            Err(e) => Err(e),
            Ok(m) => if check && !hssp_intact(s, m) {
                Err(Error::IntegrityMismatch)
            } else {
                Ok(hssp_model(s, m))
            },
        },
    }
}

impl OriginalArchiveMetadata {
    /// This metadata as extraction sees it, for the container `s` it was read from.
    pub open spec fn model(&self, s: Seq<u8>) -> ArchiveModel {
        match self {
            OriginalArchiveMetadata::Zip(z) => zip_model(s, entries_view(z.files@)),
            OriginalArchiveMetadata::Rar(r) => rar_model(s, rar_files_view(r.files@)),
            OriginalArchiveMetadata::Hssp(h) => hssp_model(s, h@),
        }
    }

    /// The format of the archive.
    pub fn get_format(&self) -> (r: Formats)
        ensures
            r == match self {
                OriginalArchiveMetadata::Zip(_) => Formats::Zip,
                OriginalArchiveMetadata::Rar(_) => Formats::Rar,
                OriginalArchiveMetadata::Hssp(_) => Formats::Hssp,
            },
    {
        match self {
            OriginalArchiveMetadata::Zip(_) => Formats::Zip,
            OriginalArchiveMetadata::Rar(_) => Formats::Rar,
            OriginalArchiveMetadata::Hssp(_) => Formats::Hssp,
        }
    }

    /// The entries, in order, as every format describes them.
    pub fn get_files(&self) -> (r: Vec<FileEntry>)
        ensures
            forall|s: Seq<u8>| r@.map_values(|e: FileEntry| e@) == #[trigger] self.model(s).entries,
    {
        let mut out: Vec<FileEntry> = Vec::new();
        let ghost target = self.model(Seq::empty()).entries;
        let n = match self {
            OriginalArchiveMetadata::Zip(z) => z.files.len(),
            OriginalArchiveMetadata::Rar(r) => r.files.len(),
            OriginalArchiveMetadata::Hssp(h) => h.files.len(),
        };
        let mut i: usize = 0;
        while i < n
            invariant
                i <= n,
                n == target.len(),
                target == self.model(Seq::empty()).entries,
                out@.map_values(|e: FileEntry| e@) == target.take(i as int),
            decreases n - i,
        {
            let e = match self {
                OriginalArchiveMetadata::Zip(z) => {
                    let f = &z.files[i];
                    FileEntry {
                        path: f.path.clone(),
                        offset: f.offset,
                        size: f.size,
                        is_directory: f.is_directory,
                        modified: Some(EntryTime::Civil(f.modified)),
                    }
                },
                OriginalArchiveMetadata::Rar(r) => {
                    let f = &r.files[i];
                    FileEntry {
                        path: f.path.clone(),
                        offset: f.offset,
                        size: f.size,
                        is_directory: f.is_directory,
                        modified: match f.modified {
                            Some(u) => Some(EntryTime::Unix(u)),
                            None => None,
                        },
                    }
                },
                OriginalArchiveMetadata::Hssp(h) => {
                    let f = &h.files[i];
                    FileEntry {
                        path: f.name.clone(),
                        offset: f.offset,
                        size: f.size,
                        is_directory: f.is_directory,
                        modified: None,
                    }
                },
            };
            let ghost before = out@;
            out.push(e);
            proof {
                assert(e@ == target[i as int]);
                assert(out@.map_values(|e: FileEntry| e@) =~= before.map_values(|e: FileEntry| e@).push(e@));
                assert(target.take(i + 1) =~= target.take(i as int).push(target[i as int]));
            }
            i = i + 1;
        }
        proof {
            assert(target.take(n as int) =~= target);
            assert forall|s: Seq<u8>| out@.map_values(|e: FileEntry| e@) == #[trigger] self.model(s).entries by {
                assert(self.model(s).entries == target);
            }
        }
        out
    }
}

fn zip_metadata(input: &mut Reader, check_integrity: bool) -> (r: Result<OriginalArchiveMetadata, Error>)
    requires
        old(input).pos == 0,
    ensures
        final(input).data@ == old(input).data@,
        match archive_model(Formats::Zip, old(input).data@, check_integrity, Seq::empty()) {
            Err(e) => r matches Err(x) && x == e,
            Ok(am) => r matches Ok(m) && m.model(old(input).data@) == am,
        },
        r matches Ok(m) ==> (m matches OriginalArchiveMetadata::Zip(z) && zip_entries(old(input).data@, 0)
            == Ok::<Seq<ZipEntryModel>, Error>(entries_view(z.files@))),
{
    let m = match zip::metadata(input) {
        Ok(m) => m,
        Err(e) => return Err(e),
    };
    let ghost es = entries_view(m.files@);
    proof {
        assert(forall|k: int| 0 <= k < es.len() ==> #[trigger] es[k] == m.files@[k]@);
    }
    if check_integrity {
        let ok = zip::check_integrity_all(input, &m.files);
        if !ok {
            proof {
                let s = input.data@;
                if zip_intact(s, es) {
                    assert forall|k: int| 0 <= k < m.files@.len() implies (#[trigger] m.files@[k]).offset
                        + m.files@[k].size <= s.len() && crc32_of(
                        s.subrange(m.files@[k].offset as int, m.files@[k].offset + m.files@[k].size),
                    ) == m.files@[k].checksum by {
                        assert(es[k] == m.files@[k]@);
                    }
                }
            }
            return Err(Error::IntegrityMismatch);
        }
    }
    Ok(OriginalArchiveMetadata::Zip(m))
}

fn rar_metadata(input: &mut Reader, check_integrity: bool) -> (r: Result<OriginalArchiveMetadata, Error>)
    ensures
        final(input).data@ == old(input).data@,
        match archive_model(Formats::Rar, old(input).data@, check_integrity, Seq::empty()) {
            Err(e) => r matches Err(x) && x == e,
            Ok(am) => r matches Ok(m) && m.model(old(input).data@) == am,
        },
        r matches Ok(x) ==> (x matches OriginalArchiveMetadata::Rar(m) && (rar_archive(old(input).data@) matches Ok((k, enc, hs)) && describes(m, k, enc, hs))),
{
    let m = match rar::metadata(input) {
        Ok(m) => m,
        Err(e) => return Err(e),
    };
    let ghost fs = rar_files_view(m.files@);
    proof {
        assert(forall|j: int| 0 <= j < fs.len() ==> #[trigger] fs[j] == m.files@[j]@);
    }
    if check_integrity {
        let ok = rar::check_integrity_all(input, &m.files);
        if !ok {
            proof {
                let s = input.data@;
                if forall|j: int| 0 <= j < fs.len() ==> entry_intact(s, #[trigger] fs[j]) {
                    assert forall|j: int| 0 <= j < m.files@.len() implies entry_intact(s, #[trigger] m.files@[j]@) by {
                        assert(fs[j] == m.files@[j]@);
                    }
                }
            }
            return Err(Error::IntegrityMismatch);
        }
    }
    Ok(OriginalArchiveMetadata::Rar(m))
}

fn hssp_metadata(input: &mut Reader, check_integrity: bool, password: Option<&String>) -> (r: Result<OriginalArchiveMetadata, Error>)
    ensures
        final(input).data@ == old(input).data@,
        ({
            let pw = match password {
                Some(p) => encode_utf8(p@),
                None => Seq::<u8>::empty(),
            };
            &&& match archive_model(Formats::Hssp, old(input).data@, check_integrity, pw) {
                Err(e) => r matches Err(x) && x == e,
                Ok(am) => r matches Ok(m) && m.model(old(input).data@) == am,
            }
            &&& r matches Ok(x) ==> (x matches OriginalArchiveMetadata::Hssp(h) && hssp_parse(old(input).data@, pw) == Ok::<HsspModel, Error>(h@))
        }),
{
    let m = match hssp::metadata(input, password) {
        Ok(m) => m,
        Err(e) => return Err(e),
    };
    if check_integrity && !hssp::check_integrity_all(input, &m) {
        return Err(Error::IntegrityMismatch);
    }
    Ok(OriginalArchiveMetadata::Hssp(m))
}

/// The password bytes that `password` stands for; none for no password.
pub open spec fn password_seq(password: Option<&String>) -> Seq<u8> {
    match password {
        Some(p) => encode_utf8(p@),
        None => Seq::<u8>::empty(),
    }
}

/// Reads the metadata of the archive in `input` as `format`, from the start
/// of the container. When `check_integrity` is set, a checksum that does not
/// match fails the call with `IntegrityMismatch`. `password` opens an
/// encrypted HSSP archive.
pub fn metadata(format: Formats, input: &mut Reader, check_integrity: bool, password: Option<&String>) -> (r: Result<OriginalArchiveMetadata, Error>)
    ensures
        final(input).data@ == old(input).data@,
        match archive_model(format, old(input).data@, check_integrity, password_seq(password)) {
            Err(e) => r matches Err(x) && x == e,
            Ok(am) => r matches Ok(m) && m.model(old(input).data@) == am,
        },
        r matches Ok(OriginalArchiveMetadata::Zip(z)) ==> format == Formats::Zip && zip_entries(old(input).data@, 0)
            == Ok::<Seq<ZipEntryModel>, Error>(entries_view(z.files@)),
        r matches Ok(OriginalArchiveMetadata::Rar(m)) ==> format == Formats::Rar && (rar_archive(old(input).data@) matches Ok((k, enc, hs)) && describes(m, k, enc, hs)),
        r matches Ok(OriginalArchiveMetadata::Hssp(h)) ==> format == Formats::Hssp && hssp_parse(old(input).data@, password_seq(password)) == Ok::<HsspModel, Error>(h@),
{
    input.rewind();
    match format {
        Formats::Zip => zip_metadata(input, check_integrity),
        Formats::Rar => rar_metadata(input, check_integrity),
        Formats::Hssp => hssp_metadata(input, check_integrity, password),
    }
}

/// Which entries to extract.
#[derive(Debug, Clone)]
pub enum Selection {
    All,
    ByIndex(u32),
    /// Entries whose path starts with this text.
    ByPathPrefix(String),
}

/// One entry to be written out: a directory to create, or a file and its
/// bytes, with the modification time to give it where the format records one.
#[derive(Debug, Clone)]
pub struct ExtractItem {
    pub path: String,
    pub is_directory: bool,
    pub contents: Vec<u8>,
    pub modified: Option<EntryTime>,
}

/// The mathematical content of a [`ExtractItem`].
pub struct ExtractItemModel {
    pub path: Seq<char>,
    pub is_directory: bool,
    pub contents: Seq<u8>,
    pub modified: Option<EntryTime>,
}

impl View for ExtractItem {
    type V = ExtractItemModel;

    open spec fn view(&self) -> ExtractItemModel {
        ExtractItemModel {
            path: self.path@,
            is_directory: self.is_directory,
            contents: self.contents@,
            modified: self.modified,
        }
    }
}

pub open spec fn items_view(items: Seq<ExtractItem>) -> Seq<ExtractItemModel> {
    items.map_values(|i: ExtractItem| i@)
}

/// Whether a `..` component starts at byte `i` of the path `b`.
pub open spec fn parent_step_at(b: Seq<u8>, i: int) -> bool {
    &&& 0 <= i
    &&& i + 2 <= b.len()
    &&& (i == 0 || b[i - 1] == 0x2f)
    &&& b[i] == 0x2e
    &&& b[i + 1] == 0x2e
    &&& (i + 2 == b.len() || b[i + 2] == 0x2f)
}

/// Whether byte `i` of the path `b` is a `:` in its first component, as in a
/// drive prefix such as `C:name`.
pub open spec fn drive_colon_at(b: Seq<u8>, i: int) -> bool {
    0 <= i < b.len() && b[i] == 0x3a && forall|j: int| 0 <= j < i ==> b[j] != 0x2f
}

/// Whether a path, as UTF-8 bytes, stays inside the directory it is joined
/// to: it is not absolute, holds no backslash, has no `..` component, and has
/// no `:` in its first component.
pub open spec fn path_contained(b: Seq<u8>) -> bool {
    &&& !(b.len() > 0 && b[0] == 0x2f)
    &&& forall|i: int| 0 <= i < b.len() ==> b[i] != 0x5c
    &&& forall|i: int| !parent_step_at(b, i)
    &&& forall|i: int| !drive_colon_at(b, i)
}

/// Whether `path` stays inside the directory it is joined to.
pub fn is_contained(path: &String) -> (r: bool)
    ensures
        r == path_contained(encode_utf8(path@)),
{
    let b = string_bytes(path);
    let n = b.len();
    if n > 0 && b[0] == 0x2f {
        return false;
    }
    let mut i: usize = 0;
    let mut slash_seen = false;
    let mut slash_at: usize = 0;
    while i < n
        invariant
            n == b@.len(),
            b@ == encode_utf8(path@),
            i <= n,
            !(n > 0 && b@[0] == 0x2f),
            forall|j: int| 0 <= j < i ==> b@[j] != 0x5c,
            forall|j: int| 0 <= j < i ==> !parent_step_at(b@, j),
            forall|j: int| 0 <= j < i ==> !drive_colon_at(b@, j),
            slash_seen ==> slash_at < i && b@[slash_at as int] == 0x2f,
            !slash_seen ==> forall|j: int| 0 <= j < i ==> b@[j] != 0x2f,
        decreases n - i,
    {
        if b[i] == 0x3a && !slash_seen {
            assert(drive_colon_at(b@, i as int));
            assert(!path_contained(b@));
            return false;
        }
        proof {
            if slash_seen {
                assert(!drive_colon_at(b@, i as int)) by {
                    assert(b@[slash_at as int] == 0x2f);
                }
            }
        }
        if b[i] == 0x2f && !slash_seen {
            slash_seen = true;
            slash_at = i;
        }
        if b[i] == 0x5c {
            assert(b@[i as int] == 0x5c);
            assert(!path_contained(b@));
            return false;
        }
        if n - i >= 2 && (i == 0 || b[i - 1] == 0x2f) && b[i] == 0x2e && b[i + 1] == 0x2e && (i + 2
            == n || b[i + 2] == 0x2f) {
            assert(parent_step_at(b@, i as int));
            assert(!path_contained(b@));
            return false;
        }
        i = i + 1;
    }
    proof {
        assert forall|j: int| !parent_step_at(b@, j) by {
            if 0 <= j < n {
            }
        }
        assert forall|j: int| !drive_colon_at(b@, j) by {
            if 0 <= j < n {
            }
        }
    }
    true
}

/// Whether `path` starts with `prefix`, compared as UTF-8 bytes.
pub open spec fn has_prefix(path: Seq<char>, prefix: Seq<char>) -> bool {
    encode_utf8(prefix).len() <= encode_utf8(path).len() && encode_utf8(path).subrange(
        0,
        encode_utf8(prefix).len() as int,
    ) == encode_utf8(prefix)
}

/// The indices below `n` of the entries whose path starts with `prefix`, in order.
pub open spec fn prefix_indices(es: Seq<FileEntryModel>, prefix: Seq<char>, n: int) -> Seq<int>
    decreases n,
{
    if n <= 0 {
        Seq::empty()
    } else {
        prefix_indices(es, prefix, n - 1) + if has_prefix(es[n - 1].path, prefix) {
            seq![n - 1]
        } else {
            Seq::empty()
        }
    }
}

/// The indices of the entries that `sel` picks, in order.
pub open spec fn selected(es: Seq<FileEntryModel>, sel: Selection) -> Result<Seq<int>, Error> {
    match sel {
        Selection::All => Ok(Seq::new(es.len(), |i: int| i)),
        Selection::ByIndex(i) => if i < es.len() {
            Ok(seq![i as int])
        } else {
            Err(Error::IndexOutOfRange)
        },
        Selection::ByPathPrefix(p) => Ok(prefix_indices(es, p@, es.len() as int)),
    }
}

/// The bytes to write for entry `k`: none for a directory; `Unsupported` for
/// a compressed entry; `WrongCredential` where the body is locked.
pub open spec fn content_of(am: ArchiveModel, k: int) -> Result<Seq<u8>, Error> {
    let e = am.entries[k];
    if e.is_directory {
        Ok(Seq::empty())
    } else if am.compressed[k] {
        Err(Error::Unsupported)
    } else {
        match am.body {
            None => Err(Error::WrongCredential),
            Some(b) => if e.offset + e.size <= b.len() {
                Ok(b.subrange(e.offset as int, e.offset + e.size))
            } else {
                Err(Error::Malformed)
            },
        }
    }
}

/// The items for the entries `ix`, in order; the first entry whose path
/// leaves the output directory (`PathTraversal`) or whose bytes cannot be had
/// fails the whole plan.
pub open spec fn plan(am: ArchiveModel, ix: Seq<int>) -> Result<Seq<ExtractItemModel>, Error>
    decreases ix.len(),
{
    if ix.len() == 0 {
        Ok(Seq::empty())
    } else {
        match plan(am, ix.drop_last()) {
            Err(e) => Err(e),
            Ok(items) => {
                let k = ix.last();
                let e = am.entries[k];
                if !path_contained(encode_utf8(e.path)) {
                    Err(Error::PathTraversal)
                } else {
                    match content_of(am, k) {
                        Err(x) => Err(x),
                        Ok(c) => Ok(
                            items.push(
                                ExtractItemModel {
                                    path: e.path,
                                    is_directory: e.is_directory,
                                    contents: c,
                                    modified: e.modified,
                                },
                            ),
                        ),
                    }
                }
            },
        }
    }
}

/// The result of extracting `sel` from an archive seen as `am`.
pub open spec fn extraction(am: ArchiveModel, sel: Selection) -> Result<Seq<ExtractItemModel>, Error> {
    match selected(am.entries, sel) {
        Err(e) => Err(e),
        Ok(ix) => plan(am, ix),
    }
}

pub open spec fn result_view(r: Result<Vec<ExtractItem>, Error>) -> Result<Seq<ExtractItemModel>, Error> {
    match r {
        Ok(v) => Ok(items_view(v@)),
        Err(e) => Err(e),
    }
}

fn select(files: &Vec<FileEntry>, selection: &Selection) -> (r: Result<Vec<usize>, Error>)
    ensures
        match selected(files@.map_values(|e: FileEntry| e@), *selection) {
            Ok(ix) => r matches Ok(v) && v@.map_values(|i: usize| i as int) == ix,
            Err(e) => r == Err::<Vec<usize>, Error>(e),
        },
{
    let ghost es = files@.map_values(|e: FileEntry| e@);
    let n = files.len();
    let mut out: Vec<usize> = Vec::new();
    match selection {
        Selection::All => {
            let mut i: usize = 0;
            while i < n
                invariant
                    n == files@.len(),
                    i <= n,
                    out@.len() == i,
                    out@.map_values(|j: usize| j as int) == Seq::new(i as nat, |j: int| j),
                decreases n - i,
            {
                let ghost before = out@;
                out.push(i);
                proof {
                    assert(out@[i as int] == i);
                    assert(forall|j: int| 0 <= j < i ==> out@[j] == before[j]);
                    assert(forall|j: int| 0 <= j < i ==> #[trigger] before[j] as int == j) by {
                        assert forall|j: int| 0 <= j < i implies #[trigger] before[j] as int == j by {
                            assert(before.map_values(|x: usize| x as int)[j] == Seq::new(i as nat, |j: int| j)[j]);
                        }
                    }
                    assert(out@.map_values(|j: usize| j as int) =~= Seq::new((i + 1) as nat, |j: int| j));
                }
                i = i + 1;
            }
            Ok(out)
        },
        Selection::ByIndex(i) => {
            if (*i as usize) < n {
                out.push(*i as usize);
                proof {
                    assert(out@.map_values(|j: usize| j as int) =~= seq![*i as int]);
                }
                Ok(out)
            } else {
                Err(Error::IndexOutOfRange)
            }
        },
        Selection::ByPathPrefix(p) => {
            let pb = string_bytes(p);
            let mut i: usize = 0;
            while i < n
                invariant
                    n == files@.len(),
                    es == files@.map_values(|e: FileEntry| e@),
                    i <= n,
                    pb@ == encode_utf8(p@),
                    out@.map_values(|j: usize| j as int) == prefix_indices(es, p@, i as int),
                decreases n - i,
            {
                let fb = string_bytes(&files[i].path);
                let mut matches = pb.len() <= fb.len();
                let mut k: usize = 0;
                while matches && k < pb.len()
                    invariant
                        pb.len() <= fb.len() || !matches,
                        k <= pb@.len(),
                        matches ==> forall|j: int| 0 <= j < k ==> fb@[j] == pb@[j],
                        !matches ==> (pb@.len() > fb@.len() || exists|j: int| 0 <= j < k && fb@[j] != pb@[j]),
                    decreases pb@.len() - k,
                {
                    if fb[k] != pb[k] {
                        matches = false;
                        assert(fb@[k as int] != pb@[k as int]);
                    }
                    k = k + 1;
                }
                proof {
                    assert(es[i as int] == files@[i as int]@);
                    if matches {
                        assert(fb@.subrange(0, pb@.len() as int) =~= pb@);
                    } else if pb@.len() <= fb@.len() {
                        let j = choose|j: int| 0 <= j < k && fb@[j] != pb@[j];
                        assert(fb@.subrange(0, pb@.len() as int)[j] != pb@[j]);
                    }
                    assert(has_prefix(es[i as int].path, p@) == matches);
                }
                let ghost before = out@;
                if matches {
                    out.push(i);
                    proof {
                        assert(out@.map_values(|j: usize| j as int) =~= before.map_values(|j: usize| j as int) + seq![i as int]);
                    }
                } else {
                    proof {
                        assert(out@.map_values(|j: usize| j as int) =~= before.map_values(|j: usize| j as int) + Seq::<int>::empty());
                    }
                }
                i = i + 1;
            }
            Ok(out)
        },
    }
}

/// The bytes `b[offset .. offset + size]`, or `Malformed` when they lie outside `b`.
fn byte_range(b: &Vec<u8>, offset: u64, size: u64) -> (r: Result<Vec<u8>, Error>)
    ensures
        offset + size <= b@.len() ==> (r matches Ok(v) && v@ == b@.subrange(offset as int, offset + size)),
        offset + size > b@.len() ==> r == Err::<Vec<u8>, Error>(Error::Malformed),
{
    let len = b.len();
    if offset > len as u64 || size > len as u64 - offset {
        return Err(Error::Malformed);
    }
    let start = offset as usize;
    let end = start + size as usize;
    let mut out: Vec<u8> = Vec::new();
    crate::binary::write_bytes(&mut out, &b.as_slice()[start..end]);
    Ok(out)
}

fn content(input: &Reader, metadata: &OriginalArchiveMetadata, k: usize) -> (r: Result<Vec<u8>, Error>)
    requires
        k < metadata.model(input.data@).entries.len(),
    ensures
        match content_of(metadata.model(input.data@), k as int) {
            Ok(c) => r matches Ok(v) && v@ == c,
            Err(e) => r == Err::<Vec<u8>, Error>(e),
        },
{
    match metadata {
        OriginalArchiveMetadata::Zip(z) => {
            let f = &z.files[k];
            if f.is_directory {
                return Ok(Vec::new());
            }
            byte_range(&input.data, f.offset, f.size)
        },
        OriginalArchiveMetadata::Rar(r) => {
            let f = &r.files[k];
            if f.is_directory {
                return Ok(Vec::new());
            }
            if f.compression.is_some() {
                return Err(Error::Unsupported);
            }
            byte_range(&input.data, f.offset, f.size)
        },
        OriginalArchiveMetadata::Hssp(h) => {
            let f = &h.files[k];
            if f.is_directory {
                return Ok(Vec::new());
            }
            match &h.encryption {
                Some(e) => match &e.data {
                    Some(d) => byte_range(d, f.offset, f.size),
                    None => Err(Error::WrongCredential),
                },
                None => byte_range(&input.data, f.offset, f.size),
            }
        },
    }
}

/// The directories to create and files to write for the entries of
/// `metadata` that `selection` picks, in order. It fails, before anything is
/// written, on an index beyond the entries (`IndexOutOfRange`), on an entry
/// path that would leave the output directory (`PathTraversal`), and on an
/// entry whose bytes cannot be had.
pub fn extract_entries(input: &Reader, metadata: &OriginalArchiveMetadata, selection: &Selection) -> (r: Result<Vec<ExtractItem>, Error>)
    ensures
        result_view(r) == extraction(metadata.model(input.data@), *selection),
{
    let ghost am = metadata.model(input.data@);
    let files = metadata.get_files();
    proof {
        assert(files@.map_values(|e: FileEntry| e@) == metadata.model(input.data@).entries);
    }
    let ix = match select(&files, selection) {
        Ok(ix) => ix,
        Err(e) => return Err(e),
    };
    let ghost ixs = ix@.map_values(|i: usize| i as int);
    let mut items: Vec<ExtractItem> = Vec::new();
    let mut j: usize = 0;
    proof {
        assert(ixs.take(0) =~= Seq::<int>::empty());
        assert(items_view(items@) =~= Seq::<ExtractItemModel>::empty());
    }
    while j < ix.len()
        invariant
            am == metadata.model(input.data@),
            files@.map_values(|e: FileEntry| e@) == am.entries,
            selected(am.entries, *selection) == Ok::<Seq<int>, Error>(ixs),
            ixs == ix@.map_values(|i: usize| i as int),
            j <= ix@.len(),
            items@.len() == j,
            plan(am, ixs.take(j as int)) == Ok::<Seq<ExtractItemModel>, Error>(items_view(items@)),
        decreases ix@.len() - j,
    {
        let k = ix[j];
        proof {
            assert(ixs.take(j + 1).drop_last() =~= ixs.take(j as int));
            assert(ixs.take(j + 1).last() == k as int);
            assert(ixs[j as int] == k as int);
            selected_in_range(am.entries, *selection, ixs, j as int);
        }
        let e = &files[k];
        proof {
            assert(e@ == am.entries[k as int]);
        }
        if !is_contained(&e.path) {
            proof {
                lemma_plan_err_extends(am, ixs, j + 1);
            }
            return Err(Error::PathTraversal);
        }
        let c = match content(input, metadata, k) {
            Ok(c) => c,
            Err(x) => {
                proof {
                    lemma_plan_err_extends(am, ixs, j + 1);
                }
                return Err(x);
            },
        };
        let ghost before = items@;
        items.push(
            ExtractItem {
                path: e.path.clone(),
                is_directory: e.is_directory,
                contents: c,
                modified: e.modified,
            },
        );
        proof {
            assert(items_view(items@) =~= items_view(before).push(items@[j as int]@));
        }
        j = j + 1;
    }
    proof {
        assert(ixs.take(ix@.len() as int) =~= ixs);
    }
    Ok(items)
}

/// Extracting by an index at or beyond the number of entries fails with
/// `IndexOutOfRange` and lists nothing to write.
pub proof fn lemma_index_out_of_range(am: ArchiveModel, i: u32)
    requires
        i >= am.entries.len(),
    ensures
        extraction(am, Selection::ByIndex(i)) == Err::<Seq<ExtractItemModel>, Error>(Error::IndexOutOfRange),
{
}

proof fn lemma_plan_err_extends(am: ArchiveModel, ixs: Seq<int>, m: int)
    requires
        0 <= m <= ixs.len(),
        plan(am, ixs.take(m)) is Err,
    ensures
        plan(am, ixs) == plan(am, ixs.take(m)),
    decreases ixs.len() - m,
{
    if m < ixs.len() {
        assert(ixs.take(m + 1).drop_last() =~= ixs.take(m));
        lemma_plan_err_extends(am, ixs, m + 1);
    } else {
        assert(ixs.take(m) =~= ixs);
    }
}

proof fn lemma_prefix_indices_range(es: Seq<FileEntryModel>, prefix: Seq<char>, n: int)
    requires
        n <= es.len(),
    ensures
        forall|j: int| 0 <= j < prefix_indices(es, prefix, n).len() ==> 0 <= #[trigger] prefix_indices(es, prefix, n)[j] < n,
    decreases n,
{
    if n > 0 {
        lemma_prefix_indices_range(es, prefix, n - 1);
        let a = prefix_indices(es, prefix, n - 1);
        assert forall|j: int| 0 <= j < prefix_indices(es, prefix, n).len() implies 0 <= #[trigger] prefix_indices(es, prefix, n)[j] < n by {
            if j < a.len() {
                assert(prefix_indices(es, prefix, n)[j] == a[j]);
            }
        }
    }
}

proof fn selected_in_range(es: Seq<FileEntryModel>, sel: Selection, ixs: Seq<int>, j: int)
    requires
        selected(es, sel) == Ok::<Seq<int>, Error>(ixs),
        0 <= j < ixs.len(),
    ensures
        0 <= ixs[j] < es.len(),
{
    match sel {
        Selection::ByPathPrefix(p) => {
            lemma_prefix_indices_range(es, p@, es.len() as int);
        },
        _ => {},
    }
}

/// Reads the archive in `input` as `format` (see [`metadata`]) and lists
/// what extracting `selection` writes; nothing is listed unless every picked
/// entry can be written.
pub fn extract(format: Formats, input: &mut Reader, selection: &Selection, check_integrity: bool, password: Option<&String>) -> (r: Result<Vec<ExtractItem>, Error>)
    ensures
        final(input).data@ == old(input).data@,
        result_view(r) == match archive_model(format, old(input).data@, check_integrity, password_seq(password)) {
            Err(e) => Err(e),
            Ok(am) => extraction(am, *selection),
        },
{
    let m = match metadata(format, input, check_integrity, password) {
        Ok(m) => m,
        Err(e) => return Err(e),
    };
    extract_entries(input, &m, selection)
}

/// A file or directory to put into a new archive.
#[derive(Debug, Clone)]
pub struct EntrySource {
    pub path: String,
    pub is_directory: bool,
    pub modified: Timestamp,
    pub contents: Vec<u8>,
}

/// The ZIP file that `e` becomes: its checksum is the CRC-32 of its bytes.
pub open spec fn zip_file_of(e: EntrySource) -> ZipFileModel {
    ZipFileModel {
        path: e.path@,
        modified: e.modified,
        is_directory: e.is_directory,
        checksum: crc32_of(e.contents@),
        source: e.contents@,
    }
}

/// The HSSP file that `e` becomes.
pub open spec fn hssp_file_of(e: EntrySource) -> HsspFileModel {
    HsspFileModel { name: e.path@, is_directory: e.is_directory, is_main: false, source: e.contents@ }
}

/// Writes the entries of `input` as a new archive of `format`: ZIP, with
/// each file's CRC-32 computed from its bytes, or HSSP version 3. RAR
/// archives cannot be written (`Unsupported`), nor entries that the format
/// cannot hold.
pub fn create(format: Formats, input: &Vec<EntrySource>) -> (r: Result<Vec<u8>, Error>)
    ensures
        format == Formats::Rar ==> r == Err::<Vec<u8>, Error>(Error::Unsupported),
        format == Formats::Zip ==> (if forall|k: int| 0 <= k < input@.len() ==> writable(zip_file_of(#[trigger] input@[k])) {
            r matches Ok(v) && v@ == zip_image(input@.map_values(|e: EntrySource| zip_file_of(e)))
        } else {
            r == Err::<Vec<u8>, Error>(Error::Unsupported)
        }),
        format == Formats::Hssp ==> (if input@.len() < 0x1_0000_0000 && (forall|k: int| 0 <= k < input@.len() ==> hssp_writable(hssp_file_of(#[trigger] input@[k])))
            && table_image(input@.map_values(|e: EntrySource| hssp_file_of(e))).len() < 0x1_0000_0000 {
            r matches Ok(v) && v@ == hssp_image(3, input@.map_values(|e: EntrySource| hssp_file_of(e)))
        } else {
            r == Err::<Vec<u8>, Error>(Error::Unsupported)
        }),
{
    match format {
        Formats::Rar => Err(Error::Unsupported),
        Formats::Zip => {
            let mut files: Vec<ZipFile> = Vec::new();
            let mut i: usize = 0;
            while i < input.len()
                invariant
                    i <= input@.len(),
                    files@.len() == i,
                    forall|k: int| 0 <= k < i ==> #[trigger] files@[k]@ == zip_file_of(input@[k]),
                decreases input@.len() - i,
            {
                let e = &input[i];
                let checksum = crc32_bytes(e.contents.as_slice());
                files.push(ZipFile {
                    path: e.path.clone(),
                    modified: e.modified,
                    is_directory: e.is_directory,
                    checksum,
                    source: e.contents.clone(),
                });
                i = i + 1;
            }
            let data = ZipArchiveData { files };
            proof {
                assert(files_view(data.files@) =~= input@.map_values(|e: EntrySource| zip_file_of(e)));
                assert(forall|k: int| 0 <= k < input@.len() ==> writable(#[trigger] data.files@[k]@) == writable(zip_file_of(input@[k])));
            }
            let mut out: Vec<u8> = Vec::new();
            let w = zip::write(&mut out, &data);
            proof {
                if forall|k: int| 0 <= k < input@.len() ==> writable(zip_file_of(#[trigger] input@[k])) {
                    assert(forall|k: int| 0 <= k < data.files@.len() ==> writable(#[trigger] data.files@[k]@));
                    assert(out@ =~= zip_image(files_view(data.files@)));
                } else {
                    let k = choose|k: int| 0 <= k < input@.len() && !writable(zip_file_of(#[trigger] input@[k]));
                    assert(!writable(data.files@[k]@));
                }
            }
            match w {
                Ok(()) => Ok(out),
                Err(e) => Err(e),
            }
        },
        Formats::Hssp => {
            let mut files: Vec<HsspFile> = Vec::new();
            let mut i: usize = 0;
            while i < input.len()
                invariant
                    i <= input@.len(),
                    files@.len() == i,
                    forall|k: int| 0 <= k < i ==> #[trigger] files@[k]@ == hssp_file_of(input@[k]),
                decreases input@.len() - i,
            {
                let e = &input[i];
                files.push(HsspFile {
                    name: e.path.clone(),
                    is_directory: e.is_directory,
                    is_main: false,
                    source: e.contents.clone(),
                });
                i = i + 1;
            }
            let data = HsspArchiveData { version: 3, encryption: None, files };
            proof {
                assert(hssp_files_view(data.files@) =~= input@.map_values(|e: EntrySource| hssp_file_of(e)));
                assert(forall|k: int| 0 <= k < input@.len() ==> hssp_writable(#[trigger] data.files@[k]@) == hssp_writable(hssp_file_of(input@[k])));
            }
            proof {
                if !(forall|k: int| 0 <= k < input@.len() ==> hssp_writable(hssp_file_of(#[trigger] input@[k]))) {
                    let k = choose|k: int| 0 <= k < input@.len() && !hssp_writable(hssp_file_of(#[trigger] input@[k]));
                    assert(!hssp_writable(data.files@[k]@));
                }
            }
            hssp::write(&data)
        },
    }
}

/// In a ZIP archive that [`create`] wrote, every entry's recorded checksum is
/// the CRC-32 of the bytes that extraction hands back for it.
pub proof fn lemma_created_zip_checksums(input: Seq<EntrySource>)
    requires
        forall|k: int| 0 <= k < input.len() ==> writable(zip_file_of(#[trigger] input[k])),
    ensures
        ({
            let files = input.map_values(|e: EntrySource| zip_file_of(e));
            let s = zip_image(files);
            zip_entries(s, 0) matches Ok(es) && es.len() == input.len() && forall|k: int|
                0 <= k < es.len() ==> (#[trigger] es[k]).offset + es[k].size <= s.len() && crc32_of(
                    s.subrange(es[k].offset as int, (es[k].offset + es[k].size) as int),
                ) == es[k].checksum
        }),
{
    let files = input.map_values(|e: EntrySource| zip_file_of(e));
    assert forall|k: int| 0 <= k < files.len() implies writable(#[trigger] files[k]) by {
        assert(files[k] == zip_file_of(input[k]));
    }
    lemma_zip_round_trip(files);
    let s = zip_image(files);
    let es = zip_entries(s, 0)->Ok_0;
    assert forall|k: int| 0 <= k < es.len() implies (#[trigger] es[k]).offset + es[k].size <= s.len() && crc32_of(
        s.subrange(es[k].offset as int, (es[k].offset + es[k].size) as int),
    ) == es[k].checksum by {
        assert(zip::entry_matches(es[k], files[k], s));
        assert(files[k] == zip_file_of(input[k]));
    }
}

} // verus!
