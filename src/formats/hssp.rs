//! HSSP archives (versions 1 to 3): a fixed header, then a file table whose
//! entries each hold a size, a name and the file's bytes, optionally
//! encrypted as a whole.
use crate::binary::{
    fits, le_at, le_bytes, lemma_le_bytes_len, lemma_le_round_trip, lemma_pow256_values, write_bytes,
    write_u16le, write_u32le, write_u64le, Reader,
};
use crate::helpers::aes256cbc::{self, aes256_cbc_decrypt_of};
use crate::helpers::murmur3::{self, murmur3_of};
use crate::helpers::sha256::{self, sha256_of};
use crate::helpers::text::{string_bytes, utf8_string};
use crate::Error;
use vstd::prelude::*;
use vstd::utf8::*;

verus! {

/// The seed of the Murmur3 checksum over an archive's body.
pub const CHECKSUM_SEED: u32 = 822616071;

/// The magic of a version 1 archive, `SFA\0`.
pub open spec fn magic_v1() -> Seq<u8> {
    seq![0x53u8, 0x46, 0x41, 0x00]
}

/// The magic that versions 2 and 3 write, `HSSP`.
pub open spec fn magic_hssp() -> Seq<u8> {
    seq![0x48u8, 0x53, 0x53, 0x50]
}

/// Whether every byte of `b` is zero.
pub open spec fn all_zero(b: Seq<u8>) -> bool {
    forall|k: int| 0 <= k < b.len() ==> b[k] == 0
}

/// The format version of the archive in `s`: 1 after the `SFA\0` magic;
/// otherwise 3 when the 64 bytes after the fixed header are all zero, and 2
/// when they are not or are missing.
pub open spec fn hssp_version(s: Seq<u8>) -> u8 {
    if fits(s, 0, 4) && s.subrange(0, 4) == magic_v1() {
        1
    } else if fits(s, 64, 64) && all_zero(s.subrange(64, 128)) {
        3
    } else {
        2
    }
}

/// Where the body starts in an archive of version `v`.
pub open spec fn header_size(v: u8) -> int {
    if v > 2 {
        128
    } else {
        64
    }
}

/// Whether the archive in `s` is encrypted: its password hash or its IV is
/// not all zero.
pub open spec fn encrypted(s: Seq<u8>) -> bool {
    !(all_zero(s.subrange(12, 44)) && all_zero(s.subrange(44, 60)))
}

/// `p`, held to what a `usize` position can hold.
pub open spec fn saturate(p: int) -> int {
    if p > usize::MAX {
        usize::MAX as int
    } else {
        p
    }
}

/// Whether a stored name marks a directory: it starts with `//`.
pub open spec fn names_directory(name: Seq<u8>) -> bool {
    name.len() >= 2 && name[0] == 0x2f && name[1] == 0x2f
}

/// A stored name without the `//` that marks a directory.
pub open spec fn bare_name(name: Seq<u8>) -> Seq<u8> {
    if names_directory(name) {
        name.subrange(2, name.len() as int)
    } else {
        name
    }
}

/// One entry of an HSSP file table.
#[derive(Debug, Clone)]
pub struct HsspFileEntry {
    pub name: String,
    /// Where the file's bytes start in the body.
    pub offset: u64,
    pub size: u64,
    pub is_main: bool,
    pub is_directory: bool,
}

/// The mathematical content of a [`HsspFileEntry`].
pub struct HsspEntryModel {
    pub name: Seq<char>,
    pub offset: u64,
    pub size: u64,
    pub is_main: bool,
    pub is_directory: bool,
}

impl View for HsspFileEntry {
    type V = HsspEntryModel;

    open spec fn view(&self) -> HsspEntryModel {
        HsspEntryModel {
            name: self.name@,
            offset: self.offset,
            size: self.size,
            is_main: self.is_main,
            is_directory: self.is_directory,
        }
    }
}

pub open spec fn hssp_entries_view(fs: Seq<HsspFileEntry>) -> Seq<HsspEntryModel> {
    fs.map_values(|f: HsspFileEntry| f@)
}

/// The entry at `b[p]` with table index `idx`, and where the next one is
/// looked for: `size` bytes further on than the end of its name, and then as
/// many again as the name has bytes, as the format has always done.
pub open spec fn table_entry_at(b: Seq<u8>, p: int, idx: nat, main: u32) -> Option<(HsspEntryModel, int)> {
    if !fits(b, p, 10) {
        None
    } else {
        let size = le_at(b, p, 8) as u64;
        let name_len = le_at(b, p + 8, 2) as int;
        if !fits(b, p + 10, name_len) {
            None
        } else {
            let name = b.subrange(p + 10, p + 10 + name_len);
            if !valid_utf8(bare_name(name)) {
                None
            } else {
                Some(
                    (
                        HsspEntryModel {
                            name: decode_utf8(bare_name(name)),
                            offset: (p + 10 + name_len) as u64,
                            size,
                            is_main: idx + 1 == main,
                            is_directory: names_directory(name),
                        },
                        saturate(p + 10 + name_len + size + name_len),
                    ),
                )
            }
        }
    }
}

/// The entries `idx` to `count` of the file table from `b[p]`.
pub open spec fn table_entries(b: Seq<u8>, p: int, idx: nat, count: nat, main: u32) -> Option<
    Seq<HsspEntryModel>,
>
    decreases count - idx,
{
    if idx >= count {
        Some(Seq::empty())
    } else {
        match table_entry_at(b, p, idx, main) {
            None => None,
            Some((e, q)) => match table_entries(b, q, idx + 1, count, main) {
                Some(rest) => Some(seq![e] + rest),
                None => None,
            },
        }
    }
}

/// The password record of an encrypted archive.
#[derive(Debug, Clone)]
pub struct HsspEncryption {
    /// The stored hash of the key.
    pub hash: Vec<u8>,
    /// The hash of the key that the given password yields.
    pub in_hash: Vec<u8>,
    pub iv: Vec<u8>,
    /// The decrypted body, once the password has been accepted.
    pub data: Option<Vec<u8>>,
}

/// The mathematical content of a [`HsspEncryption`].
pub struct HsspEncryptionModel {
    pub hash: Seq<u8>,
    pub in_hash: Seq<u8>,
    pub iv: Seq<u8>,
    pub data: Option<Seq<u8>>,
}

impl View for HsspEncryption {
    type V = HsspEncryptionModel;

    open spec fn view(&self) -> HsspEncryptionModel {
        HsspEncryptionModel {
            hash: self.hash@,
            in_hash: self.in_hash@,
            iv: self.iv@,
            data: match self.data {
                Some(d) => Some(d@),
                None => None,
            },
        }
    }
}

/// What an HSSP archive holds.
#[derive(Debug, Clone)]
pub struct HsspMetadata {
    pub version: u8,
    /// The stored Murmur3 checksum of the body.
    pub checksum: u32,
    pub encryption: Option<HsspEncryption>,
    pub files: Vec<HsspFileEntry>,
    pub has_main: bool,
}

/// The mathematical content of a [`HsspMetadata`].
pub struct HsspModel {
    pub version: u8,
    pub checksum: u32,
    pub encryption: Option<HsspEncryptionModel>,
    pub files: Seq<HsspEntryModel>,
    pub has_main: bool,
}

impl View for HsspMetadata {
    type V = HsspModel;

    open spec fn view(&self) -> HsspModel {
        HsspModel {
            version: self.version,
            checksum: self.checksum,
            encryption: match self.encryption {
                Some(e) => Some(e@),
                None => None,
            },
            files: hssp_entries_view(self.files@),
            has_main: self.has_main,
        }
    }
}

/// The bytes of an optional password; none for no password.
pub open spec fn password_bytes(password: Option<String>) -> Seq<u8> {
    match password {
        Some(p) => encode_utf8(p@),
        None => Seq::empty(),
    }
}

/// What the archive in `s` holds when opened with the password `pw`. With a
/// password whose key does not hash to the stored hash, the result holds the
/// password record and no files.
pub open spec fn hssp_parse(s: Seq<u8>, pw: Seq<u8>) -> Result<HsspModel, Error> {
    if !fits(s, 0, 64) {
        Err(Error::Malformed)
    } else {
        let v = hssp_version(s);
        let checksum = le_at(s, 4, 4) as u32;
        let count = le_at(s, 8, 4);
        let hash = s.subrange(12, 44);
        let iv = s.subrange(44, 60);
        let main = le_at(s, 60, 4) as u32;
        if encrypted(s) {
            let key = sha256_of(pw);
            let in_hash = sha256_of(key);
            if in_hash != hash {
                Ok(
                    HsspModel {
                        version: v,
                        checksum,
                        encryption: Some(HsspEncryptionModel { hash, in_hash, iv, data: None }),
                        files: Seq::empty(),
                        has_main: false,
                    },
                )
            } else {
                let body = aes256_cbc_decrypt_of(key, iv, s.subrange(header_size(v), s.len() as int));
                match table_entries(body, 0, 0, count, main) {
                    None => Err(Error::Malformed),
                    Some(es) => Ok(
                        HsspModel {
                            version: v,
                            checksum,
                            encryption: Some(
                                HsspEncryptionModel { hash, in_hash: hash, iv, data: Some(body) },
                            ),
                            files: es,
                            has_main: main != 0,
                        },
                    ),
                }
            }
        } else {
            match table_entries(s, header_size(v), 0, count, main) {
                None => Err(Error::Malformed),
                Some(es) => Ok(
                    HsspModel { version: v, checksum, encryption: None, files: es, has_main: main != 0 },
                ),
            }
        }
    }
}

fn read_table_entry(body: &mut Reader, idx: u32, main: u32) -> (r: Option<HsspFileEntry>)
    ensures
        final(body).data@ == old(body).data@,
        match table_entry_at(old(body).data@, old(body).pos as int, idx as nat, main) {
            Some((e, q)) => r matches Some(x) && x@ == e && final(body).pos == q,
            None => r is None,
        },
{
    let ghost b = body.data@;
    let ghost p = body.pos as int;
    if !body.has(10) {
        return None;
    }
    let size = body.read_u64le().unwrap();
    let name_len = body.read_u16le().unwrap();
    if !body.has(name_len as u64) {
        return None;
    }
    let at = body.pos;
    let is_directory = name_len >= 2 && body.data[at] == 0x2f && body.data[at + 1] == 0x2f;
    let text_len = if is_directory {
        body.jump(2);
        name_len - 2
    } else {
        name_len
    };
    let text = body.read_bytes(text_len as u64).unwrap();
    proof {
        let name = b.subrange(p + 10, p + 10 + name_len);
        assert(names_directory(name) == is_directory);
        assert(text@ =~= bare_name(name));
    }
    let name = match utf8_string(text) {
        Some(n) => n,
        None => return None,
    };
    let offset = body.pos as u64;
    body.advance(size);
    body.advance(name_len as u64);
    Some(HsspFileEntry { name, offset, size, is_main: idx as u64 + 1 == main as u64, is_directory })
}

/// Reads `count` entries of the file table from the current position.
fn read_table(body: &mut Reader, count: u32, main: u32) -> (r: Option<Vec<HsspFileEntry>>)
    ensures
        final(body).data@ == old(body).data@,
        match table_entries(old(body).data@, old(body).pos as int, 0, count as nat, main) {
            Some(es) => r matches Some(v) && hssp_entries_view(v@) == es,
            None => r is None,
        },
{
    let ghost b = body.data@;
    let ghost p0 = body.pos as int;
    let mut files: Vec<HsspFileEntry> = Vec::new();
    let mut idx: u32 = 0;
    while idx < count
        invariant
            body.data@ == b,
            b == old(body).data@,
            p0 == old(body).pos as int,
            idx <= count,
            table_entries(b, p0, 0, count as nat, main) == match table_entries(
                b,
                body.pos as int,
                idx as nat,
                count as nat,
                main,
            ) {
                Some(rest) => Some(hssp_entries_view(files@) + rest),
                None => None::<Seq<HsspEntryModel>>,
            },
        decreases count - idx,
    {
        let e = match read_table_entry(body, idx, main) {
            Some(e) => e,
            None => return None,
        };
        proof {
            let old_view = hssp_entries_view(files@);
            assert(hssp_entries_view(files@.push(e)) =~= old_view.push(e@));
            match table_entries(b, body.pos as int, (idx + 1) as nat, count as nat, main) {
                Some(rest) => {
                    assert(old_view + (seq![e@] + rest) =~= old_view.push(e@) + rest);
                },
                None => {},
            }
        }
        files.push(e);
        idx = idx + 1;
    }
    proof {
        assert(hssp_entries_view(files@) + Seq::<HsspEntryModel>::empty() =~= hssp_entries_view(
            files@,
        ));
    }
    Some(files)
}

fn same_bytes(a: &Vec<u8>, b: &Vec<u8>) -> (r: bool)
    ensures
        r == (a@ == b@),
{
    if a.len() != b.len() {
        return false;
    }
    let mut i: usize = 0;
    while i < a.len()
        invariant
            a@.len() == b@.len(),
            i <= a@.len(),
            forall|k: int| 0 <= k < i ==> a@[k] == b@[k],
        decreases a@.len() - i,
    {
        if a[i] != b[i] {
            return false;
        }
        i = i + 1;
    }
    assert(a@ =~= b@);
    true
}

/// Whether the bytes `data[start .. start + n]` are all zero.
fn zero_run(data: &Vec<u8>, start: usize, n: usize) -> (r: bool)
    requires
        start + n <= data@.len(),
    ensures
        r == all_zero(data@.subrange(start as int, start + n)),
{
    let len = data.len();
    let mut i: usize = 0;
    while i < n
        invariant
            start + n <= data@.len() == len,
            i <= n,
            forall|k: int| 0 <= k < i ==> #[trigger] data@.subrange(start as int, start + n)[k] == 0,
        decreases n - i,
    {
        if data[start + i] != 0 {
            assert(data@.subrange(start as int, start + n)[i as int] != 0);
            return false;
        }
        i = i + 1;
    }
    true
}

/// Reads an HSSP archive from the start of the container. An encrypted
/// archive is opened with `password` (none stands for the empty password):
/// when the SHA-256 of its key, itself the SHA-256 of the password, differs
/// from the stored hash, the result holds the password record and no files;
/// otherwise the body is decrypted in one pass and the file table is read
/// from it.
pub fn metadata(file: &mut Reader, password: Option<&String>) -> (r: Result<HsspMetadata, Error>)
    ensures
        final(file).data@ == old(file).data@,
        match hssp_parse(
            old(file).data@,
            match password {
                Some(p) => encode_utf8(p@),
                None => Seq::<u8>::empty(),
            },
        ) {
            Ok(m) => r matches Ok(x) && x@ == m,
            Err(e) => r matches Err(x) && x == e,
        },
{
    let ghost s = file.data@;
    let len = file.size();
    if len < 64 {
        return Err(Error::Malformed);
    }
    let d = &file.data;
    let is_v1 = d[0] == 0x53 && d[1] == 0x46 && d[2] == 0x41 && d[3] == 0x00;
    proof {
        if is_v1 {
            assert(s.subrange(0, 4) =~= magic_v1());
        } else {
            assert(s.subrange(0, 4)[0] == d[0] && s.subrange(0, 4)[1] == d[1] && s.subrange(0, 4)[2]
                == d[2] && s.subrange(0, 4)[3] == d[3]);
        }
    }
    let version: u8 = if is_v1 {
        1
    } else if len >= 128 && zero_run(&file.data, 64, 64) {
        3
    } else {
        2
    };
    file.seek(4);
    let checksum = file.read_u32le().unwrap();
    let count = file.read_u32le().unwrap();
    let hash = file.read_bytes(32).unwrap();
    let iv = file.read_bytes(16).unwrap();
    let main = file.read_u32le().unwrap();
    let header: usize = if version > 2 {
        128
    } else {
        64
    };
    let is_encrypted = !(zero_run(&file.data, 12, 32) && zero_run(&file.data, 44, 16));
    if !is_encrypted {
        file.seek(header);
        let files = match read_table(file, count, main) {
            Some(f) => f,
            None => return Err(Error::Malformed),
        };
        return Ok(HsspMetadata { version, checksum, encryption: None, files, has_main: main != 0 });
    }
    let pw = match password {
        Some(p) => string_bytes(p),
        None => Vec::new(),
    };
    let key = sha256::hash_buf(pw.as_slice());
    let in_hash = sha256::hash_buf(key.as_slice());
    if !same_bytes(&in_hash, &hash) {
        let files: Vec<HsspFileEntry> = Vec::new();
        proof {
            assert(hssp_entries_view(files@) =~= Seq::<HsspEntryModel>::empty());
        }
        return Ok(
            HsspMetadata {
                version,
                checksum,
                encryption: Some(HsspEncryption { hash, in_hash, iv, data: None }),
                files,
                has_main: false,
            },
        );
    }
    file.seek(header);
    let sealed = file.read_bytes((len - header) as u64).unwrap();
    proof {
        assert(sealed@ =~= s.subrange(header as int, s.len() as int));
    }
    let decrypted = aes256cbc::decrypt(sealed.as_slice(), key.as_slice(), iv.as_slice());
    let mut body = Reader::new(decrypted);
    let files = match read_table(&mut body, count, main) {
        Some(f) => f,
        None => return Err(Error::Malformed),
    };
    let in_hash = hash.clone();
    Ok(
        HsspMetadata {
            version,
            checksum,
            encryption: Some(HsspEncryption { hash, in_hash, iv, data: Some(body.data) }),
            files,
            has_main: main != 0,
        },
    )
}

/// The bytes of `entry`: from the decrypted body of an encrypted archive,
/// else from the container. `WrongCredential` when the archive is encrypted
/// and was not opened; `Malformed` when the range lies outside the body.
pub fn get_file(reader: &mut Reader, metadata: &HsspMetadata, entry: &HsspFileEntry) -> (r: Result<Vec<u8>, Error>)
    ensures
        final(reader).data@ == old(reader).data@,
        ({
            let body = match metadata.encryption {
                Some(e) => match e.data {
                    Some(d) => Some(d@),
                    None => None,
                },
                None => Some(old(reader).data@),
            };
            match body {
                None => r == Err::<Vec<u8>, Error>(Error::WrongCredential),
                Some(b) => if entry.offset + entry.size <= b.len() {
                    r matches Ok(v) && v@ == b.subrange(entry.offset as int, entry.offset + entry.size)
                } else {
                    r == Err::<Vec<u8>, Error>(Error::Malformed)
                },
            }
        }),
{
    match &metadata.encryption {
        Some(e) => match &e.data {
            Some(d) => {
                let len = d.len();
                if entry.offset > len as u64 || entry.size > (len - entry.offset as usize) as u64 {
                    return Err(Error::Malformed);
                }
                let start = entry.offset as usize;
                let end = start + entry.size as usize;
                let mut out: Vec<u8> = Vec::new();
                crate::binary::write_bytes(&mut out, &d.as_slice()[start..end]);
                Ok(out)
            },
            None => Err(Error::WrongCredential),
        },
        None => {
            let len = reader.size();
            if entry.offset > len as u64 {
                return Err(Error::Malformed);
            }
            reader.seek(entry.offset as usize);
            match reader.read_bytes(entry.size) {
                Some(v) => Ok(v),
                None => Err(Error::Malformed),
            }
        },
    }
}

/// Whether the Murmur3 checksum (seed [`CHECKSUM_SEED`]) of everything after
/// the header, encrypted or not, matches the stored one; `false` for a body of
/// 4 GiB or more, which the checksum cannot cover.
pub fn check_integrity_all(file: &Reader, metadata: &HsspMetadata) -> (r: bool)
    ensures
        r == (header_size(metadata.version) <= file.data@.len() && file.data@.len() - header_size(
            metadata.version,
        ) < 0x1_0000_0000 && murmur3_of(
            file.data@.subrange(header_size(metadata.version), file.data@.len() as int),
            CHECKSUM_SEED,
        ) == metadata.checksum),
{
    let offset: u64 = if metadata.version > 2 {
        128
    } else {
        64
    };
    let len = file.size() as u64;
    if offset > len {
        return false;
    }
    match murmur3::hash(file, offset, len - offset, CHECKSUM_SEED) {
        Some(h) => h == metadata.checksum,
        None => false,
    }
}

/// A file to be written into an HSSP archive, with its content in memory.
#[derive(Debug, Clone)]
pub struct HsspFile {
    pub name: String,
    pub is_directory: bool,
    pub is_main: bool,
    pub source: Vec<u8>,
}

/// The mathematical content of a [`HsspFile`].
pub struct HsspFileModel {
    pub name: Seq<char>,
    pub is_directory: bool,
    pub is_main: bool,
    pub source: Seq<u8>,
}

impl View for HsspFile {
    type V = HsspFileModel;

    open spec fn view(&self) -> HsspFileModel {
        HsspFileModel {
            name: self.name@,
            is_directory: self.is_directory,
            is_main: self.is_main,
            source: self.source@,
        }
    }
}

/// The key and IV to encrypt an archive with.
#[derive(Debug, Clone)]
pub struct HsspEncryptionData {
    pub key: Vec<u8>,
    pub iv: Vec<u8>,
}

/// What [`write`] puts into an archive.
#[derive(Debug, Clone)]
pub struct HsspArchiveData {
    pub version: u8,
    pub encryption: Option<HsspEncryptionData>,
    pub files: Vec<HsspFile>,
}

pub open spec fn hssp_files_view(fs: Seq<HsspFile>) -> Seq<HsspFileModel> {
    fs.map_values(|f: HsspFile| f@)
}

/// The name that the file table stores for `f`: `//` and the name for a directory.
pub open spec fn stored_name(f: HsspFileModel) -> Seq<u8> {
    if f.is_directory {
        seq![0x2fu8, 0x2f] + encode_utf8(f.name)
    } else {
        encode_utf8(f.name)
    }
}

/// The bytes that the file table stores for `f`: none for a directory.
pub open spec fn stored_content(f: HsspFileModel) -> Seq<u8> {
    if f.is_directory {
        Seq::empty()
    } else {
        f.source
    }
}

/// The file-table record of `f`: size, name length, name, content.
pub open spec fn table_record(f: HsspFileModel) -> Seq<u8> {
    le_bytes(stored_content(f).len(), 8) + le_bytes(stored_name(f).len(), 2) + stored_name(f)
        + stored_content(f)
}

/// The records of `files`, one after another.
pub open spec fn table_image(files: Seq<HsspFileModel>) -> Seq<u8>
    decreases files.len(),
{
    if files.len() == 0 {
        Seq::empty()
    } else {
        table_record(files[0]) + table_image(files.drop_first())
    }
}

/// One more than the index of the last main file of `files`; 0 when none is.
pub open spec fn main_index(files: Seq<HsspFileModel>) -> nat
    decreases files.len(),
{
    if files.len() == 0 {
        0
    } else if files.last().is_main {
        files.len()
    } else {
        main_index(files.drop_last())
    }
}

/// Whether the writer can hold `f`: its stored name fits in 16 bits.
pub open spec fn hssp_writable(f: HsspFileModel) -> bool {
    stored_name(f).len() < 0x1_0000
}

/// The unencrypted archive of version `v` holding `files`.
pub open spec fn hssp_image(v: u8, files: Seq<HsspFileModel>) -> Seq<u8> {
    let body = table_image(files);
    (if v == 1 {
        magic_v1()
    } else {
        magic_hssp()
    }) + le_bytes(murmur3_of(body, CHECKSUM_SEED) as nat, 4) + le_bytes(files.len(), 4)
        + Seq::new(48, |k: int| 0u8) + le_bytes(main_index(files), 4) + (if v > 2 {
        Seq::new(64, |k: int| 0u8)
    } else {
        Seq::empty()
    }) + body
}

proof fn lemma_table_image_push(files: Seq<HsspFileModel>, f: HsspFileModel)
    ensures
        table_image(files.push(f)) == table_image(files) + table_record(f),
    decreases files.len(),
{
    if files.len() == 0 {
        assert(files.push(f).drop_first() =~= Seq::<HsspFileModel>::empty());
        assert(files.push(f)[0] == f);
        assert(table_image(files.push(f).drop_first()) == Seq::<u8>::empty());
        assert(table_image(files) == Seq::<u8>::empty());
        assert(table_image(files.push(f)) =~= table_image(files) + table_record(f));
    } else {
        lemma_table_image_push(files.drop_first(), f);
        assert(files.push(f).drop_first() =~= files.drop_first().push(f));
        assert(files.push(f)[0] == files[0]);
        let df = files.drop_first();
        assert(table_image(files.push(f)) == table_record(files[0]) + table_image(df.push(f)));
        assert(table_image(files) == table_record(files[0]) + table_image(df));
        assert(table_image(files.push(f)) =~= table_image(files) + table_record(f));
    }
}

fn write_table_record(target: &mut Vec<u8>, f: &HsspFile)
    requires
        hssp_writable(f@),
    ensures
        final(target)@ == old(target)@ + table_record(f@),
{
    let ghost at = target@;
    let name = string_bytes(&f.name);
    let stored_len = if f.is_directory {
        name.len() + 2
    } else {
        name.len()
    };
    let size: u64 = if f.is_directory {
        0
    } else {
        f.source.len() as u64
    };
    write_u64le(target, size);
    write_u16le(target, stored_len as u16);
    if f.is_directory {
        write_bytes(target, &[0x2fu8, 0x2f]);
    }
    write_bytes(target, name.as_slice());
    if !f.is_directory {
        write_bytes(target, f.source.as_slice());
    }
    proof {
        assert(target@ =~= at + table_record(f@));
    }
}

fn write_zeros(target: &mut Vec<u8>, n: usize)
    ensures
        final(target)@ == old(target)@ + Seq::new(n as nat, |k: int| 0u8),
{
    let mut i: usize = 0;
    while i < n
        invariant
            i <= n,
            target@ == old(target)@ + Seq::new(i as nat, |k: int| 0u8),
        decreases n - i,
    {
        target.push(0);
        assert(target@ =~= old(target)@ + Seq::new((i + 1) as nat, |k: int| 0u8));
        i = i + 1;
    }
}

/// Writes `data` as an HSSP archive: the magic (`SFA\0` for version 1, else
/// `HSSP`), the Murmur3 checksum of the body, the file count, an empty
/// password record, one more than the index of the last main file (0 for
/// none), 64 reserved zero bytes from version 3 on, and then each file's
/// record in order. Encryption is not supported; a table that does not fit
/// the format's counters, or that reaches 4 GiB, fails with `Unsupported`.
pub fn write(data: &HsspArchiveData) -> (r: Result<Vec<u8>, Error>)
    ensures
        data.encryption is Some ==> r == Err::<Vec<u8>, Error>(Error::Unsupported),
        data.encryption is None && data.files@.len() < 0x1_0000_0000 && (forall|k: int|
            0 <= k < data.files@.len() ==> hssp_writable(#[trigger] data.files@[k]@)) && table_image(
            hssp_files_view(data.files@),
        ).len() < 0x1_0000_0000 ==> (r matches Ok(v) && v@ == hssp_image(
            data.version,
            hssp_files_view(data.files@),
        )),
        !(data.files@.len() < 0x1_0000_0000 && (forall|k: int|
            0 <= k < data.files@.len() ==> hssp_writable(#[trigger] data.files@[k]@)) && table_image(
            hssp_files_view(data.files@),
        ).len() < 0x1_0000_0000) ==> r == Err::<Vec<u8>, Error>(Error::Unsupported),
{
    if data.encryption.is_some() {
        return Err(Error::Unsupported);
    }
    let n = data.files.len();
    if n > 0xffff_ffff {
        return Err(Error::Unsupported);
    }
    let ghost fs = hssp_files_view(data.files@);
    let mut body: Vec<u8> = Vec::new();
    let mut main: u32 = 0;
    let mut i: usize = 0;
    while i < n
        invariant
            n == data.files@.len() < 0x1_0000_0000,
            fs == hssp_files_view(data.files@),
            i <= n,
            forall|k: int| 0 <= k < i ==> hssp_writable(#[trigger] data.files@[k]@),
            body@ == table_image(fs.take(i as int)),
            main as nat == main_index(fs.take(i as int)),
        decreases n - i,
    {
        let f = &data.files[i];
        let name = string_bytes(&f.name);
        if (f.is_directory && name.len() > 0xfffd) || (!f.is_directory && name.len() > 0xffff) {
            assert(!hssp_writable(data.files@[i as int]@));
            return Err(Error::Unsupported);
        }
        proof {
            assert(fs[i as int] == f@);
        }
        write_table_record(&mut body, f);
        proof {
            assert(fs.take(i + 1) =~= fs.take(i as int).push(f@));
            lemma_table_image_push(fs.take(i as int), f@);
            assert(fs.take(i + 1).drop_last() =~= fs.take(i as int));
        }
        if f.is_main {
            main = (i + 1) as u32;
        }
        i = i + 1;
    }
    proof {
        assert(fs.take(n as int) =~= fs);
    }
    if body.len() > 0xffff_ffff {
        return Err(Error::Unsupported);
    }
    let checksum = murmur3::murmur3_bytes(body.as_slice(), CHECKSUM_SEED);
    let mut out: Vec<u8> = Vec::new();
    if data.version == 1 {
        write_bytes(&mut out, &[0x53u8, 0x46, 0x41, 0x00]);
    } else {
        write_bytes(&mut out, &[0x48u8, 0x53, 0x53, 0x50]);
    }
    write_u32le(&mut out, checksum);
    write_u32le(&mut out, n as u32);
    write_zeros(&mut out, 48);
    write_u32le(&mut out, main);
    if data.version > 2 {
        write_zeros(&mut out, 64);
    }
    write_bytes(&mut out, body.as_slice());
    proof {
        assert(out@ =~= hssp_image(data.version, fs));
    }
    Ok(out)
}

/// The version that the header of `s` announces: `SFA\0` gives 1; otherwise
/// 64 zero bytes after the fixed header give 3, and anything else gives 2.
pub proof fn lemma_version_sniff(s: Seq<u8>, pw: Seq<u8>)
    requires
        fits(s, 0, 64),
    ensures
        hssp_parse(s, pw) matches Ok(m) ==> {
            &&& s.subrange(0, 4) == magic_v1() ==> m.version == 1
            &&& s.subrange(0, 4) != magic_v1() && fits(s, 64, 64) && all_zero(s.subrange(64, 128))
                ==> m.version == 3
            &&& s.subrange(0, 4) != magic_v1() && !(fits(s, 64, 64) && all_zero(s.subrange(64, 128)))
                ==> m.version == 2
        },
{
}

/// Opening an encrypted archive with a password whose key does not hash to
/// the stored hash yields no files, no main file, and the password record.
pub proof fn lemma_wrong_password(s: Seq<u8>, pw: Seq<u8>)
    requires
        fits(s, 0, 64),
        encrypted(s),
        sha256_of(sha256_of(pw)) != s.subrange(12, 44),
    ensures
        hssp_parse(s, pw) matches Ok(m) && m.files.len() == 0 && !m.has_main && (
        m.encryption matches Some(e) && e.hash == s.subrange(12, 44) && e.data is None),
{
}

proof fn lemma_main_index_bound(files: Seq<HsspFileModel>)
    ensures
        main_index(files) <= files.len(),
    decreases files.len(),
{
    if files.len() > 0 {
        lemma_main_index_bound(files.drop_last());
    }
}

/// Whether the parsed entry `e` of archive `s` carries the name and kind of
/// `f`, with `f`'s stored bytes as its content.
pub open spec fn hssp_entry_matches(e: HsspEntryModel, f: HsspFileModel, s: Seq<u8>) -> bool {
    &&& e.name == f.name
    &&& e.is_directory == f.is_directory
    &&& e.size == stored_content(f).len()
    &&& e.offset + e.size <= s.len()
    &&& s.subrange(e.offset as int, (e.offset + e.size) as int) == stored_content(f)
}

/// Whether the reader reads `files` back as they were written: each stored
/// name fits, no regular file's name starts with the directory mark, and,
/// since the reader skips each name's length once more after the file's
/// bytes, every entry but the last has an empty stored name.
pub open spec fn hssp_readable_back(files: Seq<HsspFileModel>) -> bool {
    &&& forall|k: int| 0 <= k < files.len() ==> hssp_writable(#[trigger] files[k])
    &&& forall|k: int|
        0 <= k < files.len() ==> !(#[trigger] files[k]).is_directory ==> !names_directory(
            encode_utf8(files[k].name),
        )
    &&& forall|k: int| 0 <= k < files.len() - 1 ==> stored_name(#[trigger] files[k]).len() == 0
}

proof fn lemma_in_middle(pre: Seq<u8>, r: Seq<u8>, tail: Seq<u8>, a: int, b: int)
    requires
        0 <= a <= b <= r.len(),
    ensures
        (pre + r + tail).subrange(pre.len() + a, pre.len() + b) == r.subrange(a, b),
{
    assert((pre + r + tail).subrange(pre.len() + a, pre.len() + b) =~= r.subrange(a, b));
}

proof fn lemma_record_parse(pre: Seq<u8>, f: HsspFileModel, tail: Seq<u8>, idx: nat, main: u32)
    requires
        hssp_writable(f),
        !f.is_directory ==> !names_directory(encode_utf8(f.name)),
        (pre + table_record(f) + tail).len() <= usize::MAX,
    ensures
        ({
            let s = pre + table_record(f) + tail;
            let p = pre.len() as int;
            let nl = stored_name(f).len() as int;
            &&& table_entry_at(s, p, idx, main) matches Some((e, q))
            &&& hssp_entry_matches(e, f, s)
            &&& q == saturate(p + table_record(f).len() + nl)
        }),
{
    let s = pre + table_record(f) + tail;
    let r = table_record(f);
    let p = pre.len() as int;
    let name = stored_name(f);
    let content = stored_content(f);
    let nl = name.len() as int;
    lemma_pow256_values();
    lemma_le_bytes_len(content.len(), 8);
    lemma_le_bytes_len(name.len(), 2);
    assert(content.len() < 0x1_0000_0000_0000_0000) by {
        assert(s.len() <= usize::MAX);
    }
    lemma_le_round_trip(content.len(), 8);
    lemma_le_round_trip(name.len(), 2);
    assert(r.subrange(0, 8) =~= le_bytes(content.len(), 8));
    assert(r.subrange(8, 10) =~= le_bytes(name.len(), 2));
    assert(r.subrange(10, 10 + nl) =~= name);
    assert(r.subrange(10 + nl, r.len() as int) =~= content);
    lemma_in_middle(pre, r, tail, 0, 8);
    lemma_in_middle(pre, r, tail, 8, 10);
    lemma_in_middle(pre, r, tail, 10, 10 + nl);
    lemma_in_middle(pre, r, tail, 10 + nl, r.len() as int);
    broadcast use vstd::utf8::encode_utf8_valid_utf8, vstd::utf8::encode_utf8_decode_utf8;

    if f.is_directory {
        assert(names_directory(name));
        assert(bare_name(name) =~= encode_utf8(f.name));
    } else {
        assert(bare_name(name) == encode_utf8(f.name));
    }
}

proof fn lemma_table_parse(pre: Seq<u8>, files: Seq<HsspFileModel>, idx: nat, main: u32)
    requires
        hssp_readable_back(files),
        (pre + table_image(files)).len() <= usize::MAX,
    ensures
        table_entries(pre + table_image(files), pre.len() as int, idx, idx + files.len(), main) matches Some(
            es,
        ) && es.len() == files.len() && forall|k: int|
            0 <= k < files.len() ==> hssp_entry_matches(#[trigger] es[k], files[k], pre + table_image(files)),
    decreases files.len(),
{
    let s = pre + table_image(files);
    if files.len() > 0 {
        let f = files[0];
        let rest = files.drop_first();
        let r = table_record(f);
        let pre2 = pre + r;
        assert(s =~= pre + r + table_image(rest));
        assert(pre2 + table_image(rest) =~= s);
        assert(hssp_writable(files[0]));
        lemma_record_parse(pre, f, table_image(rest), idx, main);
        let (e, q) = table_entry_at(s, pre.len() as int, idx, main)->Some_0;
        if rest.len() == 0 {
            assert(table_entries(s, q, idx + 1, idx + files.len(), main) == Some(Seq::<HsspEntryModel>::empty()));
            assert(seq![e] + Seq::<HsspEntryModel>::empty() =~= seq![e]);
        } else {
            assert(stored_name(files[0]).len() == 0);
            assert(q == pre2.len());
            assert(hssp_readable_back(rest)) by {
                assert(forall|k: int| 0 <= k < rest.len() ==> rest[k] == files[k + 1]);
            }
            lemma_table_parse(pre2, rest, idx + 1, main);
            let es_rest = table_entries(s, q, idx + 1, idx + files.len(), main)->Some_0;
            let es = seq![e] + es_rest;
            assert(table_entries(s, pre.len() as int, idx, idx + files.len(), main) == Some(es));
            assert forall|k: int| 0 <= k < files.len() implies hssp_entry_matches(#[trigger] es[k], files[k], s) by {
                if k > 0 {
                    assert(es[k] == es_rest[k - 1]);
                    assert(files[k] == rest[k - 1]);
                }
            }
        }
    }
}

/// Reading back, with any password, an unencrypted archive that [`write`]
/// produced gives its version, its checksum, which the integrity check then
/// accepts, and for each file in order an entry with the same name and kind
/// whose bytes are the file's. This needs the files to be readable back (see
/// [`hssp_readable_back`]), and, for version 2, a table whose first 64 bytes
/// are not all zero, since those would announce version 3.
pub proof fn lemma_hssp_round_trip(v: u8, files: Seq<HsspFileModel>, pw: Seq<u8>)
    requires
        1 <= v <= 3,
        files.len() < 0x1_0000_0000,
        hssp_readable_back(files),
        hssp_image(v, files).len() <= usize::MAX,
        v == 2 ==> !(table_image(files).len() >= 64 && all_zero(table_image(files).subrange(0, 64))),
    ensures
        hssp_parse(hssp_image(v, files), pw) matches Ok(m) && m.version == v && m.encryption is None
            && m.checksum == murmur3_of(table_image(files), CHECKSUM_SEED) && murmur3_of(
            hssp_image(v, files).subrange(header_size(v), hssp_image(v, files).len() as int),
            CHECKSUM_SEED,
        ) == m.checksum && m.files.len() == files.len() && forall|k: int|
            0 <= k < files.len() ==> hssp_entry_matches(
                #[trigger] m.files[k],
                files[k],
                hssp_image(v, files),
            ),
{
    let body = table_image(files);
    let s = hssp_image(v, files);
    let magic = if v == 1 {
        magic_v1()
    } else {
        magic_hssp()
    };
    let c = murmur3_of(body, CHECKSUM_SEED);
    let main = main_index(files);
    let reserved = if v > 2 {
        Seq::new(64, |k: int| 0u8)
    } else {
        Seq::<u8>::empty()
    };
    let h = magic + le_bytes(c as nat, 4) + le_bytes(files.len(), 4) + Seq::new(48, |k: int| 0u8)
        + le_bytes(main, 4) + reserved;
    lemma_pow256_values();
    lemma_main_index_bound(files);
    lemma_le_bytes_len(c as nat, 4);
    lemma_le_bytes_len(files.len(), 4);
    lemma_le_bytes_len(main, 4);
    lemma_le_round_trip(c as nat, 4);
    lemma_le_round_trip(files.len(), 4);
    lemma_le_round_trip(main, 4);
    assert(s =~= h + body);
    assert(h.len() == header_size(v));
    assert(s.subrange(0, 4) =~= magic);
    assert(s.subrange(4, 8) =~= le_bytes(c as nat, 4));
    assert(s.subrange(8, 12) =~= le_bytes(files.len(), 4));
    assert(s.subrange(12, 44) =~= Seq::new(32, |k: int| 0u8));
    assert(s.subrange(44, 60) =~= Seq::new(16, |k: int| 0u8));
    assert(s.subrange(60, 64) =~= le_bytes(main, 4));
    assert(!encrypted(s));
    if v == 1 {
        assert(hssp_version(s) == 1);
    } else {
        assert(s.subrange(0, 4)[0] != magic_v1()[0]);
        if v == 3 {
            assert(s.subrange(64, 128) =~= Seq::new(64, |k: int| 0u8));
            assert(hssp_version(s) == 3);
        } else {
            if fits(s, 64, 64) {
                assert(s.subrange(64, 128) =~= body.subrange(0, 64));
            }
            assert(hssp_version(s) == 2);
        }
    }
    assert(s.subrange(header_size(v), s.len() as int) =~= body);
    lemma_table_parse(h, files, 0, main as u32);
    assert(le_at(s, 60, 4) as u32 == main as u32);
}

} // verus!
