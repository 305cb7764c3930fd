use corelib::archive::{self, EntrySource, Selection};
use corelib::binary::Reader;
use corelib::formats::{self, DetectionAccuracy, Format, Formats};
use corelib::types::{EntryTime, Timestamp};
use corelib::Error;

fn stamp() -> Timestamp {
    Timestamp { year: 2024, month: 7, day: 12, hour: 18, minute: 11, second: 8 }
}

fn source(path: &str, contents: &[u8]) -> EntrySource {
    EntrySource { path: path.to_string(), is_directory: false, modified: stamp(), contents: contents.to_vec() }
}

fn zip_of(entries: &[EntrySource]) -> Reader {
    Reader::new(archive::create(Formats::Zip, &entries.to_vec()).unwrap())
}

#[test]
fn extract_by_index_out_of_range() {
    let mut file = zip_of(&[source("a.txt", b"a"), source("b.txt", b"b")]);
    let r = archive::extract(Formats::Zip, &mut file, &Selection::ByIndex(2), false, None);
    assert!(matches!(r, Err(Error::IndexOutOfRange)));
    let r = archive::extract(Formats::Zip, &mut file, &Selection::ByIndex(7), false, None);
    assert!(matches!(r, Err(Error::IndexOutOfRange)));
}

#[test]
fn extract_by_index_picks_one() {
    let mut file = zip_of(&[source("a.txt", b"a"), source("b.txt", b"bb")]);
    let items = archive::extract(Formats::Zip, &mut file, &Selection::ByIndex(1), true, None).unwrap();
    assert_eq!(items.len(), 1);
    assert_eq!(items[0].path, "b.txt");
    assert_eq!(items[0].contents, b"bb".to_vec());
    assert_eq!(items[0].modified, Some(EntryTime::Civil(stamp())));
}

#[test]
fn extract_by_path_prefix() {
    let mut file = zip_of(&[source("docs/a.txt", b"a"), source("src/b.rs", b"b"), source("docs/c.txt", b"c")]);
    let items = archive::extract(Formats::Zip, &mut file, &Selection::ByPathPrefix("docs/".to_string()), false, None).unwrap();
    assert_eq!(items.len(), 2);
    assert_eq!(items[0].path, "docs/a.txt");
    assert_eq!(items[1].path, "docs/c.txt");
    let none = archive::extract(Formats::Zip, &mut file, &Selection::ByPathPrefix("zzz".to_string()), false, None).unwrap();
    assert!(none.is_empty());
}

#[test]
fn extract_refuses_path_traversal() {
    let mut file = zip_of(&[source("ok.txt", b"a"), source("../evil.txt", b"b")]);
    let r = archive::extract(Formats::Zip, &mut file, &Selection::All, false, None);
    assert!(matches!(r, Err(Error::PathTraversal)));
    let mut file = zip_of(&[source("/etc/passwd", b"x")]);
    let r = archive::extract(Formats::Zip, &mut file, &Selection::All, false, None);
    assert!(matches!(r, Err(Error::PathTraversal)));
    let ok = archive::extract(Formats::Zip, &mut zip_of(&[source("a/..b/c", b"x")]), &Selection::All, false, None);
    assert!(ok.is_ok());
}

#[test]
fn containment_rules() {
    assert!(archive::is_contained(&"a/b.txt".to_string()));
    assert!(archive::is_contained(&"..a".to_string()));
    assert!(!archive::is_contained(&"..".to_string()));
    assert!(!archive::is_contained(&"a/../../b".to_string()));
    assert!(!archive::is_contained(&"a/..".to_string()));
    assert!(!archive::is_contained(&"/abs".to_string()));
    assert!(!archive::is_contained(&"a\\b".to_string()));
    assert!(!archive::is_contained(&"C:name".to_string()));
    assert!(!archive::is_contained(&"c:/x".to_string()));
    assert!(archive::is_contained(&"dir/a:b".to_string()));
}

#[test]
fn metadata_lists_common_entries() {
    let mut file = zip_of(&[source("a.txt", b"abc")]);
    let m = archive::metadata(Formats::Zip, &mut file, true, None).unwrap();
    assert_eq!(m.get_format(), Formats::Zip);
    let files = m.get_files();
    assert_eq!(files.len(), 1);
    assert_eq!(files[0].path, "a.txt");
    assert_eq!(files[0].size, 3);
    assert!(!files[0].is_directory);
    assert_eq!(&file.data[files[0].offset as usize..files[0].offset as usize + 3], b"abc");
}

#[test]
fn create_hssp_reads_back() {
    let entries = vec![source("only.txt", b"payload")];
    let bytes = archive::create(Formats::Hssp, &entries).unwrap();
    let mut file = Reader::new(bytes);
    let items = archive::extract(Formats::Hssp, &mut file, &Selection::All, true, None).unwrap();
    assert_eq!(items.len(), 1);
    assert_eq!(items[0].path, "only.txt");
    assert_eq!(items[0].contents, b"payload".to_vec());
    assert_eq!(items[0].modified, None);
}

#[test]
fn create_rar_is_unsupported() {
    let r = archive::create(Formats::Rar, &vec![source("a", b"")]);
    assert!(matches!(r, Err(Error::Unsupported)));
}

#[test]
fn format_names() {
    assert_eq!(formats::from_str("zip"), Some(Format::Zip));
    assert_eq!(formats::from_str("umsbt"), Some(Format::Umsbt));
    assert_eq!(formats::from_str("msbt"), Some(Format::Msbt));
    assert_eq!(formats::from_str("rar"), None);
    assert_eq!(formats::from_str("Zip"), None);
    assert_ne!(DetectionAccuracy::Magic, DetectionAccuracy::Parse);
}

#[test]
fn murmur3_hash_of_range() {
    let r = Reader::new(b"0123456789".to_vec());
    let expected = murmur3::murmur3_32(&mut std::io::Cursor::new(&b"2345"[..]), 7).unwrap();
    assert_eq!(corelib::helpers::murmur3::hash(&r, 2, 4, 7), Some(expected));
    assert_ne!(corelib::helpers::murmur3::hash(&r, 2, 4, 7), corelib::helpers::murmur3::hash(&r, 3, 4, 7));
    assert_eq!(corelib::helpers::murmur3::hash(&r, 8, 4, 7), None);
}

#[test]
fn crc32_hash_of_range() {
    let r = Reader::new(b"xxHello, world!\nyy".to_vec());
    assert_eq!(corelib::helpers::crc32::hash(&r, 2, 14), Some(crc32fast::hash(b"Hello, world!\n")));
    assert_eq!(corelib::helpers::crc32::hash(&r, 10, 14), None);
}

#[test]
fn sha256_and_aes_helpers() {
    let digest = corelib::helpers::sha256::hash_buf(b"abc");
    assert_eq!(digest[0..4], [0xba, 0x78, 0x16, 0xbf]);
    let key = [7u8; 32];
    let iv = [9u8; 16];
    let sealed = libaes::Cipher::new_256(&key).cbc_encrypt(&iv, b"secret message");
    let plain = corelib::helpers::aes256cbc::decrypt(&sealed, &key, &iv);
    assert_eq!(plain, b"secret message".to_vec());
    assert!(corelib::helpers::aes256cbc::decrypt(&sealed[..5], &key, &iv).is_empty());
}

#[test]
fn reader_fixed_width_reads() {
    let mut r = Reader::new(vec![0x34, 0x12, 0x78, 0x56, 0x34, 0x12, 1, 0, 0, 0, 0, 0, 0, 0]);
    assert_eq!(r.read_u16le(), Some(0x1234));
    assert_eq!(r.read_u32le(), Some(0x12345678));
    assert_eq!(r.read_u64le(), Some(1));
    assert_eq!(r.read_u8(), None);
    r.seek(1);
    assert_eq!(r.read_u8(), Some(0x12));
    assert!(!r.jump(100));
    assert_eq!(r.position(), 2);
    assert_eq!(r.read_bytes(2), Some(vec![0x78, 0x56]));
    r.rewind();
    assert_eq!(r.position(), 0);
    assert_eq!(r.size(), 14);
}
