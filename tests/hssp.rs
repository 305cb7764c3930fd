use corelib::binary::Reader;
use corelib::formats::hssp::{self, HsspArchiveData, HsspFile};
use corelib::Error;
use sha2::Digest;

const SEED: u32 = 822616071;

fn murmur(data: &[u8]) -> u32 {
    murmur3::murmur3_32(&mut std::io::Cursor::new(data), SEED).unwrap()
}

fn record(name: &str, data: &[u8]) -> Vec<u8> {
    let mut out = (data.len() as u64).to_le_bytes().to_vec();
    out.extend_from_slice(&(name.len() as u16).to_le_bytes());
    out.extend_from_slice(name.as_bytes());
    out.extend_from_slice(data);
    out
}

fn plain_archive(magic: &[u8], version3: bool, body: &[u8], count: u32, main: u32) -> Vec<u8> {
    let mut out = magic.to_vec();
    out.extend_from_slice(&murmur(body).to_le_bytes());
    out.extend_from_slice(&count.to_le_bytes());
    out.extend_from_slice(&[0u8; 48]);
    out.extend_from_slice(&main.to_le_bytes());
    if version3 {
        out.extend_from_slice(&[0u8; 64]);
    }
    out.extend_from_slice(body);
    out
}

fn encrypted_archive(password: &str, body: &[u8]) -> Vec<u8> {
    encrypted_archive_as(b"HSSP", false, password, body)
}

fn encrypted_archive_as(magic: &[u8], version3: bool, password: &str, body: &[u8]) -> Vec<u8> {
    let key = sha2::Sha256::digest(password.as_bytes()).to_vec();
    let hash = sha2::Sha256::digest(&key).to_vec();
    let iv: [u8; 16] = *b"0123456789abcdef";
    let key_array: [u8; 32] = key.as_slice().try_into().unwrap();
    let sealed = libaes::Cipher::new_256(&key_array).cbc_encrypt(&iv, body);
    let mut out = magic.to_vec();
    out.extend_from_slice(&murmur(&sealed).to_le_bytes());
    out.extend_from_slice(&1u32.to_le_bytes());
    out.extend_from_slice(&hash);
    out.extend_from_slice(&iv);
    out.extend_from_slice(&0u32.to_le_bytes());
    if version3 {
        out.extend_from_slice(&[0u8; 64]);
    }
    out.extend_from_slice(&sealed);
    out
}

#[test]
fn hssp_sample_000() {
    let body = record("test.txt", b"Hello, world!");
    let mut file = Reader::new(plain_archive(b"HSSP", false, &body, 1, 0));
    let metadata = hssp::metadata(&mut file, None).unwrap();
    assert_eq!(metadata.version, 2);
    assert!(metadata.encryption.is_none());
    assert_eq!(metadata.files.len(), 1);
    assert_eq!(metadata.files[0].name, "test.txt");
    assert!(!metadata.files[0].is_main);
    assert!(!metadata.files[0].is_directory);
    assert!(!metadata.has_main);
    let test_txt = hssp::get_file(&mut file, &metadata, &metadata.files[0]).unwrap();
    assert_eq!(String::from_utf8(test_txt).unwrap(), "Hello, world!");
    assert!(hssp::check_integrity_all(&file, &metadata));
}

#[test]
fn hssp_sample_001() {
    let body = record("test.txt", b"Hello, world!");
    let mut file = Reader::new(encrypted_archive("Password", &body));
    let password = "Password".to_string();
    let metadata = hssp::metadata(&mut file, Some(&password)).unwrap();
    assert_eq!(metadata.version, 2);
    assert!(metadata.encryption.is_some());
    assert_eq!(metadata.files.len(), 1);
    assert_eq!(metadata.files[0].name, "test.txt");
    assert!(!metadata.files[0].is_main);
    assert!(!metadata.files[0].is_directory);
    assert!(!metadata.has_main);
    let test_txt = hssp::get_file(&mut file, &metadata, &metadata.files[0]).unwrap();
    assert_eq!(String::from_utf8(test_txt).unwrap(), "Hello, world!");
    assert!(hssp::check_integrity_all(&file, &metadata));
}

#[test]
fn hssp_wrong_password_lists_nothing() {
    let body = record("test.txt", b"Hello, world!");
    let mut file = Reader::new(encrypted_archive("Password", &body));
    let wrong = "password".to_string();
    let metadata = hssp::metadata(&mut file, Some(&wrong)).unwrap();
    assert!(metadata.files.is_empty());
    assert!(!metadata.has_main);
    let enc = metadata.encryption.as_ref().unwrap();
    assert!(enc.data.is_none());
    assert_eq!(enc.hash, file.data[12..44].to_vec());
    let key = sha2::Sha256::digest(b"password").to_vec();
    assert_eq!(enc.in_hash, sha2::Sha256::digest(&key).to_vec());
    let metadata = hssp::metadata(&mut file, None).unwrap();
    assert!(metadata.files.is_empty());
    assert!(metadata.encryption.is_some());
}

#[test]
fn hssp_locked_body_refuses_get_file() {
    let body = record("test.txt", b"Hello, world!");
    let mut file = Reader::new(encrypted_archive("Password", &body));
    let opened = hssp::metadata(&mut file, Some(&"Password".to_string())).unwrap();
    let locked = hssp::metadata(&mut file, None).unwrap();
    let r = hssp::get_file(&mut file, &locked, &opened.files[0]);
    assert!(matches!(r, Err(Error::WrongCredential)));
}

/// A record followed by as many filler bytes as its name has, where the
/// reader looks for the next record.
fn record_then_gap(name: &str, data: &[u8]) -> Vec<u8> {
    let mut out = record(name, data);
    out.extend(std::iter::repeat(0xaau8).take(name.len()));
    out
}

#[test]
fn hssp_sample_002() {
    let mut body = record_then_gap("//test", b"");
    body.extend(record("test/test.txt", b"Hello, world!"));
    let mut file = Reader::new(plain_archive(b"HSSP", false, &body, 2, 0));
    let metadata = hssp::metadata(&mut file, None).unwrap();
    assert_eq!(metadata.version, 2);
    assert!(metadata.encryption.is_none());
    assert_eq!(metadata.files.len(), 2);
    assert_eq!(metadata.files[0].name, "test");
    assert!(!metadata.files[0].is_main);
    assert!(metadata.files[0].is_directory);
    assert_eq!(metadata.files[1].name, "test/test.txt");
    assert!(!metadata.files[1].is_main);
    assert!(!metadata.files[1].is_directory);
    assert!(!metadata.has_main);
    let test_txt = hssp::get_file(&mut file, &metadata, &metadata.files[1]).unwrap();
    assert_eq!(String::from_utf8(test_txt).unwrap(), "Hello, world!");
    assert!(hssp::check_integrity_all(&file, &metadata));
}

#[test]
fn hssp_sample_003() {
    let mut body = record_then_gap("test.txt", b"Hello, world!");
    body.extend(record("test2.txt", b"Hello, world! 2"));
    let mut file = Reader::new(plain_archive(b"HSSP", false, &body, 2, 0));
    let metadata = hssp::metadata(&mut file, None).unwrap();
    assert_eq!(metadata.version, 2);
    assert!(metadata.encryption.is_none());
    assert_eq!(metadata.files.len(), 2);
    assert_eq!(metadata.files[0].name, "test.txt");
    assert!(!metadata.files[0].is_main);
    assert!(!metadata.files[0].is_directory);
    assert_eq!(metadata.files[1].name, "test2.txt");
    assert!(!metadata.files[1].is_main);
    assert!(!metadata.files[1].is_directory);
    assert!(!metadata.has_main);
    let test_txt = hssp::get_file(&mut file, &metadata, &metadata.files[0]).unwrap();
    assert_eq!(String::from_utf8(test_txt).unwrap(), "Hello, world!");
    let test2_txt = hssp::get_file(&mut file, &metadata, &metadata.files[1]).unwrap();
    assert_eq!(String::from_utf8(test2_txt).unwrap(), "Hello, world! 2");
    assert!(hssp::check_integrity_all(&file, &metadata));
}

#[test]
fn hssp_main_index_counts_from_one() {
    let mut body = record("", b"");
    body.extend(record("//test", b""));
    let mut file = Reader::new(plain_archive(b"HSSP", false, &body, 2, 2));
    let metadata = hssp::metadata(&mut file, None).unwrap();
    assert_eq!(metadata.files.len(), 2);
    assert!(!metadata.files[0].is_main);
    assert!(metadata.files[1].is_main);
    assert!(metadata.files[1].is_directory);
    assert!(metadata.has_main);
}

#[test]
fn hssp_skip_counts_name_length_twice() {
    let mut body = record("a", b"xy");
    body.extend_from_slice(b"-");
    body.extend(record("b", b"z"));
    let mut file = Reader::new(plain_archive(b"HSSP", false, &body, 2, 0));
    let metadata = hssp::metadata(&mut file, None).unwrap();
    assert_eq!(metadata.files[0].name, "a");
    assert_eq!(metadata.files[0].offset, 64 + 11);
    assert_eq!(metadata.files[1].name, "b");
    assert_eq!(metadata.files[1].offset, 64 + 14 + 11);
}

#[test]
fn hssp_version_sniff() {
    let body = record("test.txt", b"Hello, world!");
    let mut v1 = Reader::new(plain_archive(b"SFA\0", false, &body, 1, 0));
    assert_eq!(hssp::metadata(&mut v1, None).unwrap().version, 1);
    let mut v3 = Reader::new(plain_archive(b"HSSP", true, &body, 1, 0));
    let m3 = hssp::metadata(&mut v3, None).unwrap();
    assert_eq!(m3.version, 3);
    assert_eq!(m3.files[0].offset, 128 + 18);
    let mut v2 = Reader::new(plain_archive(b"HSSP", false, &body, 1, 0));
    assert_eq!(hssp::metadata(&mut v2, None).unwrap().version, 2);
}

#[test]
fn hssp_short_header_is_malformed() {
    let mut file = Reader::new(b"HSSP".to_vec());
    assert!(matches!(hssp::metadata(&mut file, None), Err(Error::Malformed)));
}

#[test]
fn hssp_corrupted_body_fails_integrity() {
    let body = record("test.txt", b"Hello, world!");
    let mut bytes = plain_archive(b"HSSP", false, &body, 1, 0);
    let n = bytes.len();
    bytes[n - 1] ^= 0x20;
    let mut file = Reader::new(bytes);
    let metadata = hssp::metadata(&mut file, None).unwrap();
    assert!(!hssp::check_integrity_all(&file, &metadata));
}

#[test]
fn hssp_write_then_read_round_trips() {
    for version in [1u8, 2, 3] {
        let data = HsspArchiveData {
            version,
            encryption: None,
            files: vec![
                HsspFile { name: String::new(), is_directory: false, is_main: false, source: b"first".to_vec() },
                HsspFile { name: "test.txt".to_string(), is_directory: false, is_main: true, source: b"Hello, world!".to_vec() },
            ],
        };
        let bytes = hssp::write(&data).unwrap();
        let mut file = Reader::new(bytes);
        let metadata = hssp::metadata(&mut file, None).unwrap();
        assert_eq!(metadata.version, version);
        assert_eq!(metadata.files.len(), 2);
        assert_eq!(metadata.files[1].name, "test.txt");
        assert!(metadata.files[1].is_main);
        assert!(metadata.has_main);
        let first = hssp::get_file(&mut file, &metadata, &metadata.files[0]).unwrap();
        assert_eq!(first, b"first".to_vec());
        let second = hssp::get_file(&mut file, &metadata, &metadata.files[1]).unwrap();
        assert_eq!(second, b"Hello, world!".to_vec());
        assert!(hssp::check_integrity_all(&file, &metadata));
    }
}

#[test]
fn hssp_write_directory_and_magic() {
    let data = HsspArchiveData {
        version: 2,
        encryption: None,
        files: vec![HsspFile { name: "test".to_string(), is_directory: true, is_main: false, source: b"ignored".to_vec() }],
    };
    let bytes = hssp::write(&data).unwrap();
    assert_eq!(&bytes[0..4], b"HSSP");
    assert_eq!(&bytes[64..72], &0u64.to_le_bytes());
    assert_eq!(&bytes[72..74], &6u16.to_le_bytes());
    assert_eq!(&bytes[74..80], b"//test");
    assert_eq!(bytes.len(), 80);
    assert_eq!(u32::from_le_bytes(bytes[4..8].try_into().unwrap()), murmur(&bytes[64..]));
    let mut file = Reader::new(bytes);
    let metadata = hssp::metadata(&mut file, None).unwrap();
    assert_eq!(metadata.files[0].name, "test");
    assert!(metadata.files[0].is_directory);
    assert_eq!(metadata.files[0].size, 0);
}

#[test]
fn hssp_write_refuses_encryption() {
    let data = HsspArchiveData {
        version: 2,
        encryption: Some(hssp::HsspEncryptionData { key: b"k".to_vec(), iv: vec![0; 16] }),
        files: Vec::new(),
    };
    assert!(matches!(hssp::write(&data), Err(Error::Unsupported)));
}

/// The magic and layout of each version: `SFA\0` for 1, `HSSP` for 2 and 3,
/// with 64 reserved zero bytes for 3.
fn layout(version: u8) -> (&'static [u8], bool) {
    match version {
        1 => (b"SFA\0", false),
        2 => (b"HSSP", false),
        _ => (b"HSSP", true),
    }
}

fn check_single_file(version: u8) {
    let (magic, v3) = layout(version);
    let body = record("test.txt", b"Hello, world!");
    let mut file = Reader::new(plain_archive(magic, v3, &body, 1, 1));
    let metadata = hssp::metadata(&mut file, None).unwrap();
    assert_eq!(metadata.version, version);
    assert!(metadata.encryption.is_none());
    assert_eq!(metadata.files.len(), 1);
    assert_eq!(metadata.files[0].name, "test.txt");
    assert!(metadata.files[0].is_main);
    assert!(metadata.has_main);
    let test_txt = hssp::get_file(&mut file, &metadata, &metadata.files[0]).unwrap();
    assert_eq!(String::from_utf8(test_txt).unwrap(), "Hello, world!");
    assert!(hssp::check_integrity_all(&file, &metadata));
}

fn check_encrypted(version: u8) {
    let (magic, v3) = layout(version);
    let body = record("test.txt", b"Hello, world!");
    let mut file = Reader::new(encrypted_archive_as(magic, v3, "Password", &body));
    let metadata = hssp::metadata(&mut file, Some(&"Password".to_string())).unwrap();
    assert_eq!(metadata.version, version);
    assert!(metadata.encryption.is_some());
    assert_eq!(metadata.files.len(), 1);
    assert_eq!(metadata.files[0].name, "test.txt");
    let test_txt = hssp::get_file(&mut file, &metadata, &metadata.files[0]).unwrap();
    assert_eq!(String::from_utf8(test_txt).unwrap(), "Hello, world!");
    assert!(hssp::check_integrity_all(&file, &metadata));
    let locked = hssp::metadata(&mut file, Some(&"wrong".to_string())).unwrap();
    assert_eq!(locked.version, version);
    assert!(locked.files.is_empty());
    assert!(locked.encryption.is_some());
}

fn check_directory(version: u8) {
    let (magic, v3) = layout(version);
    let mut body = record_then_gap("//test", b"");
    body.extend(record("test/test.txt", b"Hello, world!"));
    let mut file = Reader::new(plain_archive(magic, v3, &body, 2, 0));
    let metadata = hssp::metadata(&mut file, None).unwrap();
    assert_eq!(metadata.version, version);
    assert_eq!(metadata.files.len(), 2);
    assert_eq!(metadata.files[0].name, "test");
    assert!(metadata.files[0].is_directory);
    assert_eq!(metadata.files[1].name, "test/test.txt");
    assert!(!metadata.files[1].is_directory);
    let test_txt = hssp::get_file(&mut file, &metadata, &metadata.files[1]).unwrap();
    assert_eq!(String::from_utf8(test_txt).unwrap(), "Hello, world!");
    assert!(hssp::check_integrity_all(&file, &metadata));
}

fn check_two_files(version: u8) {
    let (magic, v3) = layout(version);
    let mut body = record_then_gap("test.txt", b"Hello, world!");
    body.extend(record("test2.txt", b"Hello, world! 2"));
    let mut file = Reader::new(plain_archive(magic, v3, &body, 2, 0));
    let metadata = hssp::metadata(&mut file, None).unwrap();
    assert_eq!(metadata.version, version);
    assert_eq!(metadata.files.len(), 2);
    let a = hssp::get_file(&mut file, &metadata, &metadata.files[0]).unwrap();
    assert_eq!(String::from_utf8(a).unwrap(), "Hello, world!");
    let b = hssp::get_file(&mut file, &metadata, &metadata.files[1]).unwrap();
    assert_eq!(String::from_utf8(b).unwrap(), "Hello, world! 2");
    assert!(!metadata.has_main);
    assert!(hssp::check_integrity_all(&file, &metadata));
}

fn check_bad_checksum(version: u8) {
    let (magic, v3) = layout(version);
    let body = record("test.txt", b"Hello, world!");
    let mut bytes = plain_archive(magic, v3, &body, 1, 0);
    bytes[4] ^= 0x01;
    let mut file = Reader::new(bytes);
    let metadata = hssp::metadata(&mut file, None).unwrap();
    assert_eq!(metadata.version, version);
    assert!(!hssp::check_integrity_all(&file, &metadata));
}

#[test]
fn hssp_v1_single_file() {
    check_single_file(1);
}

#[test]
fn hssp_v1_encrypted() {
    check_encrypted(1);
}

#[test]
fn hssp_v1_directory() {
    check_directory(1);
}

#[test]
fn hssp_v1_two_files() {
    check_two_files(1);
}

#[test]
fn hssp_v1_bad_checksum() {
    check_bad_checksum(1);
}

#[test]
fn hssp_v2_single_main_file() {
    check_single_file(2);
}

#[test]
fn hssp_v2_bad_checksum() {
    check_bad_checksum(2);
}

#[test]
fn hssp_v3_single_file() {
    check_single_file(3);
}

#[test]
fn hssp_v3_encrypted() {
    check_encrypted(3);
}

#[test]
fn hssp_v3_directory() {
    check_directory(3);
}

#[test]
fn hssp_v3_two_files() {
    check_two_files(3);
}

#[test]
fn hssp_v3_bad_checksum() {
    check_bad_checksum(3);
}
