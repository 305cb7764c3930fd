use corelib::archive::{self, EntrySource, ExtractItem, OriginalArchiveMetadata, Selection};
use corelib::binary::Reader;
use corelib::formats::zip::{self, ZipArchiveData, ZipCompression, ZipFile};
use corelib::formats::Formats;
use corelib::helpers::msdos;
use corelib::types::Timestamp;
use corelib::Error;

fn local_header(name: &str, data: &[u8], date: u16, time: u16) -> Vec<u8> {
    let mut out = Vec::new();
    out.extend_from_slice(b"PK\x03\x04");
    out.extend_from_slice(&20u16.to_le_bytes());
    out.extend_from_slice(&0u16.to_le_bytes());
    out.extend_from_slice(&0u16.to_le_bytes());
    out.extend_from_slice(&time.to_le_bytes());
    out.extend_from_slice(&date.to_le_bytes());
    out.extend_from_slice(&crc32fast::hash(data).to_le_bytes());
    out.extend_from_slice(&(data.len() as u32).to_le_bytes());
    out.extend_from_slice(&(data.len() as u32).to_le_bytes());
    out.extend_from_slice(&(name.len() as u16).to_le_bytes());
    out.extend_from_slice(&0u16.to_le_bytes());
    out.extend_from_slice(name.as_bytes());
    out.extend_from_slice(data);
    out
}

fn central_directory_start() -> Vec<u8> {
    let mut out = b"PK\x01\x02".to_vec();
    out.extend_from_slice(&[0u8; 42]);
    out
}

fn two_file_fixture() -> Vec<u8> {
    let mut out = local_header("test.txt", b"Hello, world!\n", 22764, 37220);
    out.extend(local_header("test2.txt", b"Hello, world! 2\n", 22764, 37229));
    out.extend(central_directory_start());
    out
}

fn rfc3339(t: &Timestamp) -> String {
    chrono::NaiveDate::from_ymd_opt(t.year as i32, t.month as u32, t.day as u32)
        .unwrap()
        .and_hms_opt(t.hour as u32, t.minute as u32, t.second as u32)
        .unwrap()
        .and_utc()
        .to_rfc3339()
}

fn ts(year: u16, month: u8, day: u8, hour: u8, minute: u8, second: u8) -> Timestamp {
    Timestamp { year, month, day, hour, minute, second }
}

#[test]
fn zip_sample_001() {
    let mut file = Reader::new(two_file_fixture());
    let metadata = zip::metadata(&mut file).unwrap();
    assert_eq!(metadata.files.len(), 2);
    assert_eq!(metadata.files[0].path, "test.txt");
    assert_eq!(metadata.files[0].size, 14);
    assert_eq!(metadata.files[0].compression.as_str(), "stored");
    assert_eq!(metadata.files[0].uncompressed_size, 14);
    assert_eq!(rfc3339(&metadata.files[0].modified), "2024-07-12T18:11:08+00:00");
    assert_eq!(metadata.files[1].path, "test2.txt");
    assert_eq!(metadata.files[1].size, 16);
    assert_eq!(metadata.files[1].compression.as_str(), "stored");
    assert_eq!(metadata.files[1].uncompressed_size, 16);
    assert_eq!(rfc3339(&metadata.files[1].modified), "2024-07-12T18:11:26+00:00");

    let test_txt = zip::get_file(&mut file, &metadata.files[0]).unwrap();
    assert_eq!(String::from_utf8(test_txt).unwrap(), "Hello, world!\n");
    let test2_txt = zip::get_file(&mut file, &metadata.files[1]).unwrap();
    assert_eq!(String::from_utf8(test2_txt).unwrap(), "Hello, world! 2\n");

    assert!(zip::check_integrity(&file, &metadata.files[0]));
    assert!(zip::check_integrity(&file, &metadata.files[1]));
    assert!(zip::check_integrity_all(&file, &metadata.files));
}

#[test]
fn zip_fixture_extract_all_reproduces_bytes() {
    let mut file = Reader::new(two_file_fixture());
    let items: Vec<ExtractItem> =
        archive::extract(Formats::Zip, &mut file, &Selection::All, true, None).unwrap();
    assert_eq!(items.len(), 2);
    assert_eq!(items[0].path, "test.txt");
    assert_eq!(items[0].contents, b"Hello, world!\n".to_vec());
    assert_eq!(items[1].path, "test2.txt");
    assert_eq!(items[1].contents, b"Hello, world! 2\n".to_vec());
}

#[test]
fn zip_directory_entry_is_listed() {
    let mut bytes = local_header("test/", b"", 22765, 29536);
    bytes.extend(local_header("test/test.txt", b"Hello, world!\n", 22765, 29528));
    let mut file = Reader::new(bytes);
    let metadata = zip::metadata(&mut file).unwrap();
    assert_eq!(metadata.files.len(), 2);
    assert!(metadata.files[0].is_directory);
    assert!(!metadata.files[1].is_directory);
    assert_eq!(rfc3339(&metadata.files[0].modified), "2024-07-13T14:27:00+00:00");
    assert_eq!(rfc3339(&metadata.files[1].modified), "2024-07-13T14:26:48+00:00");
}

#[test]
fn zip_corrupted_payload_fails_integrity() {
    let mut bytes = two_file_fixture();
    bytes[30 + 8] ^= 0xff;
    let mut file = Reader::new(bytes);
    let metadata = zip::metadata(&mut file).unwrap();
    assert!(!zip::check_integrity(&file, &metadata.files[0]));
    assert!(zip::check_integrity(&file, &metadata.files[1]));
    assert!(!zip::check_integrity_all(&file, &metadata.files));
    let mut file = Reader::new(file.data.clone());
    let r = archive::metadata(Formats::Zip, &mut file, true, None);
    assert!(matches!(r, Err(Error::IntegrityMismatch)));
}

#[test]
fn zip_truncated_header_is_malformed() {
    let mut bytes = two_file_fixture();
    bytes.truncate(20);
    let mut file = Reader::new(bytes);
    assert!(matches!(zip::metadata(&mut file), Err(Error::Malformed)));
}

#[test]
fn zip_empty_container_has_no_entries() {
    let mut file = Reader::new(Vec::new());
    assert_eq!(zip::metadata(&mut file).unwrap().files.len(), 0);
}

#[test]
fn zip_write_then_read_round_trips() {
    let t1 = ts(2024, 7, 12, 18, 11, 8);
    let t2 = ts(2001, 2, 28, 23, 59, 58);
    let data = ZipArchiveData {
        files: vec![
            ZipFile {
                path: "a.txt".to_string(),
                modified: t1,
                is_directory: false,
                checksum: crc32fast::hash(b"alpha"),
                source: b"alpha".to_vec(),
            },
            ZipFile {
                path: "dir/b.bin".to_string(),
                modified: t2,
                is_directory: false,
                checksum: crc32fast::hash(&[0, 1, 2, 3]),
                source: vec![0, 1, 2, 3],
            },
        ],
    };
    let mut out = Vec::new();
    zip::write(&mut out, &data).unwrap();
    assert_eq!(&out[0..4], b"PK\x03\x04");
    let mut file = Reader::new(out);
    let metadata = zip::metadata(&mut file).unwrap();
    assert_eq!(metadata.files.len(), 2);
    assert_eq!(metadata.files[0].path, "a.txt");
    assert_eq!(metadata.files[0].size, 5);
    assert_eq!(metadata.files[0].modified, t1);
    assert_eq!(metadata.files[0].checksum, crc32fast::hash(b"alpha"));
    assert_eq!(metadata.files[0].compression, ZipCompression::Stored);
    assert_eq!(metadata.files[1].path, "dir/b.bin");
    assert_eq!(metadata.files[1].modified, t2);
    assert_eq!(zip::get_file(&mut file, &metadata.files[1]).unwrap(), vec![0, 1, 2, 3]);
    assert!(zip::check_integrity_all(&file, &metadata.files));
}

#[test]
fn zip_write_refuses_directory() {
    let data = ZipArchiveData {
        files: vec![ZipFile {
            path: "d/".to_string(),
            modified: ts(2024, 1, 1, 0, 0, 0),
            is_directory: true,
            checksum: 0,
            source: Vec::new(),
        }],
    };
    let mut out = vec![7u8];
    assert!(matches!(zip::write(&mut out, &data), Err(Error::Unsupported)));
    assert_eq!(out, vec![7u8]);
}

#[test]
fn zip_write_accepts_odd_seconds() {
    let t = ts(2024, 7, 12, 18, 11, 9);
    let data = ZipArchiveData {
        files: vec![ZipFile {
            path: "odd.txt".to_string(),
            modified: t,
            is_directory: false,
            checksum: crc32fast::hash(b"x"),
            source: b"x".to_vec(),
        }],
    };
    let mut out = Vec::new();
    zip::write(&mut out, &data).unwrap();
    assert_eq!(&out[10..12], &37220u16.to_le_bytes());
    let mut file = Reader::new(out);
    let metadata = zip::metadata(&mut file).unwrap();
    assert_eq!(metadata.files[0].modified, ts(2024, 7, 12, 18, 11, 8));
    assert_eq!(metadata.files[0].uncompressed_size, 1);
    assert_eq!(msdos::serialize(&t), (22764, 37220));
}

#[test]
fn zip_write_refuses_time_before_1980() {
    let data = ZipArchiveData {
        files: vec![ZipFile {
            path: "old.txt".to_string(),
            modified: ts(1979, 12, 31, 0, 0, 0),
            is_directory: false,
            checksum: 0,
            source: Vec::new(),
        }],
    };
    let mut out = Vec::new();
    assert!(matches!(zip::write(&mut out, &data), Err(Error::Unsupported)));
}

#[test]
fn create_000() {
    let entries = vec![EntrySource {
        path: "test.txt".to_string(),
        is_directory: false,
        modified: ts(2024, 7, 11, 18, 14, 42),
        contents: b"Hello, world!\n".to_vec(),
    }];
    let bytes = archive::create(Formats::Zip, &entries).unwrap();
    let mut file = Reader::new(bytes);
    let metadata = archive::metadata(Formats::Zip, &mut file, true, None).unwrap();
    let zip = match metadata {
        OriginalArchiveMetadata::Zip(z) => z,
        _ => panic!("not a zip archive"),
    };
    assert_eq!(zip.files.len(), 1);
    assert_eq!(zip.files[0].path, "test.txt");
    assert_eq!(zip.files[0].size, 14);
    assert_eq!(zip.files[0].compression.as_str(), "stored");
    assert_eq!(zip.files[0].checksum, crc32fast::hash(b"Hello, world!\n"));
    assert_eq!(rfc3339(&zip.files[0].modified), "2024-07-11T18:14:42+00:00");
    let content = zip::get_file(&mut file, &zip.files[0]).unwrap();
    assert_eq!(String::from_utf8(content).unwrap(), "Hello, world!\n");
}

#[test]
fn compression_codes_map_to_names() {
    assert_eq!(ZipCompression::from_code(0).as_str(), "stored");
    assert_eq!(ZipCompression::from_code(8).as_str(), "deflated");
    assert_eq!(ZipCompression::from_code(12).as_str(), "bzip2");
    assert_eq!(ZipCompression::from_code(93).as_str(), "zstd");
    assert_eq!(ZipCompression::from_code(99).as_str(), "aes");
    assert_eq!(ZipCompression::from_code(42).as_str(), "unknown");
    assert_eq!(ZipCompression::from_code(100), ZipCompression::Unknown);
}

#[test]
fn msdos_parse_decodes_fields() {
    assert_eq!(msdos::parse(22764, 37220), ts(2024, 7, 12, 18, 11, 8));
    assert_eq!(msdos::parse(0x21, 0), ts(1980, 1, 1, 0, 0, 0));
}

#[test]
fn msdos_parse_invalid_gives_epoch() {
    assert_eq!(msdos::parse(0, 0), Timestamp::epoch());
    assert_eq!(msdos::parse((44 << 9) | (2 << 5) | 30, 0), Timestamp::epoch());
    assert_eq!(msdos::parse(22764, 24 << 11), Timestamp::epoch());
}

#[test]
fn msdos_serialize_packs_fields() {
    assert_eq!(msdos::serialize(&ts(2024, 7, 12, 18, 11, 8)), (22764, 37220));
    let t = ts(2107, 12, 31, 23, 59, 58);
    let (d, tm) = msdos::serialize(&t);
    assert_eq!(msdos::parse(d, tm), t);
}
