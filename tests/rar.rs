use corelib::binary::Reader;
use corelib::formats::rar::{self, RarPlatform};
use corelib::Error;

fn vint(mut v: u64) -> Vec<u8> {
    let mut out = Vec::new();
    loop {
        let b = (v & 0x7f) as u8;
        v >>= 7;
        if v == 0 {
            out.push(b);
            return out;
        }
        out.push(b | 0x80);
    }
}

/// A header: CRC-32 over everything after the size field, then the size, then `body`.
fn header(body: &[u8]) -> Vec<u8> {
    let mut out = crc32fast::hash(body).to_le_bytes().to_vec();
    out.extend(vint(body.len() as u64));
    out.extend_from_slice(body);
    out
}

fn main_header(archive_flags: u64) -> Vec<u8> {
    let mut body = vint(1);
    body.extend(vint(0));
    body.extend(vint(archive_flags));
    header(&body)
}

fn file_header(name: &str, data: &[u8], compression_info: u64) -> Vec<u8> {
    let mut body = vint(2);
    body.extend(vint(0x02));
    body.extend(vint(data.len() as u64));
    body.extend(vint(0x04));
    body.extend(vint(data.len() as u64));
    body.extend(vint(0x20));
    body.extend_from_slice(&crc32fast::hash(data).to_le_bytes());
    body.extend(vint(compression_info));
    body.extend(vint(1));
    body.extend(vint(name.len() as u64));
    body.extend_from_slice(name.as_bytes());
    let mut out = header(&body);
    out.extend_from_slice(data);
    out
}

fn end_header() -> Vec<u8> {
    let mut body = vint(5);
    body.extend(vint(0));
    body.extend(vint(0));
    header(&body)
}

fn fixture(archive_flags: u64, compression_info: u64) -> Vec<u8> {
    let mut out = b"Rar!\x1a\x07\x01\x00".to_vec();
    out.extend(main_header(archive_flags));
    out.extend(file_header("testfile.txt", b"Testing 123\n", compression_info));
    out.extend(end_header());
    out
}

#[test]
fn rar_sample_000() {
    let mut file = Reader::new(fixture(0, 0));
    let metadata = rar::metadata(&mut file).unwrap();
    assert_eq!(metadata.files.len(), 1);
    assert_eq!(metadata.files[0].path, "testfile.txt");
    assert_eq!(metadata.files[0].size, 12);
    assert_eq!(metadata.files[0].uncompressed_size.unwrap(), 12);
    assert!(metadata.files[0].compression.is_none());
    assert_eq!(metadata.files[0].creation_platform, Some(RarPlatform::Unix));

    let testfile_txt = rar::get_file(&mut file, &metadata.files[0]).unwrap();
    assert_eq!(String::from_utf8(testfile_txt).unwrap(), "Testing 123\n");

    assert!(rar::check_integrity(&file, &metadata.files[0]).unwrap().unwrap());
    assert!(rar::check_integrity_all(&file, &metadata.files));
    assert!(rar::check_integrity_headers(&file, &metadata));
    assert!(metadata.is_last);
    assert_eq!(metadata.archive_start, 0);
    assert_eq!(metadata.version, (5, 0));
}

#[test]
fn rar_sample_001() {
    let mut file = Reader::new(fixture(0x10, 0));
    let metadata = rar::metadata(&mut file).unwrap();
    assert_eq!(metadata.files.len(), 1);
    assert_eq!(metadata.files[0].path, "testfile.txt");
    assert_eq!(metadata.files[0].size, 12);
    assert_eq!(metadata.files[0].uncompressed_size.unwrap(), 12);
    let testfile_txt = rar::get_file(&mut file, &metadata.files[0]).unwrap();
    assert_eq!(String::from_utf8(testfile_txt).unwrap(), "Testing 123\n");
    assert!(rar::check_integrity(&file, &metadata.files[0]).unwrap().unwrap());
    assert!(metadata.locked);
    assert!(!metadata.solid);
}

fn main_header_with_locator(recovery_offset: u64) -> Vec<u8> {
    let mut record = vint(1);
    record.extend(vint(0x02));
    record.extend(vint(recovery_offset));
    let mut extra = vint(record.len() as u64);
    extra.extend(record);
    let mut body = vint(1);
    body.extend(vint(0x01));
    body.extend(vint(extra.len() as u64));
    body.extend(vint(0x08));
    body.extend(extra);
    header(&body)
}

#[test]
fn rar_sample_002() {
    let mut bytes = b"Rar!\x1a\x07\x01\x00".to_vec();
    bytes.extend(main_header_with_locator(4242));
    bytes.extend(file_header("testfile.txt", b"Testing 123\n", 0));
    bytes.extend(end_header());
    let mut file = Reader::new(bytes);
    let metadata = rar::metadata(&mut file).unwrap();
    assert_eq!(metadata.files.len(), 1);
    assert_eq!(metadata.files[0].path, "testfile.txt");
    assert_eq!(metadata.files[0].size, 12);
    assert_eq!(metadata.files[0].uncompressed_size.unwrap(), 12);
    let testfile_txt = rar::get_file(&mut file, &metadata.files[0]).unwrap();
    assert_eq!(String::from_utf8(testfile_txt).unwrap(), "Testing 123\n");
    assert!(rar::check_integrity(&file, &metadata.files[0]).unwrap().unwrap());
    assert!(metadata.rr_offset.is_some());
    assert_eq!(metadata.rr_offset, Some(4242));
    assert_eq!(metadata.qo_offset, None);
    assert!(metadata.has_recovery);
}

#[test]
fn rar_unknown_header_is_skipped_in_step() {
    let mut bytes = b"Rar!\x1a\x07\x01\x00".to_vec();
    bytes.extend(main_header(0));
    let mut body = vint(6);
    body.extend(vint(0));
    body.extend_from_slice(&[0xde, 0xad]);
    bytes.extend(header(&body));
    let mut body = vint(7);
    body.extend(vint(0x02));
    body.extend(vint(3));
    body.push(0x55);
    let mut with_data = header(&body);
    with_data.extend_from_slice(b"xyz");
    bytes.extend(with_data);
    bytes.extend(file_header("testfile.txt", b"Testing 123\n", 0));
    bytes.extend(end_header());
    let mut file = Reader::new(bytes);
    let metadata = rar::metadata(&mut file).unwrap();
    assert_eq!(metadata.headers.len(), 5);
    assert_eq!(metadata.files.len(), 1);
    assert_eq!(metadata.files[0].path, "testfile.txt");
    assert!(rar::check_integrity_headers(&file, &metadata));
}

#[test]
fn rar_sample_003() {
    let mut file = Reader::new(fixture(0x04, 3 << 7));
    let metadata = rar::metadata(&mut file).unwrap();
    assert_eq!(metadata.files.len(), 1);
    assert_eq!(metadata.files[0].path, "testfile.txt");
    assert_eq!(metadata.files[0].uncompressed_size.unwrap(), 12);
    let c = metadata.files[0].compression.unwrap();
    assert_eq!(c.method, 3);
    assert!(matches!(rar::get_file(&mut file, &metadata.files[0]), Err(Error::Unsupported)));
    assert!(matches!(rar::check_integrity(&file, &metadata.files[0]), Err(Error::Unsupported)));
    assert!(metadata.solid);
}

#[test]
fn rar_signature_after_prefix() {
    let mut bytes = b"MZ-stub-".to_vec();
    bytes.extend(fixture(0, 0));
    let mut file = Reader::new(bytes);
    let metadata = rar::metadata(&mut file).unwrap();
    assert_eq!(metadata.archive_start, 8);
    assert_eq!(metadata.files[0].path, "testfile.txt");
}

#[test]
fn rar_missing_signature_is_not_found() {
    let mut file = Reader::new(b"not an archive at all".to_vec());
    assert!(matches!(rar::metadata(&mut file), Err(Error::NotFound)));
}

#[test]
fn rar_missing_end_header_is_malformed() {
    let mut bytes = b"Rar!\x1a\x07\x01\x00".to_vec();
    bytes.extend(main_header(0));
    bytes.extend(file_header("testfile.txt", b"Testing 123\n", 0));
    let mut file = Reader::new(bytes);
    assert!(matches!(rar::metadata(&mut file), Err(Error::Malformed)));
}

#[test]
fn rar_unknown_encryption_algorithm_is_malformed() {
    let mut bytes = b"Rar!\x1a\x07\x01\x00".to_vec();
    let mut body = vint(4);
    body.extend(vint(0));
    body.extend(vint(1));
    bytes.extend(header(&body));
    bytes.extend(main_header(0));
    bytes.extend(end_header());
    let mut file = Reader::new(bytes);
    assert!(matches!(rar::metadata(&mut file), Err(Error::Malformed)));
}

#[test]
fn rar_dictionary_size_from_compression_info() {
    let c = rar::decode_compression((2 << 10) | (1 << 7) | 0x40 | 5);
    assert_eq!(c.version, 5);
    assert!(c.solid);
    assert_eq!(c.method, 1);
    assert_eq!(c.dict_size, 2 + (2 * 2) / 32);
    let c = rar::decode_compression(31 << 10);
    assert_eq!(c.dict_size, 31 + (31 * 31) / 32);
}

#[test]
fn rar_corrupted_payload_fails_check() {
    let mut bytes = fixture(0, 0);
    let n = bytes.len();
    let end_len = end_header().len();
    bytes[n - end_len - 1] ^= 0x01;
    let mut file = Reader::new(bytes);
    let metadata = rar::metadata(&mut file).unwrap();
    assert_eq!(rar::check_integrity(&file, &metadata.files[0]).unwrap(), Some(false));
    assert!(!rar::check_integrity_all(&file, &metadata.files));
}

#[test]
fn vint_decodes_boundary_values() {
    let cases: [(Vec<u8>, u64); 5] = [
        (vec![0x00], 0),
        (vec![0x7f], 127),
        (vec![0x80, 0x01], 128),
        (vec![0xff, 0x7f], 16383),
        (vec![0x80, 0x80, 0x80, 0x80, 0x40], 1u64 << 34),
    ];
    for (bytes, value) in cases.iter() {
        assert_eq!(vint(*value), *bytes);
        let mut r = Reader::new(bytes.clone());
        assert_eq!(r.read_vint(), Some(*value));
        assert_eq!(r.position(), bytes.len());
    }
}

#[test]
fn vint_unterminated_or_too_large_is_refused() {
    let mut r = Reader::new(vec![0x80, 0x80]);
    assert_eq!(r.read_vint(), None);
    assert_eq!(r.position(), 0);
    let mut big = vec![0xffu8; 9];
    big.push(0x7f);
    let mut r = Reader::new(big);
    assert_eq!(r.read_vint(), None);
    let mut max = vec![0xffu8; 9];
    max.push(0x01);
    let mut r = Reader::new(max);
    assert_eq!(r.read_vint(), Some(u64::MAX));
}
