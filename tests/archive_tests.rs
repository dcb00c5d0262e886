use archiver::archive::{build_archive, extract_archive};
use archiver::bytes::{u64_from_be, u64_to_be};
use archiver::compression::{has_short_ff_runs, unwrap_artifact, wrap_stream};
use archiver::error::ArchiveError;
use archiver::framing::{encode_records, parse_records, FileRecord};
use archiver::metadata::{decode_info, encode_info, FileInfo};

fn rec(name: &str, data: &[u8]) -> FileRecord {
    FileRecord::new(name.to_string(), data.to_vec())
}

fn two_files() -> Vec<FileRecord> {
    vec![rec("a.txt", b"hi"), rec("b/c.txt", b"")]
}

fn names_and_data(rs: &[FileRecord]) -> Vec<(String, Vec<u8>)> {
    rs.iter().map(|r| (r.name.clone(), r.data.clone())).collect()
}

fn expected_two_file_stream() -> Vec<u8> {
    let mut v = vec![0, 0, 0, 0, 0, 0, 0, 21];
    v.extend_from_slice(&[5, 0, 0, 0, 0, 0, 0, 0]);
    v.extend_from_slice(b"a.txt");
    v.extend_from_slice(&[2, 0, 0, 0, 0, 0, 0, 0]);
    v.extend_from_slice(b"hi");
    v.extend_from_slice(&[0, 0, 0, 0, 0, 0, 0, 23]);
    v.extend_from_slice(&[7, 0, 0, 0, 0, 0, 0, 0]);
    v.extend_from_slice(b"b/c.txt");
    v.extend_from_slice(&[0, 0, 0, 0, 0, 0, 0, 0]);
    v
}

#[test]
fn two_files_uncompressed_exact_bytes() {
    let artifact = build_archive(&two_files(), false);
    let mut expected = expected_two_file_stream();
    expected.push(0);
    assert_eq!(artifact, expected);
}

#[test]
fn two_files_uncompressed_extract() {
    let artifact = build_archive(&two_files(), false);
    let out = extract_archive(&artifact).unwrap();
    assert_eq!(
        names_and_data(&out),
        vec![("a.txt".to_string(), b"hi".to_vec()), ("b/c.txt".to_string(), Vec::new())]
    );
}

#[test]
fn two_files_compressed_extract() {
    let raw = build_archive(&two_files(), false);
    let artifact = build_archive(&two_files(), true);
    assert_eq!(*artifact.last().unwrap(), 1);
    assert!(artifact.len() <= raw.len());
    let out = extract_archive(&artifact).unwrap();
    assert_eq!(names_and_data(&out), names_and_data(&extract_archive(&raw).unwrap()));
}

#[test]
fn empty_input_is_flag_byte_only() {
    let artifact = build_archive(&[], false);
    assert_eq!(artifact, vec![0u8]);
    assert_eq!(extract_archive(&artifact).unwrap().len(), 0);
}

#[test]
fn empty_input_compressed_round_trip() {
    let artifact = build_archive(&[], true);
    assert_eq!(*artifact.last().unwrap(), 1);
    assert_eq!(extract_archive(&artifact).unwrap().len(), 0);
}

#[test]
fn round_trip_binary_contents() {
    let data: Vec<u8> = (0..=255u8).cycle().take(5000).collect();
    let files = vec![rec("bin/all.bytes", &data), rec("ünïcode/名前.txt", b"x\0y"), rec("", b"")];
    for compress in [false, true] {
        let out = extract_archive(&build_archive(&files, compress)).unwrap();
        assert_eq!(names_and_data(&out), names_and_data(&files));
    }
}

#[test]
fn records_keep_their_order() {
    let files = vec![rec("z", b"3"), rec("a", b"1"), rec("m", b"2")];
    let out = parse_records(&encode_records(&files)).unwrap();
    let names: Vec<String> = out.iter().map(|r| r.name.clone()).collect();
    assert_eq!(names, vec!["z", "a", "m"]);
}

#[test]
fn every_cut_inside_last_record_is_truncation() {
    let stream = encode_records(&two_files());
    let first_len = 8 + 21 + 2;
    for cut in first_len + 1..stream.len() {
        assert_eq!(parse_records(&stream[..cut]).unwrap_err(), ArchiveError::TruncatedStream);
    }
    for cut in 1..first_len {
        assert_eq!(parse_records(&stream[..cut]).unwrap_err(), ArchiveError::TruncatedStream);
    }
}

#[test]
fn cut_at_record_boundary_parses_shorter_archive() {
    let stream = encode_records(&two_files());
    let out = parse_records(&stream[..31]).unwrap();
    assert_eq!(names_and_data(&out), vec![("a.txt".to_string(), b"hi".to_vec())]);
}

#[test]
fn empty_stream_parses_to_nothing() {
    assert_eq!(parse_records(&[]).unwrap().len(), 0);
}

#[test]
fn wrap_unwrap_raw() {
    for buf in [Vec::new(), b"hello".to_vec()] {
        let a = wrap_stream(buf.clone(), false);
        assert_eq!(*a.last().unwrap(), 0);
        assert_eq!(unwrap_artifact(&a).unwrap(), buf);
    }
}

#[test]
fn wrap_unwrap_compressed() {
    let long: Vec<u8> = b"abcabcabc".iter().cycle().take(3000).cloned().collect();
    for buf in [Vec::new(), b"hello".to_vec(), long] {
        let a = wrap_stream(buf.clone(), true);
        assert_eq!(*a.last().unwrap(), 1);
        assert_eq!(unwrap_artifact(&a).unwrap(), buf);
    }
}

#[test]
fn compression_changes_payload() {
    let long: Vec<u8> = vec![7u8; 4096];
    let a = wrap_stream(long.clone(), true);
    assert!(a.len() < long.len());
    assert_eq!(&a[0..4], &[0, 16, 0, 0]);
}

#[test]
fn empty_artifact_is_truncated() {
    assert_eq!(unwrap_artifact(&[]).unwrap_err(), ArchiveError::TruncatedStream);
    assert_eq!(extract_archive(&[]).unwrap_err(), ArchiveError::TruncatedStream);
}

#[test]
fn flag_other_than_one_reads_raw_stream() {
    assert_eq!(extract_archive(&[2]).unwrap().len(), 0);
    let mut artifact = encode_records(&two_files());
    artifact.push(7);
    assert_eq!(names_and_data(&extract_archive(&artifact).unwrap()), names_and_data(&two_files()));
    assert_eq!(unwrap_artifact(&[4, 5, 9]).unwrap(), vec![4, 5]);
}

#[test]
fn long_ff_run_is_not_inflated() {
    let limit = (u32::MAX / 255) as usize;
    let mut artifact = vec![0u8, 0, 0, 0, 0xF0];
    artifact.extend(std::iter::repeat(0xFFu8).take(limit));
    artifact.push(1);
    artifact.push(1);
    assert_eq!(unwrap_artifact(&artifact).unwrap_err(), ArchiveError::DecompressionError);
}

#[test]
fn ff_run_screen() {
    let limit = (u32::MAX / 255) as usize;
    let mut b = vec![1u8];
    b.extend(std::iter::repeat(0xFFu8).take(limit - 1));
    assert!(has_short_ff_runs(&b));
    b.push(0xFF);
    assert!(!has_short_ff_runs(&b));
    assert!(has_short_ff_runs(&[]));
}

#[test]
fn corrupt_compressed_payload_fails() {
    assert_eq!(extract_archive(&[9, 1]).unwrap_err(), ArchiveError::DecompressionError);
}

#[test]
fn short_length_prefix_is_truncated() {
    assert_eq!(extract_archive(&[0, 0, 0, 0]).unwrap_err(), ArchiveError::TruncatedStream);
}

#[test]
fn metadata_bytes_are_exact() {
    let blob = encode_info(&FileInfo { file_name: "ab".to_string(), data_len: 258 });
    assert_eq!(blob, vec![2, 0, 0, 0, 0, 0, 0, 0, b'a', b'b', 2, 1, 0, 0, 0, 0, 0, 0]);
}

#[test]
fn metadata_round_trip() {
    let blob = encode_info(&FileInfo { file_name: "dir/f.bin".to_string(), data_len: 1 << 40 });
    let info = decode_info(&blob).unwrap();
    assert_eq!(info.file_name, "dir/f.bin");
    assert_eq!(info.data_len, 1 << 40);
}

#[test]
fn metadata_with_invalid_utf8_is_malformed() {
    let blob = vec![1, 0, 0, 0, 0, 0, 0, 0, 0xff, 0, 0, 0, 0, 0, 0, 0, 0];
    assert_eq!(decode_info(&blob).unwrap_err(), ArchiveError::MalformedMetadata);
}

#[test]
fn metadata_with_trailing_bytes_is_malformed() {
    let mut blob = encode_info(&FileInfo { file_name: "a".to_string(), data_len: 0 });
    blob.push(0);
    assert_eq!(decode_info(&blob).unwrap_err(), ArchiveError::MalformedMetadata);
}

#[test]
fn metadata_too_short_is_malformed() {
    assert_eq!(decode_info(&[3, 0, 0, 0, 0, 0, 0, 0, b'a']).unwrap_err(), ArchiveError::MalformedMetadata);
}

#[test]
fn malformed_metadata_in_stream() {
    let mut stream = vec![0, 0, 0, 0, 0, 0, 0, 2, 9, 9];
    stream.push(0);
    assert_eq!(extract_archive(&stream).unwrap_err(), ArchiveError::MalformedMetadata);
}

#[test]
fn big_endian_helpers() {
    assert_eq!(u64_to_be(0x0102030405060708), vec![1, 2, 3, 4, 5, 6, 7, 8]);
    assert_eq!(u64_from_be(&[9, 1, 2, 3, 4, 5, 6, 7, 8], 1), 0x0102030405060708);
}

#[test]
fn error_messages() {
    assert_eq!(ArchiveError::TruncatedStream.message(), "archive stream is truncated");
    assert_eq!(ArchiveError::MalformedMetadata.message(), "file metadata is malformed");
    assert_eq!(ArchiveError::DecompressionError.message(), "archive does not decompress");
}
