use gruth::update::{
    asset_name, commit_hash, current_version, extract_binary, find_binary, is_newer, parse_version,
    version_string, ExtractError,
};
use std::io::Write;

fn header(name: &str, size_field: &[u8]) -> Vec<u8> {
    let mut h = vec![0u8; 512];
    h[..name.len()].copy_from_slice(name.as_bytes());
    h[124..124 + size_field.len()].copy_from_slice(size_field);
    h
}

fn entry(name: &str, data: &[u8]) -> Vec<u8> {
    let size = format!("{:011o}\0", data.len());
    let mut out = header(name, size.as_bytes());
    out.extend_from_slice(data);
    let pad = (512 - data.len() % 512) % 512;
    out.extend(std::iter::repeat(0u8).take(pad));
    out
}

fn gzip(data: &[u8]) -> Vec<u8> {
    let mut enc = flate2::write::GzEncoder::new(Vec::new(), flate2::Compression::default());
    enc.write_all(data).unwrap();
    enc.finish().unwrap()
}

#[test]
fn version_string_format() {
    assert_eq!(current_version(), "0.6.0");
    assert_eq!(version_string(Some("abc1234")), "gruth 0.6.0 (abc1234)");
    assert_eq!(version_string(None), "gruth 0.6.0 (unknown)");
}

#[test]
fn commit_hash_fallback() {
    assert_eq!(commit_hash(Some("deadbee")), "deadbee");
    assert_eq!(commit_hash(None), "unknown");
}

#[test]
fn parse_version_drops_non_numbers() {
    assert_eq!(parse_version("1.2.3"), vec![1, 2, 3]);
    assert_eq!(parse_version("1.x.3"), vec![1, 3]);
    assert_eq!(parse_version("1.0.0-beta"), vec![1, 0]);
    assert_eq!(parse_version("+4.5"), vec![4, 5]);
    assert_eq!(parse_version(""), Vec::<u64>::new());
}

#[test]
fn is_newer_cases() {
    assert!(is_newer("0.6.0", "v0.7.0"));
    assert!(is_newer("v0.6.0", "0.6.1"));
    assert!(!is_newer("0.6.0", "v0.6.0"));
    assert!(!is_newer("0.7.0", "0.6.9"));
    assert!(is_newer("0.9.0", "0.10.0"));
    assert!(is_newer("1.0", "1.0.0"));
    assert!(!is_newer("1.0.0", "1.0"));
    assert!(!is_newer("0.6.0", "garbage"));
    assert!(is_newer("", "0.0.1"));
}

#[test]
fn is_newer_strict_order_on_examples() {
    let vs = ["0.5.0", "v0.6.0", "0.6.1", "1.0"];
    for a in vs {
        assert!(!is_newer(a, a));
        for b in vs {
            assert!(!(is_newer(a, b) && is_newer(b, a)));
            for c in vs {
                if is_newer(a, b) && is_newer(b, c) {
                    assert!(is_newer(a, c));
                }
            }
        }
    }
}

#[test]
fn asset_name_platforms() {
    assert_eq!(asset_name("macos", "aarch64"), Some("gruth-macos-arm64.tar.gz"));
    assert_eq!(asset_name("linux", "x86_64"), Some("gruth-linux-amd64.tar.gz"));
    assert_eq!(asset_name("linux", "aarch64"), Some("gruth-linux-arm64.tar.gz"));
    assert_eq!(asset_name("macos", "x86_64"), None);
    assert_eq!(asset_name("windows", "x86_64"), None);
}

#[test]
fn extract_binary_finds_gruth() {
    let mut tar = entry("README.md", b"read me");
    tar.extend(entry("dist/gruth", b"\x7fELF binary"));
    tar.extend(vec![0u8; 1024]);
    assert_eq!(extract_binary(&gzip(&tar)), Ok(b"\x7fELF binary".to_vec()));
    assert_eq!(find_binary(&tar), Some(b"\x7fELF binary".to_vec()));
}

#[test]
fn extract_binary_missing() {
    let mut tar = entry("gruth-notes", b"x");
    tar.extend(vec![0u8; 1024]);
    assert_eq!(extract_binary(&gzip(&tar)), Err(ExtractError::NotFound));
}

#[test]
fn extract_binary_bad_gzip() {
    assert_eq!(extract_binary(b"not gzip at all"), Err(ExtractError::Decompress));
}

#[test]
fn extract_zero_size_entry_skipped() {
    let mut tar = entry("gruth", b"");
    tar.extend(entry("bin/gruth", b"real"));
    assert_eq!(find_binary(&tar), Some(b"real".to_vec()));
}

#[test]
fn extract_stops_at_zero_block() {
    let mut tar = vec![0u8; 512];
    tar.extend(entry("gruth", b"hidden"));
    assert_eq!(find_binary(&tar), None);
}

#[test]
fn extract_size_with_spaces_and_truncated_data() {
    let mut h = header("gruth", b"     7 \0");
    h.extend_from_slice(b"abc");
    assert_eq!(find_binary(&h), None);
    let mut h2 = header("gruth", b"  3 ");
    h2.extend_from_slice(b"abc");
    assert_eq!(find_binary(&h2), Some(b"abc".to_vec()));
}

#[test]
fn extract_bad_size_counts_as_zero() {
    let mut tar = header("gruth", b"9z");
    tar.extend(entry("gruth", b"ok"));
    assert_eq!(find_binary(&tar), Some(b"ok".to_vec()));
}

#[test]
fn extract_requires_utf8_name() {
    let mut h = vec![0u8; 512];
    h[0] = 0xff;
    h[1] = b'/';
    h[2..7].copy_from_slice(b"gruth");
    h[124..136].copy_from_slice(b"00000000003\0");
    h.extend_from_slice(b"abc");
    assert_eq!(find_binary(&h), None);
    h[0] = b'x';
    assert_eq!(find_binary(&h), Some(b"abc".to_vec()));
}
