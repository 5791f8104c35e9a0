use crc_fast::{parse_sfv_line, PathHash, SfvLine};

fn entry(line: &str) -> (String, u32) {
    match parse_sfv_line(line) {
        SfvLine::Entry(PathHash { path, hash }) => (path, hash),
        _ => panic!("expected an entry for {:?}", line),
    }
}

#[test]
fn plain_entry() {
    assert_eq!(entry("file.bin CBF43926"), ("file.bin".to_string(), 0xCBF4_3926));
}

#[test]
fn entry_lower_case_and_plus_sign() {
    assert_eq!(entry("a.txt cbf43926"), ("a.txt".to_string(), 0xCBF4_3926));
    assert_eq!(entry("a.txt +ff"), ("a.txt".to_string(), 0xFF));
}

#[test]
fn entry_splits_at_last_space() {
    assert_eq!(entry("my file name.iso 00000001"), ("my file name.iso".to_string(), 1));
}

#[test]
fn entry_is_trimmed() {
    assert_eq!(entry("  \t disk.img 1234abcd \r\n"), ("disk.img".to_string(), 0x1234_ABCD));
    assert_eq!(entry("\u{3000}x 0\u{a0}"), ("x".to_string(), 0));
}

#[test]
fn comment_line() {
    assert!(matches!(parse_sfv_line("; generated by something"), SfvLine::Comment));
    assert!(matches!(parse_sfv_line("   ;indented comment 1234"), SfvLine::Comment));
}

#[test]
fn blank_line() {
    assert!(matches!(parse_sfv_line(""), SfvLine::Blank));
    assert!(matches!(parse_sfv_line(" \t \n"), SfvLine::Blank));
}

#[test]
fn bad_hash_is_reported() {
    match parse_sfv_line("file.bin XYZ") {
        SfvLine::BadHash { hash, path } => {
            assert_eq!(hash, "XYZ");
            assert_eq!(path, "file.bin");
        }
        _ => panic!("expected a bad hash"),
    }
    // too large for a u32
    assert!(matches!(parse_sfv_line("f 100000000"), SfvLine::BadHash { .. }));
    // a sign with no digits, a minus sign, nothing after the space
    assert!(matches!(parse_sfv_line("f +"), SfvLine::BadHash { .. }));
    assert!(matches!(parse_sfv_line("f -1"), SfvLine::BadHash { .. }));
    assert!(matches!(parse_sfv_line("f  "), SfvLine::MissingPath));
    assert!(matches!(parse_sfv_line("a  g"), SfvLine::BadHash { .. }));
    assert_eq!(entry("a  b"), ("a ".to_string(), 0xB));
}

#[test]
fn leading_zeros_still_fit() {
    assert_eq!(entry("f 0000000000000000ffffffff"), ("f".to_string(), 0xFFFF_FFFF));
}

#[test]
fn missing_path() {
    assert!(matches!(parse_sfv_line("CBF43926"), SfvLine::MissingPath));
}

#[test]
fn path_hash_matches() {
    let ph = PathHash { path: "x".to_string(), hash: 7 };
    assert!(ph.matches(7));
    assert!(!ph.matches(8));
}
