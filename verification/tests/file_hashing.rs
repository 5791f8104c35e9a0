use crc_fast::{FileHasher, CHUNK_SIZE};

#[test]
fn sfv_hashes_all_chunks_as_crc32() {
    let mut h = FileHasher::new("sfv");
    assert!(h.reads_input());
    let a = vec![7u8; CHUNK_SIZE];
    let b = b"tail bytes".to_vec();
    assert!(h.update(&a));
    assert!(!h.update(&b));
    let mut all = a.clone();
    all.extend_from_slice(&b);
    assert_eq!(h.finalize(), crc32fast::hash(&all));
}

#[test]
fn sfv_check_value() {
    let mut h = FileHasher::new("sfv");
    assert!(!h.update(b"123456789"));
    assert_eq!(h.finalize(), 0xCBF4_3926);
}

#[test]
fn sha256_takes_first_four_digest_bytes() {
    // SHA-256("abc") starts with ba 78 16 bf
    let mut h = FileHasher::new("sha256");
    assert!(h.reads_input());
    assert!(!h.update(b"ab"));
    assert!(!h.update(b"c"));
    assert_eq!(h.finalize(), u32::from_ne_bytes([0xba, 0x78, 0x16, 0xbf]));
}

#[test]
fn sha256_of_nothing() {
    // SHA-256("") starts with e3 b0 c4 42
    let h = FileHasher::new("sha256");
    assert_eq!(h.finalize(), u32::from_ne_bytes([0xe3, 0xb0, 0xc4, 0x42]));
}

#[test]
fn unknown_hasher_reads_nothing_and_gives_zero() {
    let h = FileHasher::new("md5");
    assert!(!h.reads_input());
    assert_eq!(h.finalize(), 0);
    let h = FileHasher::new("SFV");
    assert!(!h.reads_input());
}

#[test]
fn empty_file_sfv_is_zero() {
    let mut h = FileHasher::new("sfv");
    assert!(!h.update(&[]));
    assert_eq!(h.finalize(), 0);
}

#[test]
fn digest_prefix_reads_first_four_bytes() {
    let mut digest = [0u8; 32];
    digest[0] = 0x12;
    digest[1] = 0x34;
    digest[2] = 0x56;
    digest[3] = 0x78;
    digest[4] = 0x9a;
    assert_eq!(
        crc_fast::file_hash::digest_prefix_u32(&digest),
        u32::from_ne_bytes([0x12, 0x34, 0x56, 0x78])
    );
}
