use crc_fast::{checksum_ieee_four_byte, checksum_ieee_sixteen_byte, checksum_ieee_sixteen_byte_iterator};

fn sample(len: usize) -> Vec<u8> {
    let mut state: u32 = 0x1234_5678;
    let mut out = Vec::with_capacity(len);
    for _ in 0..len {
        state = state.wrapping_mul(1_103_515_245).wrapping_add(12_345);
        out.push((state >> 16) as u8);
    }
    out
}

#[test]
fn check_value_four_byte() {
    assert_eq!(checksum_ieee_four_byte(b"123456789"), 0xCBF4_3926);
}

#[test]
fn check_value_sixteen_byte() {
    assert_eq!(checksum_ieee_sixteen_byte(b"123456789"), 0xCBF4_3926);
}

#[test]
fn check_value_iterator() {
    let data: &[u8] = b"123456789";
    assert_eq!(checksum_ieee_sixteen_byte_iterator(data, 9), 0xCBF4_3926);
}

#[test]
fn empty_input_is_zero() {
    assert_eq!(checksum_ieee_four_byte(b""), 0);
    assert_eq!(checksum_ieee_sixteen_byte(b""), 0);
    let data: &[u8] = b"";
    assert_eq!(checksum_ieee_sixteen_byte_iterator(data, 0), 0);
}

#[test]
fn known_strings() {
    assert_eq!(checksum_ieee_four_byte(b"a"), 0xE8B7_BE43);
    assert_eq!(checksum_ieee_sixteen_byte(b"abc"), 0x3524_41C2);
    assert_eq!(
        checksum_ieee_sixteen_byte(b"The quick brown fox jumps over the lazy dog"),
        0x414F_A339
    );
    assert_eq!(
        checksum_ieee_four_byte(b"The quick brown fox jumps over the lazy dog"),
        0x414F_A339
    );
}

#[test]
fn slicing_variants_agree_with_crc32fast() {
    for len in 0..300 {
        let data = sample(len);
        let expected = crc32fast::hash(&data);
        assert_eq!(checksum_ieee_four_byte(&data), expected, "four, len {}", len);
        assert_eq!(checksum_ieee_sixteen_byte(&data), expected, "sixteen, len {}", len);
        assert_eq!(
            checksum_ieee_sixteen_byte_iterator(&data, len),
            expected,
            "iterator, len {}",
            len
        );
    }
}

#[test]
fn iterator_hashes_only_announced_whole_rounds() {
    // with a multiple of sixteen announced, bytes past it are not read
    let data = sample(40);
    assert_eq!(checksum_ieee_sixteen_byte_iterator(&data, 32), crc32fast::hash(&data[..32]));
    assert_eq!(checksum_ieee_sixteen_byte_iterator(&data, 0), 0);
}

#[test]
fn iterator_short_reader_reuses_buffer() {
    // 20 bytes, 48 announced: the second read copies 4 bytes over the first
    // sixteen, the third copies nothing
    let data = sample(20);
    let mut stream = Vec::new();
    let mut buffer = [0u8; 16];
    let mut rest: &[u8] = &data;
    for _ in 0..3 {
        let n = rest.len().min(16);
        buffer[..n].copy_from_slice(&rest[..n]);
        rest = &rest[n..];
        stream.extend_from_slice(&buffer);
    }
    assert_eq!(checksum_ieee_sixteen_byte_iterator(&data, 48), crc32fast::hash(&stream));
}

#[test]
fn iterator_short_reader_first_round_keeps_zeros() {
    let data = sample(5);
    let mut block = [0u8; 16];
    block[..5].copy_from_slice(&data);
    assert_eq!(checksum_ieee_sixteen_byte_iterator(&data, 16), crc32fast::hash(&block));
}

#[test]
fn chunk_boundaries() {
    for len in [3usize, 4, 5, 15, 16, 17, 31, 32, 33, 63, 64, 65, 1000, 4099] {
        let data = sample(len);
        let expected = crc32fast::hash(&data);
        assert_eq!(checksum_ieee_four_byte(&data), expected);
        assert_eq!(checksum_ieee_sixteen_byte(&data), expected);
    }
}

#[test]
fn concatenation_continues_the_register() {
    // feeding a then b from the checksum of a equals the checksum of a + b
    let a = sample(37);
    let b = sample(91);
    let mut ab = a.clone();
    ab.extend_from_slice(&b);
    let mut hasher = crc32fast::Hasher::new_with_initial(checksum_ieee_sixteen_byte(&a));
    hasher.update(&b);
    assert_eq!(hasher.finalize(), checksum_ieee_four_byte(&ab));
}
