//! CRC-32 (IEEE) of a byte slice, slicing by four and by sixteen bytes.

use vstd::prelude::*;
use crate::model::{crc32_ieee, crc_register, lemma_register_concat, update_byte};
use crate::slicing_proofs::{
    lemma_reg_byte_zero, lemma_slice_by_16, lemma_slice_by_4, lemma_table_byte, lemma_word_bytes,
};
use crate::tables::{build_tables, is_lookup_table, table_entry};

verus! {

/// Feeding one more byte of `s` extends the register by that byte.
pub proof fn lemma_take_one_more(c: u32, s: Seq<u8>, i: int)
    requires
        0 <= i < s.len(),
    ensures
        crc_register(c, s.take(i + 1)) == update_byte(crc_register(c, s.take(i)), s[i]),
{
    assert(s.take(i + 1).drop_last() =~= s.take(i));
}

/// Feeding the next `n` bytes of `s` is feeding them as one block.
pub proof fn lemma_take_block(c: u32, s: Seq<u8>, i: int, n: int)
    requires
        0 <= i,
        0 <= n,
        i + n <= s.len(),
    ensures
        crc_register(c, s.take(i + n)) == crc_register(
            crc_register(c, s.take(i)),
            s.subrange(i, i + n),
        ),
{
    assert(s.take(i) + s.subrange(i, i + n) =~= s.take(i + n));
    lemma_register_concat(c, s.take(i), s.subrange(i, i + n));
}

/// One byte through the first table: `table[0][(crc ^ byte) & 0xFF] ^ (crc >> 8)`.
pub(crate) fn table_byte_step<const N: usize>(table: &[[u32; 256]; N], crc: u32, byte: u8) -> (next: u32)
    requires
        N >= 1,
        is_lookup_table(*table),
    ensures
        next == update_byte(crc, byte),
{
    assert((crc ^ byte as u32) & 0xFF < 256) by (bit_vector);
    let t0: u32 = table[0][((crc ^ byte as u32) & 0xFF) as usize];
    proof {
        assert(t0 == table_entry(0, ((crc ^ byte as u32) & 0xFF) as int));
        lemma_table_byte(t0, crc, byte);
    }
    t0 ^ (crc >> 8)
}

/// The register after the 4 bytes of `current` from `offset` on, looked
/// up in the 4 tables at once.
pub(crate) fn four_byte_block(table: &[[u32; 256]; 4], crc: u32, current: &[u8], offset: usize) -> (next: u32)
    requires
        is_lookup_table(*table),
        offset + 4 <= current@.len(),
    ensures
        next == crc_register(crc, current@.subrange(offset as int, offset + 4)),
{
    // reconstruct little-endian words from the bytes
    let b0: u32 = current[offset + 0] as u32;
    let b1: u32 = (current[offset + 1] as u32) << 8;
    let b2: u32 = (current[offset + 2] as u32) << 16;
    let b3: u32 = (current[offset + 3] as u32) << 24;
    let one: u32 = (b0 | b1 | b2 | b3) ^ crc;
    let xb0: u8 = (one >> 24 & 0xFF) as u8;
    let xb1: u8 = (one >> 16 & 0xFF) as u8;
    let xb2: u8 = (one >> 8 & 0xFF) as u8;
    let xb3: u8 = (one >> 0 & 0xFF) as u8;
    let tl0: u32 = table[0][xb0 as usize];
    let tl1: u32 = table[1][xb1 as usize];
    let tl2: u32 = table[2][xb2 as usize];
    let tl3: u32 = table[3][xb3 as usize];
    proof {
        let s = current@.subrange(offset as int, offset + 4);
        lemma_word_bytes(s[0], s[1], s[2], s[3], crc, one);
        lemma_slice_by_4(*table, crc, s, xb0, xb1, xb2, xb3);
    }
    tl0 ^ tl1 ^ tl2 ^ tl3
}

/// The register after the 16 bytes of `current` from `offset` on, looked
/// up in the 16 tables at once.
pub(crate) fn sixteen_byte_block(table: &[[u32; 256]; 16], crc: u32, current: &[u8], offset: usize) -> (next: u32)
    requires
        is_lookup_table(*table),
        offset + 16 <= current@.len(),
    ensures
        next == crc_register(crc, current@.subrange(offset as int, offset + 16)),
{
    // reconstruct little-endian words from the bytes
    let b0: u32 = current[offset + 0] as u32;
    let b1: u32 = (current[offset + 1] as u32) << 8;
    let b2: u32 = (current[offset + 2] as u32) << 16;
    let b3: u32 = (current[offset + 3] as u32) << 24;
    let b4: u32 = current[offset + 4] as u32;
    let b5: u32 = (current[offset + 5] as u32) << 8;
    let b6: u32 = (current[offset + 6] as u32) << 16;
    let b7: u32 = (current[offset + 7] as u32) << 24;
    let b8: u32 = current[offset + 8] as u32;
    let b9: u32 = (current[offset + 9] as u32) << 8;
    let b10: u32 = (current[offset + 10] as u32) << 16;
    let b11: u32 = (current[offset + 11] as u32) << 24;
    let b12: u32 = current[offset + 12] as u32;
    let b13: u32 = (current[offset + 13] as u32) << 8;
    let b14: u32 = (current[offset + 14] as u32) << 16;
    let b15: u32 = (current[offset + 15] as u32) << 24;
    let one: u32 = (b0 | b1 | b2 | b3) ^ crc;
    let two: u32 = b4 | b5 | b6 | b7;
    let three: u32 = b8 | b9 | b10 | b11;
    let four: u32 = b12 | b13 | b14 | b15;
    let xb0: u8 = (one >> 24 & 0xFF) as u8;
    let xb1: u8 = (one >> 16 & 0xFF) as u8;
    let xb2: u8 = (one >> 8 & 0xFF) as u8;
    let xb3: u8 = (one >> 0 & 0xFF) as u8;
    let xb4: u8 = (two >> 24 & 0xFF) as u8;
    let xb5: u8 = (two >> 16 & 0xFF) as u8;
    let xb6: u8 = (two >> 8 & 0xFF) as u8;
    let xb7: u8 = (two >> 0 & 0xFF) as u8;
    let xb8: u8 = (three >> 24 & 0xFF) as u8;
    let xb9: u8 = (three >> 16 & 0xFF) as u8;
    let xb10: u8 = (three >> 8 & 0xFF) as u8;
    let xb11: u8 = (three >> 0 & 0xFF) as u8;
    let xb12: u8 = (four >> 24 & 0xFF) as u8;
    let xb13: u8 = (four >> 16 & 0xFF) as u8;
    let xb14: u8 = (four >> 8 & 0xFF) as u8;
    let xb15: u8 = (four >> 0 & 0xFF) as u8;
    let tl0: u32 = table[12][xb0 as usize];
    let tl1: u32 = table[13][xb1 as usize];
    let tl2: u32 = table[14][xb2 as usize];
    let tl3: u32 = table[15][xb3 as usize];
    let tl4: u32 = table[8][xb4 as usize];
    let tl5: u32 = table[9][xb5 as usize];
    let tl6: u32 = table[10][xb6 as usize];
    let tl7: u32 = table[11][xb7 as usize];
    let tl8: u32 = table[4][xb8 as usize];
    let tl9: u32 = table[5][xb9 as usize];
    let tl10: u32 = table[6][xb10 as usize];
    let tl11: u32 = table[7][xb11 as usize];
    let tl12: u32 = table[0][xb12 as usize];
    let tl13: u32 = table[1][xb13 as usize];
    let tl14: u32 = table[2][xb14 as usize];
    let tl15: u32 = table[3][xb15 as usize];
    proof {
        let s = current@.subrange(offset as int, offset + 16);
        assert(two ^ 0u32 == two && three ^ 0u32 == three && four ^ 0u32 == four)
            by (bit_vector);
        assert(forall|b: u8| #[trigger] (b ^ 0u8) == b) by (bit_vector);
        lemma_reg_byte_zero(0);
        lemma_reg_byte_zero(1);
        lemma_reg_byte_zero(2);
        lemma_reg_byte_zero(3);
        lemma_word_bytes(s[0], s[1], s[2], s[3], crc, one);
        lemma_word_bytes(s[4], s[5], s[6], s[7], 0, two);
        lemma_word_bytes(s[8], s[9], s[10], s[11], 0, three);
        lemma_word_bytes(s[12], s[13], s[14], s[15], 0, four);
        lemma_slice_by_16(*table, crc, s, xb0, xb1, xb2, xb3, xb4, xb5, xb6, xb7, xb8, xb9, xb10, xb11, xb12, xb13, xb14, xb15);
    }
    tl0 ^ tl1 ^ tl2 ^ tl3 ^ tl4 ^ tl5 ^ tl6 ^ tl7 ^ tl8 ^ tl9 ^ tl10 ^ tl11 ^ tl12 ^ tl13 ^ tl14
        ^ tl15
}

/// The CRC-32 (IEEE) checksum of `bytes`, four bytes at a time through
/// 4 lookup tables; the last `len % 4` bytes go one at a time through the
/// first table.
pub fn checksum_ieee_four_byte(bytes: &[u8]) -> (checksum: u32)
    ensures
        checksum == crc32_ieee(bytes@),
{
    let table: [[u32; 256]; 4] = build_tables::<4>();
    let mut crc: u32 = !0;
    proof {
        assert(!0u32 == 0xFFFF_FFFFu32) by (bit_vector);
        assert(bytes@.take(0) =~= Seq::<u8>::empty());
    }
    let mut length: usize = bytes.len();
    let mut offset: usize = 0;
    while offset < bytes.len()
        invariant
            is_lookup_table(table),
            offset <= bytes.len(),
            length == bytes.len() - offset,
            crc == crc_register(0xFFFF_FFFFu32, bytes@.take(offset as int)),
        ensures
            offset == bytes.len(),
        decreases bytes.len() - offset,
    {
        // handle any bytes less than the chunk size
        if length < 4 {
            while offset < bytes.len()
                invariant
                    is_lookup_table(table),
                    offset <= bytes.len(),
                    length == bytes.len() - offset,
                    crc == crc_register(0xFFFF_FFFFu32, bytes@.take(offset as int)),
                decreases bytes.len() - offset,
            {
                proof {
                    lemma_take_one_more(0xFFFF_FFFFu32, bytes@, offset as int);
                }
                crc = table_byte_step(&table, crc, bytes[offset]);
                length -= 1;
                offset += 1;
            }
            break;
        }
        proof {
            lemma_take_block(0xFFFF_FFFFu32, bytes@, offset as int, 4);
        }
        crc = four_byte_block(&table, crc, bytes, offset);
        // update how many bytes there are left
        length -= 4;
        offset += 4;
    }
    proof {
        assert(bytes@.take(bytes@.len() as int) =~= bytes@);
    }
    // the standard final inversion
    !crc
}

/// The CRC-32 (IEEE) checksum of `bytes`, sixteen bytes at a time through
/// 16 lookup tables; the last `len % 16` bytes go one at a time through the
/// first table.
pub fn checksum_ieee_sixteen_byte(bytes: &[u8]) -> (checksum: u32)
    ensures
        checksum == crc32_ieee(bytes@),
{
    let table: [[u32; 256]; 16] = build_tables::<16>();
    let mut crc: u32 = !0;
    proof {
        assert(!0u32 == 0xFFFF_FFFFu32) by (bit_vector);
        assert(bytes@.take(0) =~= Seq::<u8>::empty());
    }
    let mut length: usize = bytes.len();
    let mut offset: usize = 0;
    while offset < bytes.len()
        invariant
            is_lookup_table(table),
            offset <= bytes.len(),
            length == bytes.len() - offset,
            crc == crc_register(0xFFFF_FFFFu32, bytes@.take(offset as int)),
        ensures
            offset == bytes.len(),
        decreases bytes.len() - offset,
    {
        // handle any bytes less than the chunk size
        if length < 16 {
            while offset < bytes.len()
                invariant
                    is_lookup_table(table),
                    offset <= bytes.len(),
                    length == bytes.len() - offset,
                    crc == crc_register(0xFFFF_FFFFu32, bytes@.take(offset as int)),
                decreases bytes.len() - offset,
            {
                proof {
                    lemma_take_one_more(0xFFFF_FFFFu32, bytes@, offset as int);
                }
                crc = table_byte_step(&table, crc, bytes[offset]);
                length -= 1;
                offset += 1;
            }
            break;
        }
        proof {
            lemma_take_block(0xFFFF_FFFFu32, bytes@, offset as int, 16);
        }
        crc = sixteen_byte_block(&table, crc, bytes, offset);
        // update how many bytes there are left
        length -= 16;
        offset += 16;
    }
    proof {
        assert(bytes@.take(bytes@.len() as int) =~= bytes@);
    }
    // the standard final inversion
    !crc
}

} // verus!
