//! Proofs that one slicing step (four or sixteen bytes at once, through the
//! lookup tables) feeds the register exactly as the bytes one at a time.

use vstd::prelude::*;
use crate::model::{
    byte_step, byte_steps, crc_register, lemma_block, lemma_byte_step_split, lookup_sum, reg_byte,
    update_byte, with_register,
};
use crate::tables::{is_lookup_table, table_entry};

verus! {

/// The bytes of a little-endian word read from `c0..c3` and xored with
/// register `r`, as the slicing steps extract them (most significant first).
pub proof fn lemma_word_bytes(c0: u8, c1: u8, c2: u8, c3: u8, r: u32, one: u32)
    requires
        one == ((c0 as u32) | ((c1 as u32) << 8) | ((c2 as u32) << 16) | ((c3 as u32) << 24)) ^ r,
    ensures
        ((one >> 24 & 0xFF) as u8) == c3 ^ reg_byte(r, 3),
        ((one >> 16 & 0xFF) as u8) == c2 ^ reg_byte(r, 2),
        ((one >> 8 & 0xFF) as u8) == c1 ^ reg_byte(r, 1),
        ((one >> 0 & 0xFF) as u8) == c0 ^ reg_byte(r, 0),
{
    let r0 = reg_byte(r, 0);
    let r1 = reg_byte(r, 1);
    let r2 = reg_byte(r, 2);
    let r3 = reg_byte(r, 3);
    assert(r0 == ((r >> 0u32) & 0xFF) as u8);
    assert(r1 == ((r >> 8u32) & 0xFF) as u8);
    assert(r2 == ((r >> 16u32) & 0xFF) as u8);
    assert(r3 == ((r >> 24u32) & 0xFF) as u8);
    assert(((one >> 24 & 0xFF) as u8) == c3 ^ r3 && ((one >> 16 & 0xFF) as u8) == c2 ^ r2
        && ((one >> 8 & 0xFF) as u8) == c1 ^ r1 && ((one >> 0 & 0xFF) as u8) == c0 ^ r0)
        by (bit_vector)
        requires
            one == ((c0 as u32) | ((c1 as u32) << 8) | ((c2 as u32) << 16) | ((c3 as u32) << 24))
                ^ r,
            r0 == ((r >> 0u32) & 0xFF) as u8,
            r1 == ((r >> 8u32) & 0xFF) as u8,
            r2 == ((r >> 16u32) & 0xFF) as u8,
            r3 == ((r >> 24u32) & 0xFF) as u8,
    ;
}

/// The register has no bytes to contribute once it is zero.
pub proof fn lemma_reg_byte_zero(k: int)
    requires
        0 <= k < 4,
    ensures
        reg_byte(0, k) == 0,
{
    let s: u32 = (8 * k) as u32;
    assert((((0u32 >> s) & 0xFF) as u8) == 0u8) by (bit_vector);
}

/// One byte through table 0 is one byte fed to the register.
pub proof fn lemma_table_byte(t0: u32, crc: u32, byte: u8)
    requires
        t0 == table_entry(0, ((crc ^ (byte as u32)) & 0xFF) as int),
    ensures
        t0 ^ (crc >> 8) == update_byte(crc, byte),
{
    let x = crc ^ (byte as u32);
    lemma_byte_step_split(x);
    reveal_with_fuel(byte_steps, 2);
    assert((x & 0xFF) as int as u32 == x & 0xFF);
    let lo = byte_step(x & 0xFF);
    let bs = byte_step(x);
    assert(t0 ^ (crc >> 8) == bs) by (bit_vector)
        requires
            x == crc ^ (byte as u32),
            t0 == lo,
            bs == lo ^ (x >> 8),
    ;
}

/// A slicing-by-4 step: the xor of the 4 lookups, in the order the
/// step computes them, is the register after bytes `c0..c3`.
pub proof fn lemma_slice_by_4(table: [[u32; 256]; 4], crc: u32, s: Seq<u8>, xb0: u8, xb1: u8, xb2: u8, xb3: u8)
    requires
        is_lookup_table(table),
        s.len() == 4,
        xb3 == s[0] ^ reg_byte(crc, 0),
        xb2 == s[1] ^ reg_byte(crc, 1),
        xb1 == s[2] ^ reg_byte(crc, 2),
        xb0 == s[3] ^ reg_byte(crc, 3),
    ensures
        table[0][xb0 as int]
            ^ table[1][xb1 as int]
            ^ table[2][xb2 as int]
            ^ table[3][xb3 as int]
            == crc_register(crc, s),
{
    lemma_block(crc, s);
    let y = with_register(crc, s);
    assert(lookup_sum(y, 4) == 0);
    assert(lookup_sum(y, 3) == byte_steps(y[3] as u32, 1) ^ lookup_sum(y, 4));
    assert(lookup_sum(y, 2) == byte_steps(y[2] as u32, 2) ^ lookup_sum(y, 3));
    assert(lookup_sum(y, 1) == byte_steps(y[1] as u32, 3) ^ lookup_sum(y, 2));
    assert(lookup_sum(y, 0) == byte_steps(y[0] as u32, 4) ^ lookup_sum(y, 1));
    assert(y[3] == xb0);
    assert(table[0][xb0 as int] == table_entry(0, xb0 as int));
    let l3 = byte_steps(y[3] as u32, 1);
    assert(table[0][xb0 as int] == l3);
    assert(y[2] == xb1);
    assert(table[1][xb1 as int] == table_entry(1, xb1 as int));
    let l2 = byte_steps(y[2] as u32, 2);
    assert(table[1][xb1 as int] == l2);
    assert(y[1] == xb2);
    assert(table[2][xb2 as int] == table_entry(2, xb2 as int));
    let l1 = byte_steps(y[1] as u32, 3);
    assert(table[2][xb2 as int] == l1);
    assert(y[0] == xb3);
    assert(table[3][xb3 as int] == table_entry(3, xb3 as int));
    let l0 = byte_steps(y[0] as u32, 4);
    assert(table[3][xb3 as int] == l0);
    let t0 = lookup_sum(y, 0);
    let t1 = lookup_sum(y, 1);
    let t2 = lookup_sum(y, 2);
    let t3 = lookup_sum(y, 3);
    let t4 = lookup_sum(y, 4);
    assert(l3 ^ l2 ^ l1 ^ l0 == t0) by (bit_vector)
        requires
            t0 == l0 ^ t1,
            t1 == l1 ^ t2,
            t2 == l2 ^ t3,
            t3 == l3 ^ t4,
            t4 == 0u32,
    ;
}

/// A slicing-by-16 step: the xor of the 16 lookups, in the order the
/// step computes them, is the register after bytes `c0..c15`.
pub proof fn lemma_slice_by_16(table: [[u32; 256]; 16], crc: u32, s: Seq<u8>, xb0: u8, xb1: u8, xb2: u8, xb3: u8, xb4: u8, xb5: u8, xb6: u8, xb7: u8, xb8: u8, xb9: u8, xb10: u8, xb11: u8, xb12: u8, xb13: u8, xb14: u8, xb15: u8)
    requires
        is_lookup_table(table),
        s.len() == 16,
        xb3 == s[0] ^ reg_byte(crc, 0),
        xb2 == s[1] ^ reg_byte(crc, 1),
        xb1 == s[2] ^ reg_byte(crc, 2),
        xb0 == s[3] ^ reg_byte(crc, 3),
        xb7 == s[4],
        xb6 == s[5],
        xb5 == s[6],
        xb4 == s[7],
        xb11 == s[8],
        xb10 == s[9],
        xb9 == s[10],
        xb8 == s[11],
        xb15 == s[12],
        xb14 == s[13],
        xb13 == s[14],
        xb12 == s[15],
    ensures
        table[12][xb0 as int]
            ^ table[13][xb1 as int]
            ^ table[14][xb2 as int]
            ^ table[15][xb3 as int]
            ^ table[8][xb4 as int]
            ^ table[9][xb5 as int]
            ^ table[10][xb6 as int]
            ^ table[11][xb7 as int]
            ^ table[4][xb8 as int]
            ^ table[5][xb9 as int]
            ^ table[6][xb10 as int]
            ^ table[7][xb11 as int]
            ^ table[0][xb12 as int]
            ^ table[1][xb13 as int]
            ^ table[2][xb14 as int]
            ^ table[3][xb15 as int]
            == crc_register(crc, s),
{
    lemma_block(crc, s);
    let y = with_register(crc, s);
    assert(lookup_sum(y, 16) == 0);
    assert(lookup_sum(y, 15) == byte_steps(y[15] as u32, 1) ^ lookup_sum(y, 16));
    assert(lookup_sum(y, 14) == byte_steps(y[14] as u32, 2) ^ lookup_sum(y, 15));
    assert(lookup_sum(y, 13) == byte_steps(y[13] as u32, 3) ^ lookup_sum(y, 14));
    assert(lookup_sum(y, 12) == byte_steps(y[12] as u32, 4) ^ lookup_sum(y, 13));
    assert(lookup_sum(y, 11) == byte_steps(y[11] as u32, 5) ^ lookup_sum(y, 12));
    assert(lookup_sum(y, 10) == byte_steps(y[10] as u32, 6) ^ lookup_sum(y, 11));
    assert(lookup_sum(y, 9) == byte_steps(y[9] as u32, 7) ^ lookup_sum(y, 10));
    assert(lookup_sum(y, 8) == byte_steps(y[8] as u32, 8) ^ lookup_sum(y, 9));
    assert(lookup_sum(y, 7) == byte_steps(y[7] as u32, 9) ^ lookup_sum(y, 8));
    assert(lookup_sum(y, 6) == byte_steps(y[6] as u32, 10) ^ lookup_sum(y, 7));
    assert(lookup_sum(y, 5) == byte_steps(y[5] as u32, 11) ^ lookup_sum(y, 6));
    assert(lookup_sum(y, 4) == byte_steps(y[4] as u32, 12) ^ lookup_sum(y, 5));
    assert(lookup_sum(y, 3) == byte_steps(y[3] as u32, 13) ^ lookup_sum(y, 4));
    assert(lookup_sum(y, 2) == byte_steps(y[2] as u32, 14) ^ lookup_sum(y, 3));
    assert(lookup_sum(y, 1) == byte_steps(y[1] as u32, 15) ^ lookup_sum(y, 2));
    assert(lookup_sum(y, 0) == byte_steps(y[0] as u32, 16) ^ lookup_sum(y, 1));
    assert(y[3] == xb0);
    assert(table[12][xb0 as int] == table_entry(12, xb0 as int));
    let l3 = byte_steps(y[3] as u32, 13);
    assert(table[12][xb0 as int] == l3);
    assert(y[2] == xb1);
    assert(table[13][xb1 as int] == table_entry(13, xb1 as int));
    let l2 = byte_steps(y[2] as u32, 14);
    assert(table[13][xb1 as int] == l2);
    assert(y[1] == xb2);
    assert(table[14][xb2 as int] == table_entry(14, xb2 as int));
    let l1 = byte_steps(y[1] as u32, 15);
    assert(table[14][xb2 as int] == l1);
    assert(y[0] == xb3);
    assert(table[15][xb3 as int] == table_entry(15, xb3 as int));
    let l0 = byte_steps(y[0] as u32, 16);
    assert(table[15][xb3 as int] == l0);
    assert(y[7] == xb4);
    assert(table[8][xb4 as int] == table_entry(8, xb4 as int));
    let l7 = byte_steps(y[7] as u32, 9);
    assert(table[8][xb4 as int] == l7);
    assert(y[6] == xb5);
    assert(table[9][xb5 as int] == table_entry(9, xb5 as int));
    let l6 = byte_steps(y[6] as u32, 10);
    assert(table[9][xb5 as int] == l6);
    assert(y[5] == xb6);
    assert(table[10][xb6 as int] == table_entry(10, xb6 as int));
    let l5 = byte_steps(y[5] as u32, 11);
    assert(table[10][xb6 as int] == l5);
    assert(y[4] == xb7);
    assert(table[11][xb7 as int] == table_entry(11, xb7 as int));
    let l4 = byte_steps(y[4] as u32, 12);
    assert(table[11][xb7 as int] == l4);
    assert(y[11] == xb8);
    assert(table[4][xb8 as int] == table_entry(4, xb8 as int));
    let l11 = byte_steps(y[11] as u32, 5);
    assert(table[4][xb8 as int] == l11);
    assert(y[10] == xb9);
    assert(table[5][xb9 as int] == table_entry(5, xb9 as int));
    let l10 = byte_steps(y[10] as u32, 6);
    assert(table[5][xb9 as int] == l10);
    assert(y[9] == xb10);
    assert(table[6][xb10 as int] == table_entry(6, xb10 as int));
    let l9 = byte_steps(y[9] as u32, 7);
    assert(table[6][xb10 as int] == l9);
    assert(y[8] == xb11);
    assert(table[7][xb11 as int] == table_entry(7, xb11 as int));
    let l8 = byte_steps(y[8] as u32, 8);
    assert(table[7][xb11 as int] == l8);
    assert(y[15] == xb12);
    assert(table[0][xb12 as int] == table_entry(0, xb12 as int));
    let l15 = byte_steps(y[15] as u32, 1);
    assert(table[0][xb12 as int] == l15);
    assert(y[14] == xb13);
    assert(table[1][xb13 as int] == table_entry(1, xb13 as int));
    let l14 = byte_steps(y[14] as u32, 2);
    assert(table[1][xb13 as int] == l14);
    assert(y[13] == xb14);
    assert(table[2][xb14 as int] == table_entry(2, xb14 as int));
    let l13 = byte_steps(y[13] as u32, 3);
    assert(table[2][xb14 as int] == l13);
    assert(y[12] == xb15);
    assert(table[3][xb15 as int] == table_entry(3, xb15 as int));
    let l12 = byte_steps(y[12] as u32, 4);
    assert(table[3][xb15 as int] == l12);
    let t0 = lookup_sum(y, 0);
    let t1 = lookup_sum(y, 1);
    let t2 = lookup_sum(y, 2);
    let t3 = lookup_sum(y, 3);
    let t4 = lookup_sum(y, 4);
    let t5 = lookup_sum(y, 5);
    let t6 = lookup_sum(y, 6);
    let t7 = lookup_sum(y, 7);
    let t8 = lookup_sum(y, 8);
    let t9 = lookup_sum(y, 9);
    let t10 = lookup_sum(y, 10);
    let t11 = lookup_sum(y, 11);
    let t12 = lookup_sum(y, 12);
    let t13 = lookup_sum(y, 13);
    let t14 = lookup_sum(y, 14);
    let t15 = lookup_sum(y, 15);
    let t16 = lookup_sum(y, 16);
    assert(l3 ^ l2 ^ l1 ^ l0 ^ l7 ^ l6 ^ l5 ^ l4 ^ l11 ^ l10 ^ l9 ^ l8 ^ l15 ^ l14 ^ l13 ^ l12 == t0) by (bit_vector)
        requires
            t0 == l0 ^ t1,
            t1 == l1 ^ t2,
            t2 == l2 ^ t3,
            t3 == l3 ^ t4,
            t4 == l4 ^ t5,
            t5 == l5 ^ t6,
            t6 == l6 ^ t7,
            t7 == l7 ^ t8,
            t8 == l8 ^ t9,
            t9 == l9 ^ t10,
            t10 == l10 ^ t11,
            t11 == l11 ^ t12,
            t12 == l12 ^ t13,
            t13 == l13 ^ t14,
            t14 == l14 ^ t15,
            t15 == l15 ^ t16,
            t16 == 0u32,
    ;
}

} // verus!
