//! The slicing lookup tables, built at run time and proved to
//! hold the register pushed through zero bytes.

use vstd::prelude::*;
use crate::model::{bit_step, bit_steps, byte_step, byte_steps, lemma_byte_step_split, CRC_POLY};

verus! {

/// Entry `i` of table `k`: byte `i` pushed through `k + 1` byte steps.
pub open spec fn table_entry(k: int, i: int) -> u32 {
    byte_steps(i as u32, (k + 1) as nat)
}

/// Every entry of the `N` tables is what `table_entry` says.
pub open spec fn is_lookup_table<const N: usize>(t: [[u32; 256]; N]) -> bool {
    forall|k: int, i: int| 0 <= k < N && 0 <= i < 256 ==> #[trigger] t[k][i] == table_entry(k, i)
}

/// One register step, branch-free: the low bit, negated, is a
/// mask for the polynomial.
fn shift_in_poly(crc: u32) -> (next: u32)
    ensures
        next == bit_step(crc),
{
    let low: i32 = (crc & 1) as i32;
    assert(crc & 1 <= 1) by (bit_vector);
    let mask: u32 = (-low) as u32;
    let next: u32 = (crc >> 1) ^ (mask & CRC_POLY);
    assert(next == bit_step(crc)) by (bit_vector)
        requires
            low == (crc & 1) as i32,
            mask == (-low) as u32,
            next == (crc >> 1) ^ (mask & CRC_POLY),
    ;
    next
}

/// Builds the `N` slicing tables: table 0 by eight register steps per byte,
/// table `k` from table `k - 1` by one more byte step through table 0.
pub fn build_tables<const N: usize>() -> (table: [[u32; 256]; N])
    requires
        N >= 1,
    ensures
        is_lookup_table(table),
{
    let mut table: [[u32; 256]; N] = [[0u32; 256]; N];
    for i in 0..256u32
        invariant
            N >= 1,
            forall|j: int| 0 <= j < i ==> #[trigger] table[0][j] == table_entry(0, j),
    {
        let mut crc: u32 = i;
        for step in 0..8u32
            invariant
                crc == bit_steps(i, step as nat),
        {
            crc = shift_in_poly(crc);
        }
        proof {
            reveal_with_fuel(byte_steps, 2);
        }
        table[0][i as usize] = crc;
    }
    for i in 0..256u32
        invariant
            N >= 1,
            forall|j: int| 0 <= j < 256 ==> #[trigger] table[0][j] == table_entry(0, j),
            forall|k: int, j: int|
                1 <= k < N && 0 <= j < i ==> #[trigger] table[k][j] == table_entry(k, j),
    {
        for slice in 1..N
            invariant
                N >= 1,
                0 <= i < 256,
                forall|j: int| 0 <= j < 256 ==> #[trigger] table[0][j] == table_entry(0, j),
                forall|k: int, j: int|
                    1 <= k < N && 0 <= j < i ==> #[trigger] table[k][j] == table_entry(k, j),
                forall|k: int| 1 <= k < slice ==> #[trigger] table[k][i as int] == table_entry(k, i as int),
        {
            let i: usize = i as usize;
            let slice_index: usize = slice - 1;
            let prev: u32 = table[slice_index][i];
            let x: u32 = prev >> 8;
            assert(prev & 0xFF < 256) by (bit_vector);
            let y: u32 = table[0][(prev & 0xFF) as usize];
            proof {
                lemma_byte_step_split(prev);
                assert(slice_index == 0 ==> prev == table_entry(0, i as int));
                reveal_with_fuel(byte_steps, 2);
                assert(y == byte_step(prev & 0xFF));
                assert(prev == table_entry(slice_index as int, i as int));
                let bp = byte_step(prev);
                assert(x ^ y == bp) by (bit_vector)
                    requires
                        bp == y ^ x,
                ;
                assert(table_entry(slice as int, i as int) == byte_step(table_entry(slice_index as int, i as int)));
            }
            table[slice][i] = x ^ y;
        }
    }
    table
}

} // verus!
