//! CRC-32 (IEEE) of bytes pulled from a reader sixteen at a time.

use vstd::prelude::*;
use crate::checksum::{sixteen_byte_block, table_byte_step};
use crate::model::{crc32_ieee, crc_register, lemma_register_concat};
use crate::tables::{build_tables, is_lookup_table};

verus! {

#[verifier::external_type_specification]
#[verifier::external_body]
pub struct ExIoError(std::io::Error);

/// `std::io::Read::read` on a byte slice (`impl Read for &[u8]`): its
/// documentation says that it copies from the front of the slice and leaves
/// the slice pointing at the part not yet read. So it copies
/// `min(reader.len(), buf.len())` bytes to the front of `buf`, leaves the rest
/// of `buf` as it was, and reports how many it copied.
#[verifier::external_body]
fn read_slice(reader: &mut &[u8], buf: &mut [u8]) -> (r: Result<usize, std::io::Error>)
    ensures
        r matches Ok(n) && n == (if old(reader)@.len() < old(buf)@.len() {
            old(reader)@.len()
        } else {
            old(buf)@.len()
        }) && final(buf)@ == old(reader)@.take(n as int) + old(buf)@.skip(n as int) && (
        *final(reader))@ == old(reader)@.skip(n as int),
{
    std::io::Read::read(reader, buf)
}

/// What is left of `data` once `k` bytes have been taken from its front
/// (nothing, once `k` reaches its end).
pub open spec fn rest_after(data: Seq<u8>, k: int) -> Seq<u8> {
    if k >= data.len() {
        Seq::empty()
    } else {
        data.skip(k)
    }
}

/// The sixteen-byte buffer after `r` reads into it from a slice that held
/// `data`: each read copies what is left, up to sixteen bytes, over the front
/// of the buffer; once the slice runs short, bytes of earlier reads (or the
/// initial zeros) stay behind.
pub open spec fn buffer_after_reads(data: Seq<u8>, r: nat) -> Seq<u8>
    decreases r,
{
    if r == 0 {
        Seq::new(16, |j: int| 0u8)
    } else {
        let prev = buffer_after_reads(data, (r - 1) as nat);
        let rest = rest_after(data, 16 * (r - 1));
        let n: int = if rest.len() < 16 {
            rest.len() as int
        } else {
            16
        };
        rest.take(n) + prev.skip(n)
    }
}

/// The bytes that the first `r` sixteen-byte rounds feed to the register.
pub open spec fn rounds_input(data: Seq<u8>, r: nat) -> Seq<u8>
    decreases r,
{
    if r == 0 {
        Seq::empty()
    } else {
        rounds_input(data, (r - 1) as nat) + buffer_after_reads(data, r)
    }
}

/// The bytes hashed when the reader holds `data` and the caller announces
/// `length` bytes: `length / 16` rounds of the buffer, then, when `length` is
/// not a multiple of sixteen, everything that is left in the reader.
pub open spec fn stream_input(data: Seq<u8>, length: nat) -> Seq<u8> {
    let rounds = length / 16;
    rounds_input(data, rounds) + (if length % 16 == 0 {
        Seq::empty()
    } else {
        rest_after(data, 16 * (rounds as int))
    })
}

proof fn lemma_rest_after_read(data: Seq<u8>, r: int)
    requires
        0 <= r,
    ensures
        ({
            let rest = rest_after(data, 16 * (r as int));
            let n: int = if rest.len() < 16 {
                rest.len() as int
            } else {
                16
            };
            rest.skip(n) == rest_after(data, 16 * (r + 1))
        }),
{
    let rest = rest_after(data, 16 * (r as int));
    if 16 * r >= data.len() {
        assert(rest.skip(0) =~= Seq::<u8>::empty());
    } else if rest.len() < 16 {
        assert(rest.skip(rest.len() as int) =~= Seq::<u8>::empty());
    } else {
        assert(rest.skip(16) =~= rest_after(data, 16 * (r + 1)));
    }
}

/// While the data lasts, the rounds see it sixteen bytes at a time.
proof fn lemma_rounds_in_bounds(data: Seq<u8>, r: nat)
    requires
        16 * r <= data.len(),
    ensures
        rounds_input(data, r) == data.take(16 * (r as int)),
        r >= 1 ==> buffer_after_reads(data, r) == data.subrange(16 * (r - 1), 16 * (r as int)),
    decreases r,
{
    if r == 0 {
        assert(data.take(0) =~= Seq::<u8>::empty());
    } else {
        lemma_rounds_in_bounds(data, (r - 1) as nat);
        let rest = rest_after(data, 16 * (r - 1));
        assert(rest == data.skip(16 * (r - 1)));
        lemma_buffer_len(data, (r - 1) as nat);
        assert(buffer_after_reads(data, r) =~= data.subrange(16 * (r - 1), 16 * (r as int)));
        assert(data.take(16 * (r - 1)) + data.subrange(16 * (r - 1), 16 * (r as int)) =~= data.take(16 * (r as int)));
    }
}

/// With at least `length` bytes in the reader, what is hashed is the first
/// `length` bytes, whenever hashing does not stop on a mismatch.
pub proof fn lemma_stream_input_prefix(data: Seq<u8>, length: nat)
    requires
        length <= data.len(),
        length % 16 == 0 || data.len() == length,
    ensures
        stream_input(data, length) == data.take(length as int),
{
    let rounds = length / 16;
    lemma_rounds_in_bounds(data, rounds);
    if length % 16 == 0 {
        assert(16 * (rounds as int) == length);
        assert(stream_input(data, length) =~= data.take(length as int));
    } else {
        assert(16 * (rounds as int) < data.len());
        assert(data.take(16 * (rounds as int)) + data.skip(16 * (rounds as int)) =~= data.take(length as int));
    }
}

proof fn lemma_buffer_len(data: Seq<u8>, r: nat)
    ensures
        buffer_after_reads(data, r).len() == 16,
    decreases r,
{
    if r > 0 {
        lemma_buffer_len(data, (r - 1) as nat);
    }
}

/// The CRC-32 (IEEE) checksum of `length` bytes read from `reader`: sixteen
/// bytes per read for `length / 16` rounds, whatever each read returns, then,
/// when `length` is not a multiple of sixteen, every byte left in the reader
/// one at a time. That last part needs exactly `length % 16` bytes left in
/// the reader (fewer or more would end the count off zero), which the
/// `requires` asks for.
pub fn checksum_ieee_sixteen_byte_iterator(reader: &[u8], length: usize) -> (checksum: u32)
    requires
        length % 16 == 0 || reader@.len() == length,
    ensures
        checksum == crc32_ieee(stream_input(reader@, length as nat)),
        reader@.len() >= length ==> checksum == crc32_ieee(reader@.take(length as int)),
{
    let ghost data = reader@;
    let ghost total = length;
    let table: [[u32; 256]; 16] = build_tables::<16>();
    let iters: usize = length / 16;
    let mut current: Vec<u8> = vec![0; 16];
    let mut crc: u32 = !0;
    let mut length: usize = length;
    let mut reader: &[u8] = reader;
    proof {
        assert(!0u32 == 0xFFFF_FFFFu32) by (bit_vector);
        assert(current@ =~= buffer_after_reads(data, 0));
        assert(data.skip(0) =~= data);
    }
    for round in 0..iters
        invariant
            is_lookup_table(table),
            iters == total / 16,
            length == total - 16 * round,
            current@ == buffer_after_reads(data, round as nat),
            reader@ == rest_after(data, 16 * round),
            crc == crc_register(0xFFFF_FFFFu32, rounds_input(data, round as nat)),
    {
        proof {
            lemma_rest_after_read(data, round as int);
            lemma_buffer_len(data, round as nat);
        }
        let _n: usize = read_slice(&mut reader, current.as_mut_slice()).unwrap();
        proof {
            assert(current@ =~= buffer_after_reads(data, (round + 1) as nat));
            assert(current@.subrange(0, 16) =~= current@);
            lemma_register_concat(0xFFFF_FFFFu32, rounds_input(data, round as nat), current@);
        }
        crc = sixteen_byte_block(&table, crc, current.as_slice(), 0);
        // update how many bytes there are left
        length -= 16;
    }
    let ghost tail = rest_after(data, 16 * iters);
    let ghost head = rounds_input(data, iters as nat);
    proof {
        assert(tail.skip(0) =~= tail);
        assert(tail.take(0) =~= Seq::<u8>::empty());
        assert(head + tail.take(0) =~= head);
    }
    if length > 0 {
        let mut byte: [u8; 1] = [0u8; 1];
        let ghost mut taken: int = 0;
        loop
            invariant
                is_lookup_table(table),
                0 <= taken <= tail.len(),
                tail.len() == length + taken,
                reader@ == tail.skip(taken),
                crc == crc_register(0xFFFF_FFFFu32, head + tail.take(taken)),
            ensures
                taken == tail.len(),
                length == 0,
            decreases tail.len() - taken,
        {
            let n: usize = read_slice(&mut reader, &mut byte).unwrap();
            if n == 0 {
                break;
            }
            proof {
                assert(byte@[0] == tail[taken]);
                assert((head + tail.take(taken + 1)).drop_last() =~= head + tail.take(taken));
                assert(tail.skip(taken).skip(1) =~= tail.skip(taken + 1));
                taken = taken + 1;
            }
            crc = table_byte_step(&table, crc, byte[0]);
            length -= 1;
        }
        proof {
            assert(tail.take(tail.len() as int) =~= tail);
        }
    } else {
        proof {
            assert(head + Seq::<u8>::empty() =~= head);
        }
    }
    proof {
        if data.len() >= total {
            lemma_stream_input_prefix(data, total as nat);
        }
    }
    !crc
}

} // verus!
