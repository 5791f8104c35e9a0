//! The mathematical model of CRC-32 (IEEE): the reflected bit-at-a-time
//! register update, folded over a byte sequence.

use vstd::prelude::*;

verus! {

/// The reflected form of the IEEE 802.3 generator polynomial.
pub const CRC_POLY: u32 = 0xEDB88320;

/// One step of the register: shift right by one bit and, when the bit that
/// falls out is set, fold in the polynomial.
pub open spec fn bit_step(c: u32) -> u32 {
    if c & 1 == 0 {
        c >> 1
    } else {
        (c >> 1) ^ CRC_POLY
    }
}

/// `n` steps of the register.
pub open spec fn bit_steps(c: u32, n: nat) -> u32
    decreases n,
{
    if n == 0 {
        c
    } else {
        bit_step(bit_steps(c, (n - 1) as nat))
    }
}

/// Eight steps of the register: the effect of one byte once it has been
/// xored into the low byte.
pub open spec fn byte_step(c: u32) -> u32 {
    bit_steps(c, 8)
}

/// `n` byte steps of the register (the register fed `n` zero bytes).
pub open spec fn byte_steps(c: u32, n: nat) -> u32
    decreases n,
{
    if n == 0 {
        c
    } else {
        byte_step(byte_steps(c, (n - 1) as nat))
    }
}

/// The register after it takes in byte `b`.
pub open spec fn update_byte(c: u32, b: u8) -> u32 {
    byte_step(c ^ (b as u32))
}

/// The register after it takes in every byte of `s`, in order, starting from `c`.
pub open spec fn crc_register(c: u32, s: Seq<u8>) -> u32
    decreases s.len(),
{
    if s.len() == 0 {
        c
    } else {
        update_byte(crc_register(c, s.drop_last()), s.last())
    }
}

/// The CRC-32 (IEEE) checksum of `s`: the register starts with all bits set
/// and is inverted at the end.
pub open spec fn crc32_ieee(s: Seq<u8>) -> u32 {
    !crc_register(0xFFFF_FFFFu32, s)
}

/// Eight nested steps of the register, written out for the bit-vector solver.
pub open spec fn byte_step_unrolled(c: u32) -> u32 {
    bit_step(bit_step(bit_step(bit_step(bit_step(bit_step(bit_step(bit_step(c))))))))
}

pub proof fn lemma_byte_step_unrolled(c: u32)
    ensures
        byte_step(c) == byte_step_unrolled(c),
{
    reveal_with_fuel(bit_steps, 9);
}

/// One register step distributes over xor.
pub proof fn lemma_bit_step_xor(a: u32, b: u32)
    ensures
        bit_step(a ^ b) == bit_step(a) ^ bit_step(b),
{
    assert(bit_step(a ^ b) == bit_step(a) ^ bit_step(b)) by (bit_vector);
}

/// Any number of register steps distribute over xor.
pub proof fn lemma_bit_steps_xor(a: u32, b: u32, n: nat)
    ensures
        bit_steps(a ^ b, n) == bit_steps(a, n) ^ bit_steps(b, n),
    decreases n,
{
    if n > 0 {
        lemma_bit_steps_xor(a, b, (n - 1) as nat);
        lemma_bit_step_xor(bit_steps(a, (n - 1) as nat), bit_steps(b, (n - 1) as nat));
    }
}

/// Eight register steps distribute over xor.
pub proof fn lemma_byte_step_xor(a: u32, b: u32)
    ensures
        byte_step(a ^ b) == byte_step(a) ^ byte_step(b),
{
    lemma_bit_steps_xor(a, b, 8);
}

/// A register whose low byte is clear only shifts over eight steps.
pub proof fn lemma_byte_step_high(a: u32)
    requires
        a & 0xFF == 0,
    ensures
        byte_step(a) == a >> 8,
{
    lemma_byte_step_unrolled(a);
    assert(byte_step_unrolled(a) == a >> 8) by (bit_vector)
        requires
            a & 0xFF == 0,
    ;
}

/// The table identity behind every lookup: eight register steps act on the
/// low byte alone, while the other bytes only shift down.
pub proof fn lemma_byte_step_split(x: u32)
    ensures
        byte_step(x) == byte_step(x & 0xFF) ^ (x >> 8),
{
    let lo = x & 0xFF;
    let hi = x & 0xFFFF_FF00;
    assert(x == lo ^ hi && hi & 0xFF == 0 && hi >> 8 == x >> 8) by (bit_vector)
        requires
            lo == x & 0xFF,
            hi == x & 0xFFFF_FF00,
    ;
    lemma_byte_step_xor(lo, hi);
    lemma_byte_step_high(hi);
}

/// The register fed zero bytes is linear too.
pub proof fn lemma_byte_steps_xor(a: u32, b: u32, n: nat)
    ensures
        byte_steps(a ^ b, n) == byte_steps(a, n) ^ byte_steps(b, n),
    decreases n,
{
    if n > 0 {
        lemma_byte_steps_xor(a, b, (n - 1) as nat);
        lemma_byte_step_xor(byte_steps(a, (n - 1) as nat), byte_steps(b, (n - 1) as nat));
    }
}

/// Unfolding `byte_steps` from the first step rather than the last.
pub proof fn lemma_byte_steps_first(a: u32, n: nat)
    ensures
        byte_steps(a, n + 1) == byte_steps(byte_step(a), n),
    decreases n,
{
    if n > 0 {
        lemma_byte_steps_first(a, (n - 1) as nat);
        assert(byte_steps(a, n + 1) == byte_step(byte_steps(a, n)));
    } else {
        assert(byte_steps(a, 1) == byte_step(byte_steps(a, 0)));
    }
}

/// A zero register stays zero.
pub proof fn lemma_byte_steps_zero(n: nat)
    ensures
        byte_steps(0, n) == 0,
    decreases n,
{
    if n > 0 {
        lemma_byte_steps_zero((n - 1) as nat);
        lemma_byte_step_xor(0, 0);
        assert(0u32 ^ 0u32 == 0u32) by (bit_vector);
        let z = byte_step(0);
        assert(z ^ z == 0u32) by (bit_vector);
    }
}

/// Feeding bytes from register `c` differs from feeding them from a zero
/// register by `c` pushed through as many zero bytes.
pub proof fn lemma_register_from_zero(c: u32, s: Seq<u8>)
    ensures
        crc_register(c, s) == crc_register(0, s) ^ byte_steps(c, s.len()),
    decreases s.len(),
{
    if s.len() == 0 {
        assert(0u32 ^ c == c) by (bit_vector);
    } else {
        let t = s.drop_last();
        let b = s.last() as u32;
        lemma_register_from_zero(c, t);
        let r0 = crc_register(0, t);
        let k = byte_steps(c, t.len());
        let rc = crc_register(c, t);
        assert(rc ^ b == (r0 ^ b) ^ k) by (bit_vector)
            requires
                rc == r0 ^ k,
        ;
        lemma_byte_step_xor(r0 ^ b, k);
    }
}

/// Feeding `a` then `b` is feeding `a + b`.
pub proof fn lemma_register_concat(c: u32, a: Seq<u8>, b: Seq<u8>)
    ensures
        crc_register(c, a + b) == crc_register(crc_register(c, a), b),
    decreases b.len(),
{
    if b.len() == 0 {
        assert(a + b =~= a);
    } else {
        assert((a + b).drop_last() =~= a + b.drop_last());
        assert((a + b).last() == b.last());
        lemma_register_concat(c, a, b.drop_last());
    }
}

/// The xor of the table lookups for the bytes of `y` from position `k` on:
/// byte `j` is pushed through as many byte steps as there are bytes from
/// `j` to the end.
pub open spec fn lookup_sum(y: Seq<u8>, k: int) -> u32
    decreases y.len() - k,
{
    if k < 0 || k >= y.len() {
        0
    } else {
        byte_steps(y[k] as u32, (y.len() - k) as nat) ^ lookup_sum(y, k + 1)
    }
}

proof fn lemma_lookup_sum_drop_last(y: Seq<u8>, k: int)
    requires
        y.len() > 0,
        0 <= k < y.len(),
    ensures
        lookup_sum(y, k) == byte_step(lookup_sum(y.drop_last(), k)) ^ byte_step(y.last() as u32),
    decreases y.len() - k,
{
    let t = y.drop_last();
    let n = (y.len() - k) as nat;
    if k == y.len() - 1 {
        assert(lookup_sum(y, k + 1) == 0);
        assert(lookup_sum(t, k) == 0);
        lemma_byte_steps_zero(1);
        reveal_with_fuel(byte_steps, 2);
        let v = byte_step(y.last() as u32);
        assert(v ^ 0u32 == 0u32 ^ v) by (bit_vector);
    } else {
        lemma_lookup_sum_drop_last(y, k + 1);
        let a = byte_steps(t[k] as u32, (n - 1) as nat);
        let r = lookup_sum(t, k + 1);
        let l = byte_step(y.last() as u32);
        assert(byte_steps(y[k] as u32, n) == byte_step(a));
        lemma_byte_step_xor(a, r);
        let fa = byte_step(a);
        let fr = byte_step(r);
        assert(fa ^ (fr ^ l) == (fa ^ fr) ^ l) by (bit_vector);
    }
}

/// From a zero register, the register after `y` is the xor of the table
/// lookups of its bytes.
pub proof fn lemma_register_is_lookup_sum(y: Seq<u8>)
    ensures
        crc_register(0, y) == lookup_sum(y, 0),
    decreases y.len(),
{
    if y.len() > 0 {
        let t = y.drop_last();
        lemma_register_is_lookup_sum(t);
        lemma_lookup_sum_drop_last(y, 0);
        lemma_byte_step_xor(crc_register(0, t), y.last() as u32);
    }
}

/// Byte `k` of register `c`, counting from the least significant.
pub open spec fn reg_byte(c: u32, k: int) -> u8 {
    ((c >> ((8 * k) as u32)) & 0xFF) as u8
}

/// The block `s` with register `c` xored into its first four bytes: what a
/// slicing step looks up.
pub open spec fn with_register(c: u32, s: Seq<u8>) -> Seq<u8> {
    Seq::new(s.len(), |k: int| if k < 4 { s[k] ^ reg_byte(c, k) } else { s[k] })
}

proof fn lemma_byte_steps_peel(c: u32, m: nat)
    requires
        m >= 1,
    ensures
        byte_steps(c, m) == byte_steps(c & 0xFF, m) ^ byte_steps(c >> 8, (m - 1) as nat),
{
    lemma_byte_step_split(c);
    lemma_byte_steps_first(c, (m - 1) as nat);
    lemma_byte_steps_first(c & 0xFF, (m - 1) as nat);
    lemma_byte_steps_xor(byte_step(c & 0xFF), c >> 8, (m - 1) as nat);
}

/// A register pushed through `m >= 4` zero bytes: each of its bytes enters
/// the lookups one position later than the previous one.
proof fn lemma_byte_steps_register(c: u32, m: nat)
    requires
        m >= 4,
    ensures
        byte_steps(c, m) == byte_steps(reg_byte(c, 0) as u32, m)
            ^ byte_steps(reg_byte(c, 1) as u32, (m - 1) as nat)
            ^ byte_steps(reg_byte(c, 2) as u32, (m - 2) as nat)
            ^ byte_steps(reg_byte(c, 3) as u32, (m - 3) as nat),
{
    let c1 = c >> 8;
    let c2 = c1 >> 8;
    let c3 = c2 >> 8;
    assert(c & 0xFF == reg_byte(c, 0) as u32 && c1 & 0xFF == reg_byte(c, 1) as u32 && c2 & 0xFF
        == reg_byte(c, 2) as u32 && c3 == reg_byte(c, 3) as u32 && c3 & 0xFF == c3
        && c3 >> 8 == 0) by (bit_vector)
        requires
            c1 == c >> 8,
            c2 == c1 >> 8,
            c3 == c2 >> 8,
    ;
    lemma_byte_steps_peel(c, m);
    lemma_byte_steps_peel(c1, (m - 1) as nat);
    lemma_byte_steps_peel(c2, (m - 2) as nat);
    lemma_byte_steps_peel(c3, (m - 3) as nat);
    lemma_byte_steps_zero((m - 4) as nat);
    let a0 = byte_steps(reg_byte(c, 0) as u32, m);
    let a1 = byte_steps(reg_byte(c, 1) as u32, (m - 1) as nat);
    let a2 = byte_steps(reg_byte(c, 2) as u32, (m - 2) as nat);
    let a3 = byte_steps(reg_byte(c, 3) as u32, (m - 3) as nat);
    let r0 = byte_steps(c, m);
    let r1 = byte_steps(c1, (m - 1) as nat);
    let r2 = byte_steps(c2, (m - 2) as nat);
    let r3 = byte_steps(c3, (m - 3) as nat);
    assert(r0 == a0 ^ a1 ^ a2 ^ a3) by (bit_vector)
        requires
            r0 == a0 ^ r1,
            r1 == a1 ^ r2,
            r2 == a2 ^ r3,
            r3 == a3 ^ 0u32,
    ;
}

proof fn lemma_lookup_sum_agree(y: Seq<u8>, s: Seq<u8>, k: int)
    requires
        y.len() == s.len(),
        0 <= k,
        forall|j: int| k <= j < y.len() ==> y[j] == s[j],
    ensures
        lookup_sum(y, k) == lookup_sum(s, k),
    decreases y.len() - k,
{
    if k < y.len() {
        lemma_lookup_sum_agree(y, s, k + 1);
    }
}

proof fn lemma_lookup_term_xor(a: u8, b: u8, n: nat)
    ensures
        byte_steps((a ^ b) as u32, n) == byte_steps(a as u32, n) ^ byte_steps(b as u32, n),
{
    assert((a ^ b) as u32 == (a as u32) ^ (b as u32)) by (bit_vector);
    lemma_byte_steps_xor(a as u32, b as u32, n);
}

/// The slicing identity: feeding a block of at least four bytes to register
/// `c` gives the xor of the table lookups of the block with `c` xored into
/// its first four bytes.
pub proof fn lemma_block(c: u32, s: Seq<u8>)
    requires
        s.len() >= 4,
    ensures
        crc_register(c, s) == lookup_sum(with_register(c, s), 0),
{
    let m = s.len();
    let y = with_register(c, s);
    lemma_register_from_zero(c, s);
    lemma_register_is_lookup_sum(s);
    lemma_byte_steps_register(c, m);
    lemma_lookup_sum_agree(y, s, 4);
    let l0 = byte_steps(s[0] as u32, m);
    let l1 = byte_steps(s[1] as u32, (m - 1) as nat);
    let l2 = byte_steps(s[2] as u32, (m - 2) as nat);
    let l3 = byte_steps(s[3] as u32, (m - 3) as nat);
    let k0 = byte_steps(reg_byte(c, 0) as u32, m);
    let k1 = byte_steps(reg_byte(c, 1) as u32, (m - 1) as nat);
    let k2 = byte_steps(reg_byte(c, 2) as u32, (m - 2) as nat);
    let k3 = byte_steps(reg_byte(c, 3) as u32, (m - 3) as nat);
    lemma_lookup_term_xor(s[0], reg_byte(c, 0), m);
    lemma_lookup_term_xor(s[1], reg_byte(c, 1), (m - 1) as nat);
    lemma_lookup_term_xor(s[2], reg_byte(c, 2), (m - 2) as nat);
    lemma_lookup_term_xor(s[3], reg_byte(c, 3), (m - 3) as nat);
    let rest = lookup_sum(s, 4);
    assert(lookup_sum(s, 3) == l3 ^ rest);
    assert(lookup_sum(s, 2) == l2 ^ lookup_sum(s, 3));
    assert(lookup_sum(s, 1) == l1 ^ lookup_sum(s, 2));
    assert(lookup_sum(s, 0) == l0 ^ lookup_sum(s, 1));
    assert(y[0] == s[0] ^ reg_byte(c, 0));
    assert(y[1] == s[1] ^ reg_byte(c, 1));
    assert(y[2] == s[2] ^ reg_byte(c, 2));
    assert(y[3] == s[3] ^ reg_byte(c, 3));
    assert(lookup_sum(y, 3) == (l3 ^ k3) ^ rest);
    assert(lookup_sum(y, 2) == (l2 ^ k2) ^ lookup_sum(y, 3));
    assert(lookup_sum(y, 1) == (l1 ^ k1) ^ lookup_sum(y, 2));
    assert(lookup_sum(y, 0) == (l0 ^ k0) ^ lookup_sum(y, 1));
    assert(lookup_sum(y, 0) == (l0 ^ k0) ^ ((l1 ^ k1) ^ ((l2 ^ k2) ^ ((l3 ^ k3) ^ rest))));
    let ls = lookup_sum(s, 0);
    let ly = lookup_sum(y, 0);
    let kc = byte_steps(c, m);
    assert(ls ^ kc == ly) by (bit_vector)
        requires
            ls == l0 ^ (l1 ^ (l2 ^ (l3 ^ rest))),
            ly == (l0 ^ k0) ^ ((l1 ^ k1) ^ ((l2 ^ k2) ^ ((l3 ^ k3) ^ rest))),
            kc == k0 ^ k1 ^ k2 ^ k3,
    ;
}

/// Resuming a checksum: the CRC-32 of `a + b` is the CRC-32 of `a`, turned
/// back into a register by inverting it, fed `b`, and inverted again. This is
/// what lets a file be checksummed one chunk at a time.
pub proof fn lemma_crc32_resume(a: Seq<u8>, b: Seq<u8>)
    ensures
        crc32_ieee(a + b) == !crc_register(!crc32_ieee(a), b),
{
    lemma_register_concat(0xFFFF_FFFFu32, a, b);
    let r = crc_register(0xFFFF_FFFFu32, a);
    assert(!!r == r) by (bit_vector);
}

} // verus!
