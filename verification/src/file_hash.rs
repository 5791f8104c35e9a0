//! Checksums of a file's contents as they arrive chunk by chunk: CRC-32 for
//! "sfv" (through `crc32fast`) or the first four bytes of SHA-256 for
//! "sha256" (through `sha2`).

use vstd::prelude::*;
use vstd::string::StringSliceAdditionalSpecFns;
use vstd::endian::{endianness, Endian};
use crate::model::crc32_ieee;

verus! {

/// The size of the chunks in which a file is read: one mebibyte. A shorter
/// chunk ends the reading.
pub const CHUNK_SIZE: usize = 1048576;

#[verifier::external_type_specification]
#[verifier::external_body]
pub struct ExCrcHasher(crc32fast::Hasher);

/// The bytes that a `crc32fast::Hasher` has taken in so far.
pub uninterp spec fn crc32_hasher_input(h: crc32fast::Hasher) -> Seq<u8>;

/// `crc32fast::Hasher::new`: a hasher that has taken in nothing.
#[verifier::external_body]
fn crc32_hasher_new() -> (h: crc32fast::Hasher)
    ensures
        crc32_hasher_input(h) == Seq::<u8>::empty(),
{
    crc32fast::Hasher::new()
}

/// `crc32fast::Hasher::update`: appends `buf` to what the hasher has taken
/// in. The hasher counts those bytes in a `u64`, which must not overflow.
#[verifier::external_body]
fn crc32_hasher_update(h: &mut crc32fast::Hasher, buf: &[u8])
    requires
        crc32_hasher_input(*old(h)).len() + buf@.len() <= u64::MAX,
    ensures
        crc32_hasher_input(*final(h)) == crc32_hasher_input(*old(h)) + buf@,
{
    h.update(buf)
}

/// `crc32fast::Hasher::finalize`: the CRC-32 (IEEE) checksum of all the bytes
/// the hasher has taken in, the checksum the crate is documented to compute.
#[verifier::external_body]
fn crc32_hasher_finalize(h: crc32fast::Hasher) -> (checksum: u32)
    ensures
        checksum == crc32_ieee(crc32_hasher_input(h)),
{
    h.finalize()
}

/// A SHA-256 computation in progress (`sha2::Sha256`). Verus cannot take the
/// declaration of that type (a chain of generic wrappers over `typenum`
/// constants), so it is held here, opaque.
#[verifier::external_body]
pub struct Sha256State {
    inner: sha2::Sha256,
}

/// The bytes that a SHA-256 computation has taken in so far.
pub uninterp spec fn sha256_input(h: Sha256State) -> Seq<u8>;

/// The SHA-256 digest of `data`.
pub uninterp spec fn sha256_digest(data: Seq<u8>) -> Seq<u8>;

/// The most bytes that SHA-256 can take in: its bit length must fit a `u64`.
pub open spec fn sha256_max_input() -> nat {
    0x1FFF_FFFF_FFFF_FFFF
}

/// `<sha2::Sha256 as Digest>::new`: a computation that has taken in nothing.
#[verifier::external_body]
fn sha256_new() -> (h: Sha256State)
    ensures
        sha256_input(h) == Seq::<u8>::empty(),
{
    Sha256State { inner: <sha2::Sha256 as sha2::Digest>::new() }
}

/// `<sha2::Sha256 as Digest>::update`: appends `data` to what the
/// computation has taken in.
#[verifier::external_body]
fn sha256_update(h: &mut Sha256State, data: &[u8])
    requires
        sha256_input(*old(h)).len() + data@.len() <= sha256_max_input(),
    ensures
        sha256_input(*final(h)) == sha256_input(*old(h)) + data@,
{
    sha2::Digest::update(&mut h.inner, data)
}

/// `<sha2::Sha256 as Digest>::finalize`: the 32-byte digest of everything
/// the computation has taken in (the bit length it appends must fit a `u64`).
#[verifier::external_body]
fn sha256_finalize(h: Sha256State) -> (digest: [u8; 32])
    requires
        sha256_input(h).len() <= sha256_max_input(),
    ensures
        digest@ == sha256_digest(sha256_input(h)),
{
    sha2::Digest::finalize(h.inner).into()
}

/// The `u32` whose little-endian bytes are `b[0..4]`.
pub open spec fn u32_from_le(b: Seq<u8>) -> u32 {
    (b[0] as u32) | ((b[1] as u32) << 8) | ((b[2] as u32) << 16) | ((b[3] as u32) << 24)
}

/// The `u32` whose big-endian bytes are `b[0..4]`.
pub open spec fn u32_from_be(b: Seq<u8>) -> u32 {
    (b[3] as u32) | ((b[2] as u32) << 8) | ((b[1] as u32) << 16) | ((b[0] as u32) << 24)
}

/// The `u32` whose bytes are `b[0..4]` in the byte order of the machine
/// (`vstd::endian::endianness()`): one fixed order for every input, though
/// which of the two it is, is not known here.
pub open spec fn u32_from_native(b: Seq<u8>) -> u32 {
    match endianness() {
        Endian::Little => u32_from_le(b),
        Endian::Big => u32_from_be(b),
    }
}

/// `u32::from_ne_bytes`: the bytes read in the machine's own byte order, the
/// same order on every call.
#[verifier::external_body]
fn u32_from_native_bytes(b: [u8; 4]) -> (v: u32)
    ensures
        v == u32_from_native(b@),
        v == u32_from_le(b@) || v == u32_from_be(b@),
{
    u32::from_ne_bytes(b)
}

/// The first four bytes of a digest as a `u32`, in the machine's byte order.
pub fn digest_prefix_u32(digest: &[u8; 32]) -> (v: u32)
    ensures
        v == u32_from_native(digest@),
        v == u32_from_le(digest@) || v == u32_from_be(digest@),
{
    let int_bytes: [u8; 4] = [digest[0], digest[1], digest[2], digest[3]];
    u32_from_native_bytes(int_bytes)
}

/// The machine reads every byte sequence in one byte order: either every
/// value is the little-endian reading of its first four bytes, or every value
/// is the big-endian reading; never a choice that depends on the bytes.
pub proof fn lemma_native_order_is_fixed()
    ensures
        (forall|b: Seq<u8>| #[trigger] u32_from_native(b) == u32_from_le(b)) || (forall|b: Seq<u8>|
            #[trigger] u32_from_native(b) == u32_from_be(b)),
{
}

/// Two readings in the machine's order agree exactly when the two
/// little-endian readings agree: the value depends on the first four bytes
/// alone, and distinct four-byte prefixes give distinct values.
pub proof fn lemma_native_reading_injective(a: Seq<u8>, b: Seq<u8>)
    requires
        a.len() >= 4,
        b.len() >= 4,
    ensures
        (u32_from_native(a) == u32_from_native(b)) <==> (a[0] == b[0] && a[1] == b[1] && a[2] == b[2]
            && a[3] == b[3]),
{
    let (a0, a1, a2, a3) = (a[0], a[1], a[2], a[3]);
    let (b0, b1, b2, b3) = (b[0], b[1], b[2], b[3]);
    let la = u32_from_le(a);
    let lb = u32_from_le(b);
    let ga = u32_from_be(a);
    let gb = u32_from_be(b);
    assert((la == lb) <==> (a0 == b0 && a1 == b1 && a2 == b2 && a3 == b3)) by (bit_vector)
        requires
            la == (a0 as u32) | ((a1 as u32) << 8) | ((a2 as u32) << 16) | ((a3 as u32) << 24),
            lb == (b0 as u32) | ((b1 as u32) << 8) | ((b2 as u32) << 16) | ((b3 as u32) << 24),
    ;
    assert((ga == gb) <==> (a0 == b0 && a1 == b1 && a2 == b2 && a3 == b3)) by (bit_vector)
        requires
            ga == (a3 as u32) | ((a2 as u32) << 8) | ((a1 as u32) << 16) | ((a0 as u32) << 24),
            gb == (b3 as u32) | ((b2 as u32) << 8) | ((b1 as u32) << 16) | ((b0 as u32) << 24),
    ;
}

/// Any two "sha256" checksums, of any two inputs, read their digests in the
/// same byte order: both little-endian or both big-endian.
pub proof fn lemma_sha256_checksums_share_order(
    h1: FileHasher,
    h2: FileHasher,
    in1: Seq<u8>,
    in2: Seq<u8>,
    c1: u32,
    c2: u32,
)
    requires
        h1 is Sha256,
        h2 is Sha256,
        h1.is_checksum_of(in1, c1),
        h2.is_checksum_of(in2, c2),
    ensures
        (c1 == u32_from_le(sha256_digest(in1)) && c2 == u32_from_le(sha256_digest(in2))) || (c1
            == u32_from_be(sha256_digest(in1)) && c2 == u32_from_be(sha256_digest(in2))),
{
}

/// `s` and `t` hold the same characters.
pub fn str_equal(s: &str, t: &str) -> (same: bool)
    ensures
        same == (s@ == t@),
{
    let a: &[u8] = s.as_bytes();
    let b: &[u8] = t.as_bytes();
    proof {
        vstd::utf8::encode_utf8_decode_utf8(s@);
        vstd::utf8::encode_utf8_decode_utf8(t@);
    }
    if a.len() != b.len() {
        return false;
    }
    let mut i: usize = 0;
    while i < a.len()
        invariant
            a@ == s.spec_bytes(),
            b@ == t.spec_bytes(),
            a.len() == b.len(),
            i <= a.len(),
            forall|j: int| 0 <= j < i ==> a@[j] == b@[j],
        decreases a.len() - i,
    {
        if a[i] != b[i] {
            return false;
        }
        i += 1;
    }
    proof {
        assert(a@ =~= b@);
    }
    true
}

/// A checksum of a file in progress, chosen by the name of the hash.
pub enum FileHasher {
    /// "sfv": CRC-32 (IEEE).
    Crc32(crc32fast::Hasher),
    /// "sha256": the first four bytes of the SHA-256 digest, read in the
    /// machine's byte order.
    Sha256(Sha256State),
    /// Any other name: the file is not read and the checksum is 0.
    Unsupported,
}

impl FileHasher {
    /// The bytes taken in so far.
    pub open spec fn input(&self) -> Seq<u8> {
        match self {
            FileHasher::Crc32(h) => crc32_hasher_input(*h),
            FileHasher::Sha256(h) => sha256_input(*h),
            FileHasher::Unsupported => Seq::empty(),
        }
    }

    /// How many bytes in all the hash can take in.
    pub open spec fn capacity(&self) -> nat {
        match self {
            FileHasher::Crc32(_) => u64::MAX as nat,
            FileHasher::Sha256(_) => sha256_max_input(),
            FileHasher::Unsupported => u64::MAX as nat,
        }
    }

    /// The checksum of `input` by the hash of this kind, for the hashes whose
    /// result does not depend on the machine.
    pub open spec fn is_checksum_of(&self, input: Seq<u8>, checksum: u32) -> bool {
        match self {
            FileHasher::Crc32(_) => checksum == crc32_ieee(input),
            FileHasher::Sha256(_) => {
                let digest = sha256_digest(input);
                checksum == u32_from_native(digest) && (checksum == u32_from_le(digest)
                    || checksum == u32_from_be(digest))
            },
            FileHasher::Unsupported => checksum == 0,
        }
    }

    /// Picks the hash by its name: "sfv" or "sha256"; any other name is
    /// unsupported.
    pub fn new(hasher: &str) -> (h: Self)
        ensures
            hasher@ == "sfv"@ ==> h is Crc32,
            hasher@ != "sfv"@ && hasher@ == "sha256"@ ==> h is Sha256,
            hasher@ != "sfv"@ && hasher@ != "sha256"@ ==> h is Unsupported,
            h.input() == Seq::<u8>::empty(),
    {
        if str_equal(hasher, "sfv") {
            FileHasher::Crc32(crc32_hasher_new())
        } else if str_equal(hasher, "sha256") {
            FileHasher::Sha256(sha256_new())
        } else {
            FileHasher::Unsupported
        }
    }

    /// Whether the file is to be read at all.
    pub fn reads_input(&self) -> (reads: bool)
        ensures
            reads == !(self is Unsupported),
    {
        match self {
            FileHasher::Unsupported => false,
            _ => true,
        }
    }

    /// Takes in the chunk just read, and says whether to read another: only
    /// after a full chunk.
    pub fn update(&mut self, chunk: &[u8]) -> (more: bool)
        requires
            old(self).input().len() + chunk@.len() <= old(self).capacity(),
        ensures
            more == (chunk@.len() == CHUNK_SIZE),
            *old(self) is Crc32 <==> *final(self) is Crc32,
            *old(self) is Sha256 <==> *final(self) is Sha256,
            *old(self) is Unsupported <==> *final(self) is Unsupported,
            !(*old(self) is Unsupported) ==> final(self).input() == old(self).input() + chunk@,
            *old(self) is Unsupported ==> final(self).input() == old(self).input(),
    {
        match self {
            FileHasher::Crc32(h) => crc32_hasher_update(h, chunk),
            FileHasher::Sha256(h) => sha256_update(h, chunk),
            FileHasher::Unsupported => {},
        }
        chunk.len() == CHUNK_SIZE
    }

    /// The checksum of everything taken in.
    pub fn finalize(self) -> (checksum: u32)
        requires
            self.input().len() <= self.capacity(),
        ensures
            self.is_checksum_of(self.input(), checksum),
    {
        match self {
            FileHasher::Crc32(h) => crc32_hasher_finalize(h),
            FileHasher::Sha256(h) => {
                let digest: [u8; 32] = sha256_finalize(h);
                digest_prefix_u32(&digest)
            },
            FileHasher::Unsupported => 0,
        }
    }
}

} // verus!
