//! Position hashing.
//!
//! A node's or key's position on the ring is the MD5 digest of its
//! textual name, read as a big-endian integer and reduced modulo
//! `2^m`, where `m` is the configured ring exponent.

use vstd::prelude::*;
use vstd::arithmetic::power2::{
    pow2, lemma2_to64, lemma2_to64_rest, lemma_pow2_adds, lemma_pow2_pos,
    lemma_pow2_strictly_increases,
};

use md5::Digest;

verus! {

/// The value of a byte string read as a big-endian integer.
pub open spec fn be_value(s: Seq<u8>) -> nat
    decreases s.len(),
{
    if s.len() == 0 {
        0
    } else {
        be_value(s.drop_last()) * 256 + s.last() as nat
    }
}

/// The 16-byte MD5 digest of a byte string.
pub uninterp spec fn md5_of(data: Seq<u8>) -> Seq<u8>;

/// The position of a name on a ring of size `2^m`.
pub open spec fn spec_position(data: Seq<u8>, m: nat) -> nat {
    (be_value(md5_of(data)) as int % pow2(m) as int) as nat
}

/// A power of two with a larger exponent is at least as large.
pub proof fn lemma_pow2_le(a: nat, b: nat)
    requires
        a <= b,
    ensures
        pow2(a) <= pow2(b),
{
    if a < b {
        lemma_pow2_strictly_increases(a, b);
    }
}

/// A byte string of length `n` denotes a value below `2^(8n)`.
pub proof fn lemma_be_value_bound(s: Seq<u8>)
    ensures
        be_value(s) < pow2(8 * s.len()),
    decreases s.len(),
{
    if s.len() == 0 {
        lemma_pow2_pos(0);
    } else {
        let front = s.drop_last();
        lemma_be_value_bound(front);
        lemma_pow2_adds(8 * front.len(), 8);
        lemma2_to64();
        assert(be_value(front) * 256 + 256 <= pow2(8 * front.len()) * 256) by (nonlinear_arith)
            requires
                be_value(front) + 1 <= pow2(8 * front.len()),
        ;
    }
}

/// Computes `2^m` for a ring exponent of at most 32.
pub fn pow2_u64(m: u32) -> (r: u64)
    requires
        m <= 32,
    ensures
        r == pow2(m as nat),
        r >= 1,
{
    let mut acc: u64 = 1;
    let mut i: u32 = 0;
    proof {
        lemma2_to64();
    }
    while i < m
        invariant
            i <= m,
            m <= 32,
            acc == pow2(i as nat),
        decreases m - i,
    {
        proof {
            lemma_pow2_le((i + 1) as nat, 32);
            lemma_pow2_adds(i as nat, 1);
            lemma2_to64();
        }
        acc = acc * 2;
        i = i + 1;
    }
    acc
}

/// Relies on the `md-5` crate's `Md5` hasher: the digest is a function
/// of the input bytes alone and is always 16 bytes long.
#[verifier::external_body]
fn md5_digest(data: &Vec<u8>) -> (r: Vec<u8>)
    ensures
        r@ == md5_of(data@),
        r@.len() == 16,
{
    let digest = md5::Md5::digest(data.as_slice());
    digest.as_slice().to_vec()
}

/// The 16-byte MD5 digest of `data`.
pub fn hash_md5(data: &Vec<u8>) -> (r: Vec<u8>)
    ensures
        r@ == md5_of(data@),
        r@.len() == 16,
{
    md5_digest(data)
}

/// Reads a 16-byte string as a big-endian unsigned integer.
pub fn u128_from_be_bytes(bytes: &Vec<u8>) -> (r: u128)
    requires
        bytes@.len() == 16,
    ensures
        r == be_value(bytes@),
{
    let mut acc: u128 = 0;
    let mut i: usize = 0;
    proof {
        lemma_pow2_pos(0);
        assert(bytes@.subrange(0, 0) =~= Seq::<u8>::empty());
    }
    while i < 16
        invariant
            i <= 16,
            bytes@.len() == 16,
            acc == be_value(bytes@.subrange(0, i as int)),
            acc < pow2(8 * i as nat),
        decreases 16 - i,
    {
        let b = bytes[i];
        proof {
            let prefix = bytes@.subrange(0, i as int);
            let next = bytes@.subrange(0, i + 1);
            assert(next.drop_last() =~= prefix);
            lemma_pow2_adds(8 * i as nat, 8);
            lemma_pow2_le(8 * i as nat, 120);
            lemma_pow2_adds(64, 56);
            lemma2_to64();
            lemma2_to64_rest();
            assert(acc * 256 + 256 <= pow2(8 * i as nat) * 256) by (nonlinear_arith)
                requires
                    acc + 1 <= pow2(8 * i as nat),
            ;
            assert(pow2(120) * 256 == pow2(64) * pow2(56) * 256);
        }
        acc = acc * 256 + (b as u128);
        i = i + 1;
    }
    proof {
        assert(bytes@.subrange(0, 16) =~= bytes@);
    }
    acc
}

/// The position of `data` on a ring of size `2^m`: its MD5 digest read
/// big-endian, reduced modulo the ring size. The result is always
/// below `2^m`.
pub fn position_of(data: &Vec<u8>, m: u32) -> (r: u32)
    requires
        1 <= m <= 32,
    ensures
        r == spec_position(data@, m as nat),
        r < pow2(m as nat),
{
    let digest = md5_digest(data);
    let value = u128_from_be_bytes(&digest);
    let ring_size = pow2_u64(m) as u128;
    proof {
        lemma_pow2_le(m as nat, 32);
        lemma2_to64();
    }
    (value % ring_size) as u32
}

} // verus!
