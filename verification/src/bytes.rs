//! Shared byte-level helpers: big-endian integer values and range copies.

use vstd::arithmetic::power2::lemma2_to64;
use vstd::arithmetic::power2::lemma2_to64_rest;
use vstd::arithmetic::power2::lemma_pow2_adds;
use vstd::arithmetic::power2::lemma_pow2_strictly_increases;
use vstd::arithmetic::power2::pow2;
use vstd::prelude::*;

verus! {

/// Big-endian value of a byte sequence: the first byte is the most
/// significant.
pub open spec fn be_bytes_val(s: Seq<u8>) -> int
    decreases s.len(),
{
    if s.len() == 0 {
        0
    } else {
        be_bytes_val(s.drop_last()) * 256 + s.last()
    }
}

/// The big-endian value of `n` bytes is below `256^n` (stated for the widths
/// the protocol uses, which keeps the arithmetic linear).
pub proof fn lemma_be_bytes_val_bound(s: Seq<u8>)
    requires
        s.len() <= 4,
    ensures
        0 <= be_bytes_val(s) < 0x1_0000_0000,
        s.len() <= 3 ==> be_bytes_val(s) < 0x100_0000,
        s.len() <= 2 ==> be_bytes_val(s) < 0x1_0000,
        s.len() <= 1 ==> be_bytes_val(s) < 0x100,
    decreases s.len(),
{
    if s.len() > 0 {
        lemma_be_bytes_val_bound(s.drop_last());
    }
}

/// Big-endian value of the bytes `src[start .. start + n]`, computed
/// without overflow for widths up to four bytes.
pub fn be_value_at(src: &Vec<u8>, start: usize, n: usize) -> (r: u32)
    requires
        start + n <= src@.len(),
        n <= 4,
    ensures
        r == be_bytes_val(src@.subrange(start as int, start as int + n as int)),
{
    let src_len = src.len();
    let mut acc: u32 = 0;
    let mut i: usize = 0;
    proof {
        assert(src@.subrange(start as int, start as int) =~= Seq::<u8>::empty());
    }
    while i < n
        invariant
            src_len == src@.len(),
            start + n <= src_len,
            n <= 4,
            0 <= i <= n,
            acc == be_bytes_val(src@.subrange(start as int, start as int + i as int)),
        decreases n - i,
    {
        proof {
            lemma_be_bytes_val_bound(src@.subrange(start as int, start as int + i as int));
            assert(src@.subrange(start as int, start as int + i as int + 1).drop_last() =~= src@
                .subrange(start as int, start as int + i as int));
        }
        acc = acc * 256 + (src[start + i] as u32);
        i = i + 1;
    }
    acc
}

/// The big-endian value of a byte sequence is below `2^(8 n)`.
pub proof fn lemma_be_bytes_val_pow2_bound(s: Seq<u8>)
    ensures
        0 <= be_bytes_val(s) < pow2((8 * s.len()) as nat),
    decreases s.len(),
{
    if s.len() == 0 {
        lemma2_to64();
    } else {
        lemma_be_bytes_val_pow2_bound(s.drop_last());
        lemma_pow2_adds((8 * (s.len() - 1)) as nat, 8);
        lemma2_to64();
        assert(be_bytes_val(s.drop_last()) * 256 + s.last() < pow2((8 * s.len()) as nat)) by (
        nonlinear_arith)
            requires
                0 <= be_bytes_val(s.drop_last()) < pow2((8 * (s.len() - 1)) as nat),
                s.last() < 256,
                pow2((8 * s.len()) as nat) == pow2((8 * (s.len() - 1)) as nat) * 256,
        ;
    }
}

/// Big-endian value of the bytes `src[start .. start + n]`, for widths up
/// to eight bytes.
pub fn be_value_u64_at(src: &Vec<u8>, start: usize, n: usize) -> (r: u64)
    requires
        start + n <= src@.len(),
        n <= 8,
    ensures
        r == be_bytes_val(src@.subrange(start as int, start as int + n as int)),
{
    let src_len = src.len();
    let mut acc: u64 = 0;
    let mut i: usize = 0;
    proof {
        assert(src@.subrange(start as int, start as int) =~= Seq::<u8>::empty());
    }
    while i < n
        invariant
            src_len == src@.len(),
            start + n <= src_len,
            n <= 8,
            0 <= i <= n,
            acc == be_bytes_val(src@.subrange(start as int, start as int + i as int)),
        decreases n - i,
    {
        proof {
            lemma_be_bytes_val_pow2_bound(src@.subrange(start as int, start as int + i as int));
            lemma2_to64();
            lemma2_to64_rest();
            if 8 * i < 56 {
                lemma_pow2_strictly_increases((8 * i) as nat, 56);
            }
            assert(src@.subrange(start as int, start as int + i as int + 1).drop_last() =~= src@
                .subrange(start as int, start as int + i as int));
        }
        acc = acc * 256 + (src[start + i] as u64);
        i = i + 1;
    }
    acc
}

/// A fresh copy of the bytes `src[start .. start + n]`.
pub fn copy_range(src: &Vec<u8>, start: usize, n: usize) -> (r: Vec<u8>)
    requires
        start + n <= src@.len(),
    ensures
        r@ == src@.subrange(start as int, start as int + n as int),
{
    let src_len = src.len();
    let mut out: Vec<u8> = Vec::new();
    let mut i: usize = 0;
    while i < n
        invariant
            src_len == src@.len(),
            start + n <= src_len,
            0 <= i <= n,
            out@ == src@.subrange(start as int, start as int + i as int),
        decreases n - i,
    {
        out.push(src[start + i]);
        i = i + 1;
        proof {
            assert(out@ =~= src@.subrange(start as int, start as int + i as int));
        }
    }
    out
}

} // verus!
