//! GHASH: the keyed hash of GCM, a chain of multiplications in GF(2^128).

use crate::blocks::{blocks_of, padding_slice};
use crate::gfpoly::{gf_mul, GFPoly};
use vstd::prelude::*;
use vstd::slice::slice_to_vec;

verus! {

/// The largest number of bytes whose count of bits still fits in 64 bits.
pub const MAX_HASHED_BYTES: u64 = 0x1fff_ffff_ffff_ffff;

/// The accumulator after `blocks` have been taken in, one by one: each block
/// is added to the accumulator and the sum is multiplied by `h`.
pub open spec fn ghash_fold(h: u128, x: u128, blocks: Seq<u128>) -> u128
    decreases blocks.len(),
{
    if blocks.len() == 0 {
        x
    } else {
        gf_mul(ghash_fold(h, x, blocks.drop_last()) ^ blocks.last(), h)
    }
}

/// The block that closes the chain: the two lengths in bits, each as a
/// 64-bit big-endian number, that of the associated data first.
pub open spec fn length_block(a_len: nat, c_len: nat) -> u128 {
    ((a_len * 8) * 0x1_0000_0000_0000_0000 + c_len * 8) as u128
}

/// The GHASH of associated data `a` and ciphertext `c` under the subkey `h`:
/// the blocks of `a`, then those of `c`, then the length block.
pub open spec fn ghash_spec(h: u128, a: Seq<u8>, c: Seq<u8>) -> u128 {
    let after_a = ghash_fold(h, 0, blocks_of(a));
    let after_c = ghash_fold(h, after_a, blocks_of(c));
    gf_mul(after_c ^ length_block(a.len(), c.len()), h)
}

/// Takes `blocks` into the accumulator `x`.
fn absorb(h: GFPoly, x: GFPoly, blocks: &Vec<u128>) -> (r: GFPoly)
    ensures
        r@ == ghash_fold(h@, x@, blocks@),
{
    let mut acc = x;
    let mut i: usize = 0;
    while i < blocks.len()
        invariant
            i <= blocks.len(),
            acc@ == ghash_fold(h@, x@, blocks@.subrange(0, i as int)),
        decreases blocks.len() - i,
    {
        proof {
            let next = blocks@.subrange(0, i + 1);
            assert(next.drop_last() == blocks@.subrange(0, i as int));
        }
        acc = (acc + GFPoly::from(blocks[i])) * h;
        i = i + 1;
    }
    proof {
        assert(blocks@.subrange(0, i as int) == blocks@);
    }
    acc
}

proof fn lemma_length_block(len_a: u128, len_c: u128)
    by (bit_vector)
    requires
        len_a < 0x1_0000_0000_0000_0000,
        len_c < 0x1_0000_0000_0000_0000,
    ensures
        (len_a << 64) == len_a * 0x1_0000_0000_0000_0000,
        (len_a << 64) + len_c <= u128::MAX,
{
}

/// Hashes associated data `a` and ciphertext `c` under the subkey `h`.
///
/// Either input may be empty: it then adds no block, and its length of zero
/// still stands in the length block.
pub fn ghash(h: u128, a: &[u8], c: &[u8]) -> (r: u128)
    requires
        a@.len() <= MAX_HASHED_BYTES,
        c@.len() <= MAX_HASHED_BYTES,
    ensures
        r == ghash_spec(h, a@, c@),
{
    let len_a: u128 = (a.len() as u128) * 8;
    let len_c: u128 = (c.len() as u128) * 8;

    let mut a_padded = slice_to_vec(a);
    let a_blocks = padding_slice(&mut a_padded);

    let h = GFPoly::from(h);

    let mut c_padded = slice_to_vec(c);
    let c_blocks = padding_slice(&mut c_padded);

    let x = absorb(h, GFPoly::from(0u128), &a_blocks);
    let x = absorb(h, x, &c_blocks);

    proof {
        lemma_length_block(len_a, len_c);
    }
    let poly: u128 = (len_a << 64) + len_c;
    ((x + GFPoly::from(poly)) * h).into()
}

} // verus!
