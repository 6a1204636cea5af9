//! Cutting a byte string into 128-bit blocks.
//!
//! The last block of a string whose length is no multiple of 16 is filled up
//! with zero bytes on the right. A string whose length is a multiple of 16,
//! the empty string among them, gets no padding and no extra block.

use crate::bytes::{be_u128, u128_from_be_bytes};
use vstd::prelude::*;

verus! {

/// How many zero bytes bring a string of `n` bytes to a multiple of 16.
pub open spec fn pad_len(n: nat) -> nat {
    ((16 - n % 16) % 16) as nat
}

/// `s`, filled up with zero bytes to a multiple of 16.
pub open spec fn zero_pad(s: Seq<u8>) -> Seq<u8> {
    s + Seq::new(pad_len(s.len()), |i: int| 0u8)
}

/// Block `i` of a string: its bytes `16 * i` to `16 * i + 15`, big-endian.
pub open spec fn block_at(s: Seq<u8>, i: int) -> u128 {
    be_u128(s.subrange(16 * i, 16 * i + 16))
}

/// The blocks of `s` after padding.
pub open spec fn blocks_of(s: Seq<u8>) -> Seq<u128> {
    Seq::new(zero_pad(s).len() / 16, |i: int| block_at(zero_pad(s), i))
}

/// The shape of padding: the padded string starts with the string itself,
/// ends at the next multiple of 16, and is the string itself where its length
/// is such a multiple already. So a string of `n` bytes has `n / 16` blocks,
/// rounded up; the empty string has none.
pub proof fn lemma_padding_shape(s: Seq<u8>)
    ensures
        zero_pad(s).len() % 16 == 0,
        s.len() <= zero_pad(s).len() < s.len() + 16,
        zero_pad(s).subrange(0, s.len() as int) == s,
        s.len() % 16 == 0 ==> zero_pad(s) == s,
        blocks_of(s).len() == (s.len() + 15) / 16,
        s.len() == 0 ==> blocks_of(s) == Seq::<u128>::empty(),
{
    assert(zero_pad(s).subrange(0, s.len() as int) =~= s);
    if s.len() % 16 == 0 {
        assert(zero_pad(s) =~= s);
    }
    if s.len() == 0 {
        assert(blocks_of(s) =~= Seq::<u128>::empty());
    }
}

/// Copies the 16 bytes of block `i` out of `bytes`.
fn copy_block(bytes: &[u8], i: usize) -> (b: [u8; 16])
    requires
        16 * i + 16 <= bytes.len(),
    ensures
        b@ == bytes@.subrange(16 * i, 16 * i + 16),
{
    let mut b = [0u8; 16];
    let mut k: usize = 0;
    while k < 16
        invariant
            k <= 16,
            16 * i + 16 <= bytes.len(),
            forall|j: int| 0 <= j < k ==> b@[j] == bytes@[16 * i + j],
        decreases 16 - k,
    {
        b[k] = bytes[16 * i + k];
        k = k + 1;
    }
    b
}

/// Pads `bytes` in place with zero bytes to a multiple of 16 and returns its
/// blocks. The caller keeps the length that `bytes` had before the call: it
/// is the only record of how much of the last block is padding.
pub fn padding_slice(bytes: &mut Vec<u8>) -> (res: Vec<u128>)
    ensures
        final(bytes)@ == zero_pad(old(bytes)@),
        res@ == blocks_of(old(bytes)@),
        res@.len() == (old(bytes)@.len() + 15) / 16,
{
    let cnt = 16 - (bytes.len() % 16);
    if cnt != 16 {
        let mut added: usize = 0;
        while added < cnt
            invariant
                added <= cnt,
                cnt == pad_len(old(bytes)@.len()),
                bytes@ == old(bytes)@ + Seq::new(added as nat, |i: int| 0u8),
            decreases cnt - added,
        {
            bytes.push(0);
            added = added + 1;
        }
    } else {
        assert(bytes@ == zero_pad(old(bytes)@));
    }
    let n = bytes.len() / 16;
    let mut res: Vec<u128> = Vec::new();
    let mut i: usize = 0;
    while i < n
        invariant
            i <= n,
            n == bytes@.len() / 16,
            bytes@ == zero_pad(old(bytes)@),
            res@.len() == i,
            forall|j: int| 0 <= j < i ==> res@[j] == block_at(bytes@, j),
        decreases n - i,
    {
        let chunk = copy_block(bytes.as_slice(), i);
        res.push(u128_from_be_bytes(&chunk));
        i = i + 1;
    }
    proof {
        lemma_padding_shape(old(bytes)@);
    }
    res
}

} // verus!
