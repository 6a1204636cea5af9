//! The block cipher under the mode: AES-256, one block at a time.

use crate::bytes::{be_bytes, be_u128, u128_from_be_bytes, u128_to_be_bytes};
use aes::cipher::{BlockEncrypt, NewBlockCipher};
use aes::{Aes256, Block};
use vstd::prelude::*;

verus! {

/// The AES-256 encryption of the 16-byte block `block` under the 32-byte key
/// `key`, as 16 bytes. AES is not written out here: this stands for what the
/// `aes` crate computes, which depends on the key and the block alone.
pub uninterp spec fn aes256_block(key: Seq<u8>, block: Seq<u8>) -> Seq<u8>;

/// Encrypts one block with `aes::Aes256`: `NewBlockCipher::new` sets the
/// cipher up from the key and `BlockEncrypt::encrypt_block` encrypts the block
/// in place. The contract only gives the result its name; nothing about AES
/// is proved. Both lengths are fixed by the types, so neither call can fail.
#[verifier::external_body]
fn aes256_encrypt_block(key: &[u8; 32], block: &[u8; 16]) -> (out: [u8; 16])
    ensures
        out@ == aes256_block(key@, block@),
{
    let cipher = Aes256::new(key.into());
    let mut buf: Block = (*block).into();
    cipher.encrypt_block(&mut buf);
    buf.into()
}

/// The block cipher on 128-bit values: a value stands for its 16 big-endian
/// bytes, on the way in and on the way out.
pub open spec fn block_encrypt_spec(key: Seq<u8>, msg: u128) -> u128 {
    be_u128(aes256_block(key, be_bytes(msg)))
}

/// Encrypts the 128-bit block `msg` under the key `k`.
pub fn block_encrypt(k: &[u8; 32], msg: &u128) -> (r: u128)
    ensures
        r == block_encrypt_spec(k@, *msg),
{
    let block = u128_to_be_bytes(*msg);
    let out = aes256_encrypt_block(k, &block);
    u128_from_be_bytes(&out)
}

} // verus!
