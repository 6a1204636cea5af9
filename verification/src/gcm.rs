//! The GCM driver: hash subkey, counter blocks, keystream and tag.

use crate::bytes::{be_byte, be_bytes, be_u128, u128_from_be_bytes, u128_to_be_bytes};
use crate::cipher::{block_encrypt, block_encrypt_spec};
use crate::gcm_laws::lemma_incr_halves;
use crate::ghash::{ghash, ghash_spec, MAX_HASHED_BYTES};
use vstd::prelude::*;

verus! {

/// The most plaintext that one nonce may cover: `2^32 - 2` blocks.
pub const MAX_TEXT_BYTES: u64 = 0xf_ffff_ffe0;

/// The length of an AES-256 key in bytes.
pub const KEY_BYTES: usize = 32;

/// Why an operation of the mode did not give a result.
#[derive(Copy, Clone, Debug, PartialEq, Eq, Structural)]
pub enum GcmError {
    /// The key has the wrong length, or the nonce is empty.
    ConfigurationError,
    /// An input is too long for the mode's length fields or its counter.
    OverflowError,
    /// The tag does not belong to the ciphertext, associated data and nonce.
    AuthenticationFailure,
}

/// Whether inputs of these lengths in bytes fit the mode: the bit counts of
/// nonce and associated data fit in 64 bits, and the text has at most
/// `2^32 - 2` blocks.
pub open spec fn lengths_fit(nonce_len: nat, ad_len: nat, text_len: nat) -> bool {
    &&& nonce_len <= MAX_HASHED_BYTES
    &&& ad_len <= MAX_HASHED_BYTES
    &&& text_len <= MAX_TEXT_BYTES
}

/// What `check_inputs` returns for inputs of the given lengths: the
/// configuration is judged first, the lengths after it.
pub open spec fn check_inputs_spec(key_len: nat, nonce_len: nat, ad_len: nat, text_len: nat) -> Result<
    (),
    GcmError,
> {
    if key_len != KEY_BYTES || nonce_len == 0 {
        Err(GcmError::ConfigurationError)
    } else if !lengths_fit(nonce_len, ad_len, text_len) {
        Err(GcmError::OverflowError)
    } else {
        Ok(())
    }
}

/// The counter block after `y`: the low 32 bits go up by one and wrap at
/// `2^32`; the high 96 bits stay.
pub open spec fn incr_spec(y: u128) -> u128 {
    ((y / 0x1_0000_0000) * 0x1_0000_0000 + (y % 0x1_0000_0000 + 1) % 0x1_0000_0000) as u128
}

/// Counter block `i` of the sequence that starts at `y0`.
pub open spec fn counter_block(y0: u128, i: nat) -> u128
    decreases i,
{
    if i == 0 {
        y0
    } else {
        incr_spec(counter_block(y0, (i - 1) as nat))
    }
}

/// The first counter block. A nonce of 12 bytes is followed by the 32-bit
/// counter value 1; a nonce of any other length is hashed.
pub open spec fn initial_counter(h: u128, iv: Seq<u8>) -> u128 {
    if iv.len() == 12 {
        be_u128(iv + seq![0u8, 0u8, 0u8, 1u8])
    } else {
        ghash_spec(h, Seq::empty(), iv)
    }
}

/// Byte `j` of the keystream: text block `i`, counted from 1, is covered by
/// the encryption of counter block `i`.
pub open spec fn keystream_byte(key: Seq<u8>, y0: u128, j: int) -> u8 {
    be_byte(block_encrypt_spec(key, counter_block(y0, (j / 16 + 1) as nat)), j % 16)
}

/// `data` with the keystream added to it, byte by byte.
pub open spec fn ctr_spec(key: Seq<u8>, y0: u128, data: Seq<u8>) -> Seq<u8> {
    Seq::new(data.len(), |j: int| data[j] ^ keystream_byte(key, y0, j))
}

/// The bytewise XOR of two strings, over the length of the first.
pub open spec fn xor_spec(lhs: Seq<u8>, rhs: Seq<u8>) -> Seq<u8> {
    Seq::new(lhs.len(), |j: int| lhs[j] ^ rhs[j])
}

/// The tag of ciphertext `c` and associated data `a`: their GHASH, masked
/// with the encryption of the first counter block.
pub open spec fn tag_spec(key: Seq<u8>, iv: Seq<u8>, a: Seq<u8>, c: Seq<u8>) -> Seq<u8> {
    let h = block_encrypt_spec(key, 0);
    let y0 = initial_counter(h, iv);
    be_bytes(ghash_spec(h, a, c) ^ block_encrypt_spec(key, y0))
}

/// `text` with the keystream of this key and nonce added: the ciphertext
/// of a plaintext, and the plaintext of a ciphertext.
pub open spec fn keystream_xor(key: Seq<u8>, iv: Seq<u8>, text: Seq<u8>) -> Seq<u8> {
    let h = block_encrypt_spec(key, 0);
    ctr_spec(key, initial_counter(h, iv), text)
}

/// What `gcm_encrypt` returns: the error of `check_inputs` if there is one,
/// else the ciphertext and its tag.
pub open spec fn gcm_encrypt_spec(
    key: Seq<u8>,
    nonce: Seq<u8>,
    associated_data: Seq<u8>,
    plaintext: Seq<u8>,
) -> Result<(Seq<u8>, Seq<u8>), GcmError> {
    match check_inputs_spec(key.len(), nonce.len(), associated_data.len(), plaintext.len()) {
        Err(e) => Err(e),
        Ok(_) => {
            let c = keystream_xor(key, nonce, plaintext);
            Ok((c, tag_spec(key, nonce, associated_data, c)))
        },
    }
}

/// What `gcm_decrypt` returns: the error of `check_inputs` if there is one,
/// else an error for a tag that is not the one of the ciphertext, else the
/// plaintext.
pub open spec fn gcm_decrypt_spec(
    key: Seq<u8>,
    nonce: Seq<u8>,
    associated_data: Seq<u8>,
    ciphertext: Seq<u8>,
    tag: Seq<u8>,
) -> Result<Seq<u8>, GcmError> {
    match check_inputs_spec(key.len(), nonce.len(), associated_data.len(), ciphertext.len()) {
        Err(e) => Err(e),
        Ok(_) => if tag == tag_spec(key, nonce, associated_data, ciphertext) {
            Ok(keystream_xor(key, nonce, ciphertext))
        } else {
            Err(GcmError::AuthenticationFailure)
        },
    }
}

/// Moves a counter block on by one: the low 32 bits count up and wrap at
/// `2^32` without a carry into the 96 bits above them.
pub fn incr(y: u128) -> (r: u128)
    ensures
        r == incr_spec(y),
        r / 0x1_0000_0000 == y / 0x1_0000_0000,
        r % 0x1_0000_0000 == (y % 0x1_0000_0000 + 1) % 0x1_0000_0000,
{
    // split Y into its 96-bit prefix and its 32-bit counter
    let f = y & (0xffffffffffffffffffffffffffffffffu128 - 0xffffffffu128);
    let low = y & 0xffffffffu128;
    assert(low < 0x1_0000_0000) by (bit_vector)
        requires
            low == y & 0xffffffffu128,
    ;
    let i = (low + 1) & 0xffffffffu128;
    assert(f + i == incr_spec(y)) by (bit_vector)
        requires
            f == y & 0xffffffff_ffffffff_ffffffff_00000000u128,
            low == y & 0xffffffffu128,
            i == ((low + 1) as u128) & 0xffffffffu128,
    ;
    proof {
        lemma_incr_halves(y);
    }
    f + i
}

/// XORs two byte strings of one length; strings of different lengths have
/// no XOR.
pub fn bytes_xor(lhs: &[u8], rhs: &[u8]) -> (r: Option<Vec<u8>>)
    ensures
        r is Some <==> lhs@.len() == rhs@.len(),
        r matches Some(v) ==> v@ == xor_spec(lhs@, rhs@),
{
    if lhs.len() != rhs.len() {
        return None;
    }
    let mut res: Vec<u8> = Vec::new();
    let mut i: usize = 0;
    while i < lhs.len()
        invariant
            i <= lhs.len(),
            lhs.len() == rhs.len(),
            res@.len() == i,
            forall|j: int| 0 <= j < i ==> res@[j] == lhs@[j] ^ rhs@[j],
        decreases lhs.len() - i,
    {
        res.push(lhs[i] ^ rhs[i]);
        i = i + 1;
    }
    Some(res)
}

/// Adds the keystream that starts after the counter block `y0` to `data`.
/// Applied to plaintext it gives the ciphertext, and the other way round.
pub fn ctr_xor(data: &[u8], k: &[u8; 32], y0: u128) -> (out: Vec<u8>)
    ensures
        out@ == ctr_spec(k@, y0, data@),
{
    let mut out: Vec<u8> = Vec::new();
    let mut y = y0;
    let mut off: usize = 0;
    let ghost mut i: nat = 0;
    while off < data.len()
        invariant
            off <= data.len(),
            off == 16 * i || off == data.len(),
            16 * i <= off + 15,
            y == counter_block(y0, i),
            out@.len() == off,
            forall|j: int| 0 <= j < off ==> out@[j] == data@[j] ^ keystream_byte(k@, y0, j),
        decreases data.len() - off,
    {
        y = incr(y);
        let stream = u128_to_be_bytes(block_encrypt(k, &y));
        let u: usize = if data.len() - off < 16 {
            data.len() - off
        } else {
            16
        };
        let chunk = bytes_xor(&data[off..off + u], &stream.as_slice()[0..u]);
        let mut chunk = chunk.unwrap();
        proof {
            assert forall|j: int| off <= j < off + u implies chunk@[j - off] == data@[j]
                ^ keystream_byte(k@, y0, j) by {
                assert(j / 16 + 1 == i + 1);
                assert(j % 16 == j - off);
            }
        }
        out.append(&mut chunk);
        off = off + u;
        proof {
            i = i + 1;
        }
    }
    out
}

/// Compares two tags without stopping at the first difference, so that the
/// time taken does not tell where they differ.
pub fn tags_match(a: &[u8; 16], b: &[u8; 16]) -> (r: bool)
    ensures
        r == (a@ == b@),
{
    let mut diff: u8 = 0;
    let mut i: usize = 0;
    while i < 16
        invariant
            i <= 16,
            diff == 0 <==> (forall|j: int| 0 <= j < i ==> a@[j] == b@[j]),
        decreases 16 - i,
    {
        let x = a[i];
        let y = b[i];
        let d = diff | (x ^ y);
        assert(d == 0 <==> (diff == 0 && x == y)) by (bit_vector)
            requires
                d == diff | (x ^ y),
        ;
        diff = d;
        i = i + 1;
    }
    proof {
        if diff == 0 {
            assert(a@ =~= b@);
        }
    }
    diff == 0
}

/// Derives the first counter block from the nonce `iv` and the hash subkey
/// `h`.
pub fn first_counter(h: u128, iv: &[u8]) -> (y0: u128)
    requires
        iv@.len() <= MAX_HASHED_BYTES,
    ensures
        y0 == initial_counter(h, iv@),
{
    if iv.len() == 12 {
        let mut block = [0u8; 16];
        let mut j: usize = 0;
        while j < 12
            invariant
                j <= 12,
                iv@.len() == 12,
                forall|m: int| 0 <= m < j ==> block@[m] == iv@[m],
                forall|m: int| j <= m < 16 ==> block@[m] == 0,
            decreases 12 - j,
        {
            block[j] = iv[j];
            j = j + 1;
        }
        block[15] = 1;
        proof {
            assert(block@ =~= iv@ + seq![0u8, 0u8, 0u8, 1u8]);
        }
        u128_from_be_bytes(&block)
    } else {
        let empty: Vec<u8> = Vec::new();
        ghash(h, empty.as_slice(), iv)
    }
}

/// Encrypts `p` under the key `k` and the nonce `iv`, and authenticates it
/// together with the associated data `a`. Returns the ciphertext, which is as
/// long as `p`, and the tag.
pub fn encrypt(p: &[u8], k: &[u8; 32], iv: &[u8], a: &[u8]) -> (r: (Vec<u8>, [u8; 16]))
    requires
        iv@.len() > 0,
        lengths_fit(iv@.len(), a@.len(), p@.len()),
    ensures
        r.0@.len() == p@.len(),
        r.0@ == keystream_xor(k@, iv@, p@),
        r.1@ == tag_spec(k@, iv@, a@, r.0@),
{
    let h = block_encrypt(k, &0u128);
    let y0 = first_counter(h, iv);
    let c = ctr_xor(p, k, y0);
    let t = u128_to_be_bytes(ghash(h, a, c.as_slice()) ^ block_encrypt(k, &y0));
    (c, t)
}

/// Checks the tag `t` of the ciphertext `c` and the associated data `a`
/// and, if it is the right one, gives the plaintext. With any other tag
/// nothing of the plaintext is given out.
pub fn decrypt(c: &[u8], k: &[u8; 32], iv: &[u8], a: &[u8], t: &[u8; 16]) -> (r: Option<Vec<u8>>)
    requires
        iv@.len() > 0,
        lengths_fit(iv@.len(), a@.len(), c@.len()),
    ensures
        r is Some <==> t@ == tag_spec(k@, iv@, a@, c@),
        r matches Some(p) ==> p@ == keystream_xor(k@, iv@, c@),
{
    let h = block_encrypt(k, &0u128);
    let y0 = first_counter(h, iv);
    let expected = u128_to_be_bytes(ghash(h, a, c) ^ block_encrypt(k, &y0));
    if tags_match(&expected, t) {
        Some(ctr_xor(c, k, y0))
    } else {
        None
    }
}

/// Copies a key of the right length into an array.
fn key_array(key: &[u8]) -> (k: [u8; 32])
    requires
        key@.len() == KEY_BYTES,
    ensures
        k@ == key@,
{
    let mut k = [0u8; 32];
    let mut i: usize = 0;
    while i < 32
        invariant
            i <= 32,
            key@.len() == 32,
            forall|j: int| 0 <= j < i ==> k@[j] == key@[j],
        decreases 32 - i,
    {
        k[i] = key[i];
        i = i + 1;
    }
    proof {
        assert(k@ =~= key@);
    }
    k
}

/// Judges the inputs of an operation by their lengths in bytes, before
/// anything is computed: the key must have 32 bytes and the nonce at least
/// one; then nonce and associated data must have bit counts that fit in 64
/// bits, and the text at most `2^32 - 2` blocks.
pub fn check_inputs(key_len: usize, nonce_len: usize, ad_len: usize, text_len: usize) -> (r: Result<
    (),
    GcmError,
>)
    ensures
        r == check_inputs_spec(key_len as nat, nonce_len as nat, ad_len as nat, text_len as nat),
{
    if key_len != KEY_BYTES || nonce_len == 0 {
        Err(GcmError::ConfigurationError)
    } else if nonce_len as u64 > MAX_HASHED_BYTES || ad_len as u64 > MAX_HASHED_BYTES
        || text_len as u64 > MAX_TEXT_BYTES {
        Err(GcmError::OverflowError)
    } else {
        Ok(())
    }
}

/// Authenticated encryption. Checks the inputs before the cipher is called
/// for the first time, then encrypts as `encrypt` does.
pub fn gcm_encrypt(key: &[u8], nonce: &[u8], associated_data: &[u8], plaintext: &[u8]) -> (r:
    Result<(Vec<u8>, [u8; 16]), GcmError>)
    ensures
        match gcm_encrypt_spec(key@, nonce@, associated_data@, plaintext@) {
            Ok((c, t)) => r matches Ok(out) && out.0@ == c && out.1@ == t,
            Err(e) => r matches Err(got) && got == e,
        },
{
    match check_inputs(key.len(), nonce.len(), associated_data.len(), plaintext.len()) {
        Err(e) => Err(e),
        Ok(_) => {
            let k = key_array(key);
            Ok(encrypt(plaintext, &k, nonce, associated_data))
        },
    }
}

/// Authenticated decryption. Checks the inputs as `gcm_encrypt` does, then
/// the tag; the plaintext is given out only if the tag is the right one.
pub fn gcm_decrypt(
    key: &[u8],
    nonce: &[u8],
    associated_data: &[u8],
    ciphertext: &[u8],
    tag: &[u8; 16],
) -> (r: Result<Vec<u8>, GcmError>)
    ensures
        match gcm_decrypt_spec(key@, nonce@, associated_data@, ciphertext@, tag@) {
            Ok(p) => r matches Ok(out) && out@ == p,
            Err(e) => r matches Err(got) && got == e,
        },
{
    match check_inputs(key.len(), nonce.len(), associated_data.len(), ciphertext.len()) {
        Err(e) => Err(e),
        Ok(_) => {
            let k = key_array(key);
            match decrypt(ciphertext, &k, nonce, associated_data, tag) {
                Some(p) => Ok(p),
                None => Err(GcmError::AuthenticationFailure),
            }
        },
    }
}

} // verus!
