//! What holds of encryption and decryption taken together.

use crate::cipher::block_encrypt_spec;
use crate::gcm::{
    check_inputs_spec, counter_block, ctr_spec, gcm_decrypt_spec, gcm_encrypt_spec, incr_spec,
    initial_counter, keystream_byte, keystream_xor, tag_spec, GcmError,
};
use vstd::prelude::*;

verus! {

/// Adding a byte twice takes it away again.
proof fn lemma_xor_twice(x: u8, k: u8)
    by (bit_vector)
    ensures
        (x ^ k) ^ k == x,
{
}

/// Adding the same keystream twice gives the data back.
pub proof fn lemma_ctr_self_inverse(key: Seq<u8>, y0: u128, data: Seq<u8>)
    ensures
        ctr_spec(key, y0, ctr_spec(key, y0, data)) == data,
{
    let once = ctr_spec(key, y0, data);
    let twice = ctr_spec(key, y0, once);
    assert forall|j: int| 0 <= j < data.len() implies twice[j] == data[j] by {
        lemma_xor_twice(data[j], keystream_byte(key, y0, j));
    }
    assert(twice =~= data);
}

/// Round trip: whatever `gcm_encrypt` gives for a plaintext, `gcm_decrypt`
/// gives that plaintext back for it, under the same key, nonce and
/// associated data.
pub proof fn lemma_round_trip(
    key: Seq<u8>,
    nonce: Seq<u8>,
    associated_data: Seq<u8>,
    plaintext: Seq<u8>,
)
    ensures
        gcm_encrypt_spec(key, nonce, associated_data, plaintext) matches Ok((c, t))
            ==> gcm_decrypt_spec(key, nonce, associated_data, c, t) == Ok::<Seq<u8>, GcmError>(
            plaintext,
        ),
{
    if gcm_encrypt_spec(key, nonce, associated_data, plaintext) is Ok {
        let h = block_encrypt_spec(key, 0);
        let y0 = initial_counter(h, nonce);
        lemma_ctr_self_inverse(key, y0, plaintext);
    }
}

/// The tag decides: on inputs that pass the checks of key, nonce and
/// lengths, decryption succeeds for the one tag that belongs to ciphertext,
/// associated data and nonce, and reports an authentication failure for
/// every other tag. A tag with a single bit changed is such another tag.
pub proof fn lemma_tag_decides(
    key: Seq<u8>,
    nonce: Seq<u8>,
    associated_data: Seq<u8>,
    ciphertext: Seq<u8>,
    tag: Seq<u8>,
)
    requires
        check_inputs_spec(key.len(), nonce.len(), associated_data.len(), ciphertext.len()) is Ok,
    ensures
        tag == tag_spec(key, nonce, associated_data, ciphertext) ==> gcm_decrypt_spec(
            key,
            nonce,
            associated_data,
            ciphertext,
            tag,
        ) == Ok::<Seq<u8>, GcmError>(keystream_xor(key, nonce, ciphertext)),
        tag != tag_spec(key, nonce, associated_data, ciphertext) ==> gcm_decrypt_spec(
            key,
            nonce,
            associated_data,
            ciphertext,
            tag,
        ) == Err::<Seq<u8>, GcmError>(GcmError::AuthenticationFailure),
{
}

/// A changed tag is always found out: after an encryption, no tag but the
/// one that it gave lets its ciphertext through.
pub proof fn lemma_changed_tag_rejected(
    key: Seq<u8>,
    nonce: Seq<u8>,
    associated_data: Seq<u8>,
    plaintext: Seq<u8>,
    tag: Seq<u8>,
)
    ensures
        gcm_encrypt_spec(key, nonce, associated_data, plaintext) matches Ok((c, t)) ==> (tag != t
            ==> gcm_decrypt_spec(key, nonce, associated_data, c, tag) == Err::<Seq<u8>, GcmError>(
            GcmError::AuthenticationFailure,
        )),
{
}

/// The two halves of a counter step: the high 96 bits are kept, and the low
/// 32 bits count up modulo `2^32`.
pub proof fn lemma_incr_halves(y: u128)
    by (bit_vector)
    ensures
        incr_spec(y) / 0x1_0000_0000 == y / 0x1_0000_0000,
        incr_spec(y) % 0x1_0000_0000 == (y % 0x1_0000_0000 + 1) % 0x1_0000_0000,
{
}

/// A counter whose low 32 bits are all set wraps to zero in those bits, and
/// nothing is carried into the 96 bits above them.
pub proof fn lemma_incr_wraps(y: u128)
    requires
        y % 0x1_0000_0000 == 0xffff_ffff,
    ensures
        incr_spec(y) % 0x1_0000_0000 == 0,
        incr_spec(y) / 0x1_0000_0000 == y / 0x1_0000_0000,
{
    lemma_incr_halves(y);
}

/// Every counter block of a sequence has the high 96 bits of the first.
pub proof fn lemma_counter_keeps_prefix(y0: u128, i: nat)
    ensures
        counter_block(y0, i) / 0x1_0000_0000 == y0 / 0x1_0000_0000,
    decreases i,
{
    if i > 0 {
        lemma_counter_keeps_prefix(y0, (i - 1) as nat);
        lemma_incr_halves(counter_block(y0, (i - 1) as nat));
    }
}

} // verus!
