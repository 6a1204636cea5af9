//! Big-endian conversion between a 128-bit block and its 16 bytes.

use vstd::prelude::*;

verus! {

/// The 128-bit value with the given bytes, the first the most significant.
pub open spec fn value_of(
    b0: u8, b1: u8, b2: u8, b3: u8, b4: u8, b5: u8, b6: u8, b7: u8,
    b8: u8, b9: u8, b10: u8, b11: u8, b12: u8, b13: u8, b14: u8, b15: u8,
) -> u128 {
    (b0 as u128) << 120 | (b1 as u128) << 112 | (b2 as u128) << 104 | (b3 as u128) << 96
        | (b4 as u128) << 88 | (b5 as u128) << 80 | (b6 as u128) << 72 | (b7 as u128) << 64
        | (b8 as u128) << 56 | (b9 as u128) << 48 | (b10 as u128) << 40 | (b11 as u128) << 32
        | (b12 as u128) << 24 | (b13 as u128) << 16 | (b14 as u128) << 8 | (b15 as u128)
}

/// The byte of `x` that stands `shift` bits above the lowest.
pub open spec fn byte_at(x: u128, shift: u128) -> u8 {
    ((x >> shift) & 0xff) as u8
}

/// The 128-bit value whose big-endian bytes are the first 16 bytes of `s`.
pub open spec fn be_u128(s: Seq<u8>) -> u128 {
    value_of(
        s[0], s[1], s[2], s[3], s[4], s[5], s[6], s[7],
        s[8], s[9], s[10], s[11], s[12], s[13], s[14], s[15],
    )
}

/// Byte `i` of `x` in big-endian order, for `i < 16`.
pub open spec fn be_byte(x: u128, i: int) -> u8 {
    byte_at(x, ((15 - i) * 8) as u128)
}

/// The 16 bytes of `x`, most significant first.
pub open spec fn be_bytes(x: u128) -> Seq<u8> {
    Seq::new(16, |i: int| be_byte(x, i))
}

/// Putting the 16 bytes of a value together gives the value.
proof fn lemma_bytes_make_value(x: u128)
    by (bit_vector)
    ensures
        x == value_of(
            byte_at(x, 120), byte_at(x, 112), byte_at(x, 104), byte_at(x, 96),
            byte_at(x, 88), byte_at(x, 80), byte_at(x, 72), byte_at(x, 64),
            byte_at(x, 56), byte_at(x, 48), byte_at(x, 40), byte_at(x, 32),
            byte_at(x, 24), byte_at(x, 16), byte_at(x, 8), byte_at(x, 0),
        ),
{
}

/// Each byte that a value was put together from stands at its place.
proof fn lemma_value_keeps_bytes(
    b0: u8, b1: u8, b2: u8, b3: u8, b4: u8, b5: u8, b6: u8, b7: u8,
    b8: u8, b9: u8, b10: u8, b11: u8, b12: u8, b13: u8, b14: u8, b15: u8,
    v: u128,
)
    by (bit_vector)
    requires
        v == value_of(b0, b1, b2, b3, b4, b5, b6, b7, b8, b9, b10, b11, b12, b13, b14, b15),
    ensures
        byte_at(v, 120) == b0,
        byte_at(v, 112) == b1,
        byte_at(v, 104) == b2,
        byte_at(v, 96) == b3,
        byte_at(v, 88) == b4,
        byte_at(v, 80) == b5,
        byte_at(v, 72) == b6,
        byte_at(v, 64) == b7,
        byte_at(v, 56) == b8,
        byte_at(v, 48) == b9,
        byte_at(v, 40) == b10,
        byte_at(v, 32) == b11,
        byte_at(v, 24) == b12,
        byte_at(v, 16) == b13,
        byte_at(v, 8) == b14,
        byte_at(v, 0) == b15,
{
}

/// A value is the value of its bytes.
pub proof fn lemma_value_of_bytes(x: u128)
    ensures
        be_u128(be_bytes(x)) == x,
{
    lemma_bytes_make_value(x);
}

/// Sixteen bytes are the bytes of their value.
pub proof fn lemma_bytes_of_value(s: Seq<u8>)
    requires
        s.len() == 16,
    ensures
        be_bytes(be_u128(s)) == s,
{
    lemma_value_keeps_bytes(
        s[0], s[1], s[2], s[3], s[4], s[5], s[6], s[7],
        s[8], s[9], s[10], s[11], s[12], s[13], s[14], s[15],
        be_u128(s),
    );
    assert(be_bytes(be_u128(s)) =~= s);
}

/// Reads a 128-bit block from its big-endian bytes.
pub fn u128_from_be_bytes(b: &[u8; 16]) -> (x: u128)
    ensures
        x == be_u128(b@),
{
    (b[0] as u128) << 120 | (b[1] as u128) << 112 | (b[2] as u128) << 104 | (b[3] as u128) << 96
        | (b[4] as u128) << 88 | (b[5] as u128) << 80 | (b[6] as u128) << 72 | (b[7] as u128) << 64
        | (b[8] as u128) << 56 | (b[9] as u128) << 48 | (b[10] as u128) << 40 | (b[11] as u128) << 32
        | (b[12] as u128) << 24 | (b[13] as u128) << 16 | (b[14] as u128) << 8 | (b[15] as u128)
}

/// A value masked to its low byte fits in a byte.
proof fn lemma_low_byte(x: u128)
    by (bit_vector)
    ensures
        x & 0xff < 256,
{
}

/// Writes a 128-bit block as its big-endian bytes.
pub fn u128_to_be_bytes(x: u128) -> (b: [u8; 16])
    ensures
        b@ == be_bytes(x),
{
    let mut b = [0u8; 16];
    let mut i: usize = 0;
    while i < 16
        invariant
            i <= 16,
            forall|j: int| 0 <= j < i ==> b@[j] == be_byte(x, j),
        decreases 16 - i,
    {
        let shifted = x >> ((15 - i) * 8) as u128;
        proof {
            lemma_low_byte(shifted);
        }
        b[i] = (shifted & 0xff) as u8;
        i = i + 1;
    }
    b
}

} // verus!
