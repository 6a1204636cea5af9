//! Galois/Counter Mode over a 128-bit block cipher: arithmetic in GF(2^128),
//! the GHASH universal hash, and the counter-mode driver that joins them into
//! authenticated encryption with associated data.

pub mod blocks;
pub mod bytes;
pub mod cipher;
pub mod field_laws;
pub mod gcm;
pub mod gcm_laws;
pub mod gfpoly;
pub mod ghash;

pub use blocks::padding_slice;
pub use cipher::block_encrypt;
pub use gcm::{
    bytes_xor, check_inputs, ctr_xor, decrypt, encrypt, first_counter, gcm_decrypt, gcm_encrypt,
    incr, tags_match, GcmError,
};
pub use gfpoly::GFPoly;
pub use ghash::ghash;
