use gcm_mode::bytes::{u128_from_be_bytes, u128_to_be_bytes};
use gcm_mode::{ghash, padding_slice, GFPoly};

fn unhex(s: &str) -> Vec<u8> {
    let digits: Vec<u8> = s.bytes().map(|c| (c as char).to_digit(16).unwrap() as u8).collect();
    digits.chunks(2).map(|p| p[0] * 16 + p[1]).collect()
}

#[test]
fn empty_input_has_no_block() {
    let mut bytes: Vec<u8> = Vec::new();
    let blocks = padding_slice(&mut bytes);
    assert_eq!(blocks, Vec::<u128>::new());
    assert_eq!(bytes, Vec::<u8>::new());
}

#[test]
fn exact_multiple_gets_no_padding() {
    let mut bytes: Vec<u8> = (1u8..=32).collect();
    let blocks = padding_slice(&mut bytes);
    assert_eq!(bytes, (1u8..=32).collect::<Vec<u8>>());
    assert_eq!(
        blocks,
        vec![
            0x0102030405060708090a0b0c0d0e0f10u128,
            0x1112131415161718191a1b1c1d1e1f20u128,
        ]
    );
}

#[test]
fn short_input_is_padded_on_the_right() {
    let mut bytes: Vec<u8> = vec![0xab, 0xcd, 0xef];
    let blocks = padding_slice(&mut bytes);
    assert_eq!(bytes.len(), 16);
    assert_eq!(&bytes[..3], &[0xab, 0xcd, 0xef]);
    assert_eq!(&bytes[3..], &[0u8; 13]);
    assert_eq!(blocks, vec![0xabcdef00000000000000000000000000u128]);
}

#[test]
fn last_block_is_padded() {
    let mut bytes: Vec<u8> = (1u8..=17).collect();
    let blocks = padding_slice(&mut bytes);
    assert_eq!(bytes.len(), 32);
    assert_eq!(bytes[16], 17);
    assert_eq!(&bytes[17..], &[0u8; 15]);
    assert_eq!(
        blocks,
        vec![
            0x0102030405060708090a0b0c0d0e0f10u128,
            0x11000000000000000000000000000000u128,
        ]
    );
}

#[test]
fn fifteen_bytes_get_one_byte_of_padding() {
    let mut bytes: Vec<u8> = vec![0xff; 15];
    let blocks = padding_slice(&mut bytes);
    assert_eq!(bytes.len(), 16);
    assert_eq!(bytes[15], 0);
    assert_eq!(blocks, vec![0xffffffffffffffffffffffffffffff00u128]);
}

#[test]
fn big_endian_bytes_of_a_block() {
    let x = 0x0102030405060708090a0b0c0d0e0f10u128;
    let bytes = u128_to_be_bytes(x);
    assert_eq!(bytes, [1, 2, 3, 4, 5, 6, 7, 8, 9, 10, 11, 12, 13, 14, 15, 16]);
    assert_eq!(u128_from_be_bytes(&bytes), x);
    assert_eq!(u128_to_be_bytes(1), [0, 0, 0, 0, 0, 0, 0, 0, 0, 0, 0, 0, 0, 0, 0, 1]);
    assert_eq!(u128_from_be_bytes(&[0x80, 0, 0, 0, 0, 0, 0, 0, 0, 0, 0, 0, 0, 0, 0, 0]), 1u128 << 127);
    assert_eq!(u128_to_be_bytes(u128::MAX), [0xff; 16]);
}

#[test]
fn big_endian_agrees_with_std() {
    for x in [0u128, 1, u128::MAX, 0xdc95c078a2408989ad48a21492842087, 1 << 64, 0xff << 120] {
        assert_eq!(u128_to_be_bytes(x), x.to_be_bytes());
        assert_eq!(u128_from_be_bytes(&x.to_be_bytes()), x);
    }
}

#[test]
fn ghash_of_nothing_is_zero() {
    assert_eq!(ghash(0x66e94bd4ef8a2c3b884cfa59ca342b2e, &[], &[]), 0);
    assert_eq!(ghash(0, &[], &[]), 0);
}

#[test]
fn ghash_of_one_ciphertext_block() {
    let h = 0x66e94bd4ef8a2c3b884cfa59ca342b2eu128;
    let c = unhex("0388dace60b6a392f328c2b971b2fe78");
    assert_eq!(ghash(h, &[], &c), 0xf38cbb1ad69223dcc3457ae5b6b0f885u128);
}

#[test]
fn ghash_under_an_aes_256_subkey() {
    let h = 0xdc95c078a2408989ad48a21492842087u128;
    let c = unhex("cea7403d4d606b6e074ec5d3baf39d18");
    assert_eq!(ghash(h, &[], &c), 0x83de425c5edc5d498f382c441041ca92u128);
}

#[test]
fn ghash_with_partial_blocks_on_both_sides() {
    let h = 0xb83b533708bf535d0aa6e52980d53b78u128;
    let a = unhex("feedfacedeadbeeffeedfacedeadbeefabaddad2");
    let c = unhex(
        "42831ec2217774244b7221b784d0d49ce3aa212f2c02a4e035c17e2329aca12e\
         21d514b25466931c7d8f6a5aac84aa051ba30b396a0aac973d58e091",
    );
    assert_eq!(a.len(), 20);
    assert_eq!(c.len(), 60);
    assert_eq!(ghash(h, &a, &c), 0x698e57f70e6ecc7fd9463b7260a9ae5fu128);
}

#[test]
fn ghash_tells_padding_from_data() {
    // the same blocks, but another true length: the length block differs
    let h = 0xb83b533708bf535d0aa6e52980d53b78u128;
    let short = [1u8, 2, 3];
    let long = [1u8, 2, 3, 0];
    assert_ne!(ghash(h, &[], &short), ghash(h, &[], &long));
    assert_ne!(ghash(h, &short, &[]), ghash(h, &long, &[]));
}

#[test]
fn ghash_tells_associated_data_from_ciphertext() {
    let h = 0xb83b533708bf535d0aa6e52980d53b78u128;
    let block = [7u8; 16];
    assert_ne!(ghash(h, &block, &[]), ghash(h, &[], &block));
}

#[test]
fn ghash_chains_block_by_block() {
    // one block of ciphertext: ((C * H) + L) * H, written out with the field operations
    let h = GFPoly::from(0x66e94bd4ef8a2c3b884cfa59ca342b2eu128);
    let c = GFPoly::from(0x0388dace60b6a392f328c2b971b2fe78u128);
    let l = GFPoly::from(128u128);
    let x1 = c * h;
    assert_eq!(u128::from(x1), 0x5e2ec746917062882c85b0685353deb7u128);
    assert_eq!(u128::from((x1 + l) * h), 0xf38cbb1ad69223dcc3457ae5b6b0f885u128);
}
