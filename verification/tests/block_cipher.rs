use cryptopals::aes128::decrypt::{decrypt, decrypt_block};
use cryptopals::aes128::encrypt::encrypt_block;
use cryptopals::aes128::round_key::RoundKey;

#[test]
fn decrypt_block_should_work_as_expected() {
    let bytes = 0x370da167_1a3de46b_a6307c65_fbb14597;
    let key = 0;
    let round_key = RoundKey::new(key, 10);
    let actual = decrypt_block(bytes, round_key);
    let expected = 0xdb135345_f20a225c_01010101_c6c6c6c6;
    assert_eq!(actual, expected);
}

#[test]
fn encrypt_block_should_work_as_expected() {
    let bytes = 0xdb135345_f20a225c_01010101_c6c6c6c6;
    let key = 0;
    let round_key = RoundKey::new(key, 10);
    let actual = encrypt_block(bytes, round_key);
    let expected = 0x370da167_1a3de46b_a6307c65_fbb14597;
    assert_eq!(actual, expected);
}

#[test]
fn decrypt_should_expand_the_key_itself() {
    let bytes = 0x370da167_1a3de46b_a6307c65_fbb14597;
    assert_eq!(decrypt(bytes, 0), 0xdb135345_f20a225c_01010101_c6c6c6c6);
}

#[test]
fn encrypt_block_should_match_the_published_example() {
    let key = 0x00010203_04050607_08090a0b_0c0d0e0f;
    let plaintext = 0x00112233_44556677_8899aabb_ccddeeff;
    let ciphertext = 0x69c4e0d8_6a7b0430_d8cdb780_70b4c55a;
    assert_eq!(encrypt_block(plaintext, RoundKey::new(key, 10)), ciphertext);
    assert_eq!(decrypt_block(ciphertext, RoundKey::new(key, 10)), plaintext);
    assert_eq!(decrypt(ciphertext, key), plaintext);
}

#[test]
fn encrypt_block_should_match_the_second_published_example() {
    let key = 0x2b7e1516_28aed2a6_abf71588_09cf4f3c;
    let plaintext = 0x3243f6a8_885a308d_313198a2_e0370734;
    let ciphertext = 0x3925841d_02dc09fb_dc118597_196a0b32;
    assert_eq!(encrypt_block(plaintext, RoundKey::new(key, 10)), ciphertext);
    assert_eq!(decrypt(ciphertext, key), plaintext);
}

#[test]
fn decrypt_should_undo_encrypt_block() {
    let mut key: u128 = 0x0123456789abcdef_fedcba9876543210;
    let mut block: u128 = 0xdeadbeef_00000000_ffffffff_12345678;
    for _ in 0..32 {
        let encrypted = encrypt_block(block, RoundKey::new(key, 10));
        assert_eq!(decrypt(encrypted, key), block);
        key = key.rotate_left(7) ^ encrypted;
        block = block.wrapping_mul(0x9e3779b97f4a7c15).wrapping_add(encrypted);
    }
}

#[test]
fn decrypt_block_should_undo_encrypt_block_under_any_words() {
    let words: Vec<u32> = (0..44u32).map(|i| i.wrapping_mul(0x9e3779b9) ^ 0x5a5a5a5a).collect();
    let block: u128 = 0x00112233_44556677_8899aabb_ccddeeff;
    let encrypted = encrypt_block(block, RoundKey { round_keys: words.clone() });
    assert_eq!(decrypt_block(encrypted, RoundKey { round_keys: words }), block);
}
