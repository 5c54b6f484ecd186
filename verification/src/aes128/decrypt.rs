//! Decryption of one block.

use super::algorithm_utilities::{
    add_round_key, add_round_key_spec, inverse_mix_columns, inverse_mix_columns_spec,
    inverse_shift_rows, inverse_shift_rows_spec, inverse_sub_bytes, inverse_sub_bytes_spec,
    lemma_add_round_key_twice, lemma_inverse_mix_columns, lemma_inverse_shift_rows,
    lemma_inverse_sub_bytes, mix_columns_spec, shift_rows_spec, sub_bytes_spec,
};
use super::encrypt::{encrypt_rounds, encrypt_spec, round_key_words};
use super::round_key::{expand_key, lemma_expand_key_len, round_words, RoundKey};
use vstd::prelude::*;

verus! {

/// The state of the decryption of `ciphertext` under the schedule `words`
/// once the rounds from the last down to `round` are undone. Round 10 is
/// undone by adding its round key, shifting the rows back and substituting
/// back; each round below it first adds its round key and mixes the columns
/// back.
pub open spec fn decrypt_rounds(ciphertext: u128, words: Seq<u32>, round: nat) -> u128
    decreases 10 - round,
{
    if round >= 10 {
        inverse_sub_bytes_spec(
            inverse_shift_rows_spec(add_round_key_spec(ciphertext, round_words(words, 10))),
        )
    } else {
        inverse_sub_bytes_spec(
            inverse_shift_rows_spec(
                inverse_mix_columns_spec(
                    add_round_key_spec(
                        decrypt_rounds(ciphertext, words, round + 1),
                        round_words(words, round as int),
                    ),
                ),
            ),
        )
    }
}

/// The decryption of `ciphertext` under the schedule `words`: rounds 10 down
/// to 1 undone, and then the first round key added.
pub open spec fn decrypt_spec(ciphertext: u128, words: Seq<u32>) -> u128 {
    add_round_key_spec(decrypt_rounds(ciphertext, words, 1), round_words(words, 0))
}

/// Undoing the rounds of an encryption down to `round` gives the state that
/// the encryption had after the round before.
pub proof fn lemma_decrypt_rounds_of_encrypt(plaintext: u128, words: Seq<u32>, round: nat)
    requires
        1 <= round <= 10,
    ensures
        decrypt_rounds(encrypt_spec(plaintext, words), words, round) == encrypt_rounds(
            plaintext,
            words,
            (round - 1) as nat,
        ),
    decreases 10 - round,
{
    let ciphertext = encrypt_spec(plaintext, words);
    let before = encrypt_rounds(plaintext, words, (round - 1) as nat);
    let substituted = sub_bytes_spec(before);
    let shifted = shift_rows_spec(substituted);
    if round == 10 {
        lemma_add_round_key_twice(shifted, round_words(words, 10));
        lemma_inverse_shift_rows(substituted);
        lemma_inverse_sub_bytes(before);
    } else {
        lemma_decrypt_rounds_of_encrypt(plaintext, words, round + 1);
        let mixed = mix_columns_spec(shifted);
        assert(encrypt_rounds(plaintext, words, round) == add_round_key_spec(
            mixed,
            round_words(words, round as int),
        ));
        lemma_add_round_key_twice(mixed, round_words(words, round as int));
        lemma_inverse_mix_columns(shifted);
        lemma_inverse_shift_rows(substituted);
        lemma_inverse_sub_bytes(before);
    }
}

/// Decryption undoes encryption under the same schedule, whatever words the
/// schedule holds.
pub proof fn lemma_decrypt_of_encrypt(plaintext: u128, words: Seq<u32>)
    ensures
        decrypt_spec(encrypt_spec(plaintext, words), words) == plaintext,
{
    lemma_decrypt_rounds_of_encrypt(plaintext, words, 1);
    lemma_add_round_key_twice(plaintext, round_words(words, 0));
}

/// Redoing the rounds of a decryption up to `round` gives the state that the
/// decryption had before it undid the round after.
pub proof fn lemma_encrypt_rounds_of_decrypt(ciphertext: u128, words: Seq<u32>, round: nat)
    requires
        round <= 9,
    ensures
        encrypt_rounds(decrypt_spec(ciphertext, words), words, round) == decrypt_rounds(
            ciphertext,
            words,
            round + 1,
        ),
    decreases round,
{
    if round == 0 {
        lemma_add_round_key_twice(decrypt_rounds(ciphertext, words, 1), round_words(words, 0));
    } else {
        lemma_encrypt_rounds_of_decrypt(ciphertext, words, (round - 1) as nat);
        let keyed = add_round_key_spec(
            decrypt_rounds(ciphertext, words, round + 1),
            round_words(words, round as int),
        );
        let unmixed = inverse_mix_columns_spec(keyed);
        let unshifted = inverse_shift_rows_spec(unmixed);
        assert(decrypt_rounds(ciphertext, words, round) == inverse_sub_bytes_spec(unshifted));
        lemma_inverse_sub_bytes(unshifted);
        lemma_inverse_shift_rows(unmixed);
        lemma_inverse_mix_columns(keyed);
        lemma_add_round_key_twice(
            decrypt_rounds(ciphertext, words, round + 1),
            round_words(words, round as int),
        );
    }
}

/// Encryption undoes decryption under the same schedule, whatever words the
/// schedule holds.
pub proof fn lemma_encrypt_of_decrypt(ciphertext: u128, words: Seq<u32>)
    ensures
        encrypt_spec(decrypt_spec(ciphertext, words), words) == ciphertext,
{
    lemma_encrypt_rounds_of_decrypt(ciphertext, words, 9);
    let keyed = add_round_key_spec(ciphertext, round_words(words, 10));
    let unshifted = inverse_shift_rows_spec(keyed);
    lemma_inverse_sub_bytes(unshifted);
    lemma_inverse_shift_rows(keyed);
    lemma_add_round_key_twice(ciphertext, round_words(words, 10));
}

/// A block encrypted under the schedule of a key and decrypted under the
/// schedule of the same key is the block again.
pub proof fn lemma_round_trip(plaintext: u128, key: u128)
    ensures
        expand_key(key, 10).len() == 44,
        decrypt_spec(encrypt_spec(plaintext, expand_key(key, 10)), expand_key(key, 10))
            == plaintext,
{
    lemma_expand_key_len(key, 10);
    lemma_decrypt_of_encrypt(plaintext, expand_key(key, 10));
}

/// Decrypts the block `bytes` under the key `key`.
pub fn decrypt(bytes: u128, key: u128) -> (r: u128)
    ensures
        r == decrypt_spec(bytes, expand_key(key, 10)),
{
    proof {
        lemma_expand_key_len(key, 10);
    }
    decrypt_block(bytes, RoundKey::new(key, 10))
}

/// Decrypts the block `bytes` under the schedule `round_key`.
pub fn decrypt_block(bytes: u128, round_key: RoundKey) -> (r: u128)
    requires
        round_key@.len() >= 44,
    ensures
        r == decrypt_spec(bytes, round_key@),
{
    let mut state = inverse_sub_bytes(
        inverse_shift_rows(add_round_key(bytes, &round_key_words(&round_key, 10))),
    );

    let mut round: usize = 9;
    while round >= 1
        invariant
            0 <= round <= 9,
            round_key@.len() >= 44,
            state == decrypt_rounds(bytes, round_key@, (round + 1) as nat),
        decreases round,
    {
        state = inverse_sub_bytes(
            inverse_shift_rows(
                inverse_mix_columns(add_round_key(state, &round_key_words(&round_key, round))),
            ),
        );
        round -= 1;
    }

    add_round_key(state, &round_key_words(&round_key, 0))
}

} // verus!
