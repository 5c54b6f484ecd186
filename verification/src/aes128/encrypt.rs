//! Encryption of one block.

use super::algorithm_utilities::{
    add_round_key, add_round_key_spec, mix_columns, mix_columns_spec, shift_rows, shift_rows_spec,
    sub_bytes, sub_bytes_spec,
};
use super::round_key::{round_words, RoundKey};
use vstd::prelude::*;

verus! {

/// The state after round `round` of the encryption of `plaintext` under the
/// schedule `words`. Round 0 adds the first round key; each later round
/// substitutes, shifts the rows, mixes the columns and adds its round key.
pub open spec fn encrypt_rounds(plaintext: u128, words: Seq<u32>, round: nat) -> u128
    decreases round,
{
    if round == 0 {
        add_round_key_spec(plaintext, round_words(words, 0))
    } else {
        add_round_key_spec(
            mix_columns_spec(
                shift_rows_spec(
                    sub_bytes_spec(encrypt_rounds(plaintext, words, (round - 1) as nat)),
                ),
            ),
            round_words(words, round as int),
        )
    }
}

/// The encryption of `plaintext` under the schedule `words`: nine full rounds
/// after round 0, and a last round that mixes no columns.
pub open spec fn encrypt_spec(plaintext: u128, words: Seq<u32>) -> u128 {
    add_round_key_spec(
        shift_rows_spec(sub_bytes_spec(encrypt_rounds(plaintext, words, 9))),
        round_words(words, 10),
    )
}

/// The four words of round key `round`, as an array.
pub fn round_key_words(round_key: &RoundKey, round: usize) -> (r: [u32; 4])
    requires
        4 * round + 4 <= round_key@.len(),
    ensures
        r@ == round_words(round_key@, round as int),
{
    let words = round_key.get(round);
    let r = [words[0], words[1], words[2], words[3]];
    assert(r@ =~= round_words(round_key@, round as int));
    r
}

/// Encrypts the block `bytes` under the schedule `round_key`.
pub fn encrypt_block(bytes: u128, round_key: RoundKey) -> (r: u128)
    requires
        round_key@.len() >= 44,
    ensures
        r == encrypt_spec(bytes, round_key@),
{
    let init_keys = round_key_words(&round_key, 0);

    let mut state = add_round_key(bytes, &init_keys);
    let mut round: usize = 1;
    while round <= 9
        invariant
            1 <= round <= 10,
            round_key@.len() >= 44,
            state == encrypt_rounds(bytes, round_key@, (round - 1) as nat),
        decreases 10 - round,
    {
        state = add_round_key(
            mix_columns(shift_rows(sub_bytes(state))),
            &round_key_words(&round_key, round),
        );
        round += 1;
    }

    add_round_key(shift_rows(sub_bytes(state)), &round_key_words(&round_key, 10))
}

} // verus!
