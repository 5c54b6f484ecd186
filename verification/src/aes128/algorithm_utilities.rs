//! The four round transformations and their inverses, on a state of sixteen
//! bytes held in a `u128`.

use super::block::{
    block_bytes, block_from_bytes, byte_at, join_words, lemma_block_bytes_of_bytes,
    lemma_block_from_bytes_of_block, pack,
};
use super::mds::{
    circulant_product, forward_coefficients, inverse_coefficients, lemma_inverse_mix_column,
    lemma_mix_inverse_column, multiply_circulant, multiply_circulant_inverse,
};
use super::s_box::{inverse_sbox, lemma_sbox_inverse, sbox, SBox};
use vstd::prelude::*;

verus! {

/// The state with the round key `words` added to it.
pub open spec fn add_round_key_spec(state: u128, words: Seq<u32>) -> u128 {
    state ^ join_words(words)
}

/// The state with each byte replaced by its substitute.
pub open spec fn sub_bytes_spec(state: u128) -> u128 {
    block_from_bytes(Seq::new(16, |i: int| sbox(block_bytes(state)[i])))
}

/// The state with each byte replaced by the byte that it is the substitute of.
pub open spec fn inverse_sub_bytes_spec(state: u128) -> u128 {
    block_from_bytes(Seq::new(16, |i: int| inverse_sbox(block_bytes(state)[i])))
}

/// The sixteen bytes with row `row` moved left by `by` columns, cyclically.
pub open spec fn rotate_row(bytes: Seq<u8>, row: int, by: int) -> Seq<u8> {
    Seq::new(
        16,
        |i: int|
            if i % 4 == row {
                bytes[row + 4 * ((i / 4 + by) % 4)]
            } else {
                bytes[i]
            },
    )
}

/// The place from which ShiftRows takes byte `i`: the same row, as many
/// columns to the right as the row's number says, cyclically.
pub open spec fn shift_source(i: int) -> int {
    i % 4 + 4 * ((i / 4 + i % 4) % 4)
}

/// The place from which InverseShiftRows takes byte `i`: the same row, as
/// many columns to the left as the row's number says, cyclically.
pub open spec fn unshift_source(i: int) -> int {
    i % 4 + 4 * ((i / 4 + 4 - i % 4) % 4)
}

/// The state with row `r` moved left by `r` columns, for each row.
pub open spec fn shift_rows_spec(state: u128) -> u128 {
    block_from_bytes(Seq::new(16, |i: int| block_bytes(state)[shift_source(i)]))
}

/// The state with row `r` moved right by `r` columns, for each row.
pub open spec fn inverse_shift_rows_spec(state: u128) -> u128 {
    block_from_bytes(Seq::new(16, |i: int| block_bytes(state)[unshift_source(i)]))
}

/// Column `column` of the sixteen bytes.
pub open spec fn column_of(bytes: Seq<u8>, column: int) -> Seq<u8> {
    bytes.subrange(4 * column, 4 * column + 4)
}

/// The sixteen bytes with each column multiplied by the circulant matrix whose
/// first row is `k`.
pub open spec fn mixed_columns(k: Seq<u8>, bytes: Seq<u8>) -> Seq<u8> {
    circulant_product(k, column_of(bytes, 0)) + circulant_product(k, column_of(bytes, 1))
        + circulant_product(k, column_of(bytes, 2)) + circulant_product(k, column_of(bytes, 3))
}

/// The state with each column multiplied by the MixColumns matrix.
pub open spec fn mix_columns_spec(state: u128) -> u128 {
    block_from_bytes(mixed_columns(forward_coefficients(), block_bytes(state)))
}

/// The state with each column multiplied by the InverseMixColumns matrix.
pub open spec fn inverse_mix_columns_spec(state: u128) -> u128 {
    block_from_bytes(mixed_columns(inverse_coefficients(), block_bytes(state)))
}

/// The number `so_far` with `byte` put behind it as its lowest byte, cut to
/// its lowest 128 bits.
pub open spec fn pushed(so_far: u128, byte: u8) -> u128 {
    (so_far << 8) | (byte as u128)
}

/// The number that the first `n` of `bytes` spell, most significant first,
/// cut to its lowest 128 bits.
pub open spec fn merged(bytes: Seq<u8>, n: nat) -> u128
    decreases n,
{
    if n == 0 {
        0
    } else {
        pushed(merged(bytes, (n - 1) as nat), bytes[n - 1])
    }
}

/// The place that takes the byte found at `positions[i]`: the entry before
/// it, and the last entry for the first.
pub open spec fn target(positions: Seq<u32>, i: int) -> int {
    if i == 0 {
        positions[positions.len() - 1] as int
    } else {
        positions[i - 1] as int
    }
}

/// The bytes `start` after the first `n` moves along `positions`: move `i`
/// puts the byte that `start` has at `positions[i]` into
/// `target(positions, i)`.
pub open spec fn moved(start: Seq<u8>, positions: Seq<u32>, n: nat) -> Seq<u8>
    decreases n,
{
    if n == 0 {
        start
    } else {
        moved(start, positions, (n - 1) as nat).update(
            target(positions, n - 1),
            start[positions[n - 1] as int],
        )
    }
}

proof fn lemma_xor_twice(state: u128, key: u128)
    by (bit_vector)
    ensures
        (state ^ key) ^ key == state,
{
}

/// Adding the same round key twice gives the state back.
pub proof fn lemma_add_round_key_twice(state: u128, words: Seq<u32>)
    ensures
        add_round_key_spec(add_round_key_spec(state, words), words) == state,
{
    lemma_xor_twice(state, join_words(words));
}

/// SubBytes and InverseSubBytes undo each other.
pub proof fn lemma_inverse_sub_bytes(state: u128)
    ensures
        inverse_sub_bytes_spec(sub_bytes_spec(state)) == state,
        sub_bytes_spec(inverse_sub_bytes_spec(state)) == state,
{
    let bytes = block_bytes(state);
    let forward = Seq::new(16, |i: int| sbox(bytes[i]));
    let backward = Seq::new(16, |i: int| inverse_sbox(bytes[i]));
    lemma_block_bytes_of_bytes(forward);
    lemma_block_bytes_of_bytes(backward);
    assert forall|i: int| 0 <= i < 16 implies inverse_sbox(forward[i]) == bytes[i] && sbox(
        backward[i],
    ) == bytes[i] by {
        lemma_sbox_inverse(bytes[i]);
    }
    assert(Seq::new(16, |i: int| inverse_sbox(forward[i])) =~= bytes);
    assert(Seq::new(16, |i: int| sbox(backward[i])) =~= bytes);
    lemma_block_from_bytes_of_block(state);
}

/// ShiftRows and InverseShiftRows undo each other.
pub proof fn lemma_inverse_shift_rows(state: u128)
    ensures
        inverse_shift_rows_spec(shift_rows_spec(state)) == state,
        shift_rows_spec(inverse_shift_rows_spec(state)) == state,
{
    let bytes = block_bytes(state);
    let forward = Seq::new(16, |i: int| bytes[shift_source(i)]);
    let backward = Seq::new(16, |i: int| bytes[unshift_source(i)]);
    lemma_block_bytes_of_bytes(forward);
    lemma_block_bytes_of_bytes(backward);
    assert forall|i: int| 0 <= i < 16 implies forward[unshift_source(i)] == bytes[i]
        && backward[shift_source(i)] == bytes[i] by {
        lemma_shift_sources(i);
    }
    assert(Seq::new(16, |i: int| forward[unshift_source(i)]) =~= bytes);
    assert(Seq::new(16, |i: int| backward[shift_source(i)]) =~= bytes);
    lemma_block_from_bytes_of_block(state);
}

/// The two ways of taking bytes undo each other, and stay within the state.
pub proof fn lemma_shift_sources(i: int)
    requires
        0 <= i < 16,
    ensures
        0 <= shift_source(i) < 16,
        0 <= unshift_source(i) < 16,
        shift_source(unshift_source(i)) == i,
        unshift_source(shift_source(i)) == i,
{
}

/// Whether multiplying a column by the circulant matrix of `first` and then
/// by that of `second` gives the column back, for every column.
pub open spec fn undoes(second: Seq<u8>, first: Seq<u8>) -> bool {
    forall|c: Seq<u8>|
        c.len() == 4 ==> circulant_product(second, #[trigger] circulant_product(first, c)) == c
}

proof fn lemma_mixed_twice(first: Seq<u8>, second: Seq<u8>, bytes: Seq<u8>)
    requires
        bytes.len() == 16,
        undoes(second, first),
    ensures
        mixed_columns(first, bytes).len() == 16,
        mixed_columns(second, mixed_columns(first, bytes)) == bytes,
{
    let once = mixed_columns(first, bytes);
    assert forall|column: int| 0 <= column < 4 implies circulant_product(
        second,
        #[trigger] column_of(once, column),
    ) == column_of(bytes, column) by {
        assert(column_of(once, column) =~= circulant_product(first, column_of(bytes, column)));
    }
    let twice = mixed_columns(second, once);
    assert forall|i: int| 0 <= i < 16 implies twice[i] == bytes[i] by {
        let column = i / 4;
        assert(column_of(bytes, column)[i % 4] == bytes[i]);
        assert(twice[i] == circulant_product(second, column_of(once, column))[i % 4]);
    }
    assert(twice =~= bytes);
}

proof fn lemma_unmixed(first: Seq<u8>, second: Seq<u8>, state: u128)
    requires
        undoes(second, first),
    ensures
        block_from_bytes(
            mixed_columns(
                second,
                block_bytes(block_from_bytes(mixed_columns(first, block_bytes(state)))),
            ),
        ) == state,
{
    let bytes = block_bytes(state);
    lemma_mixed_twice(first, second, bytes);
    lemma_block_bytes_of_bytes(mixed_columns(first, bytes));
    lemma_block_from_bytes_of_block(state);
}

/// MixColumns and InverseMixColumns undo each other.
pub proof fn lemma_inverse_mix_columns(state: u128)
    ensures
        inverse_mix_columns_spec(mix_columns_spec(state)) == state,
        mix_columns_spec(inverse_mix_columns_spec(state)) == state,
{
    assert(undoes(inverse_coefficients(), forward_coefficients())) by {
        assert forall|c: Seq<u8>| c.len() == 4 implies circulant_product(
            inverse_coefficients(),
            #[trigger] circulant_product(forward_coefficients(), c),
        ) == c by {
            lemma_inverse_mix_column(c);
        }
    }
    assert(undoes(forward_coefficients(), inverse_coefficients())) by {
        assert forall|c: Seq<u8>| c.len() == 4 implies circulant_product(
            forward_coefficients(),
            #[trigger] circulant_product(inverse_coefficients(), c),
        ) == c by {
            lemma_mix_inverse_column(c);
        }
    }
    lemma_unmixed(forward_coefficients(), inverse_coefficients(), state);
    lemma_unmixed(inverse_coefficients(), forward_coefficients(), state);
}

/// `state` with the eight bits from bit `shift` on replaced by `byte`.
pub open spec fn replaced(state: u128, byte: u8, shift: u32) -> u128 {
    (state & (!((0xff as u128) << shift))) | ((byte as u128) << shift)
}

proof fn lemma_replace_byte(state: u128, byte: u8, position: u32, other: u32)
    by (bit_vector)
    requires
        position < 16,
        other < 16,
    ensures
        byte_at(replaced(state, byte, ((15 - position) * 8) as u32), other) == (if other
            == position {
            byte
        } else {
            byte_at(state, other)
        }),
{
}

proof fn lemma_merged_is_pack(
    b0: u8,
    b1: u8,
    b2: u8,
    b3: u8,
    b4: u8,
    b5: u8,
    b6: u8,
    b7: u8,
    b8: u8,
    b9: u8,
    b10: u8,
    b11: u8,
    b12: u8,
    b13: u8,
    b14: u8,
    b15: u8,
)
    by (bit_vector)
    ensures
        ({
            let m0 = 0u128;
            let m1 = pushed(m0, b0);
            let m2 = pushed(m1, b1);
            let m3 = pushed(m2, b2);
            let m4 = pushed(m3, b3);
            let m5 = pushed(m4, b4);
            let m6 = pushed(m5, b5);
            let m7 = pushed(m6, b6);
            let m8 = pushed(m7, b7);
            let m9 = pushed(m8, b8);
            let m10 = pushed(m9, b9);
            let m11 = pushed(m10, b10);
            let m12 = pushed(m11, b11);
            let m13 = pushed(m12, b12);
            let m14 = pushed(m13, b13);
            let m15 = pushed(m14, b14);
            let m16 = pushed(m15, b15);
            m16 == pack(b0, b1, b2, b3, b4, b5, b6, b7, b8, b9, b10, b11, b12, b13, b14, b15)
        }),
{
}

/// Sixteen bytes merged are the block that has them as its bytes.
pub proof fn lemma_merged_block(bytes: Seq<u8>)
    requires
        bytes.len() == 16,
    ensures
        merged(bytes, 16) == block_from_bytes(bytes),
{
    reveal_with_fuel(merged, 17);
    lemma_merged_is_pack(
        bytes[0],
        bytes[1],
        bytes[2],
        bytes[3],
        bytes[4],
        bytes[5],
        bytes[6],
        bytes[7],
        bytes[8],
        bytes[9],
        bytes[10],
        bytes[11],
        bytes[12],
        bytes[13],
        bytes[14],
        bytes[15],
    );
}

/// Adds the round key `keys` to `state`: the exclusive or of the two, with
/// the first word of the key in the most significant place.
pub fn add_round_key(state: u128, keys: &[u32; 4]) -> (r: u128)
    ensures
        r == add_round_key_spec(state, keys@),
{
    state ^ (((keys[0] as u128) << 96) | ((keys[1] as u128) << 64) | ((keys[2] as u128) << 32)
        | (keys[3] as u128))
}

/// Replaces each byte of `state` by its substitute.
pub fn sub_bytes(state: u128) -> (r: u128)
    ensures
        r == sub_bytes_spec(state),
{
    let table = SBox::new();
    assert(table.apply_all(block_bytes(state)) =~= Seq::new(
        16,
        |i: int| sbox(block_bytes(state)[i]),
    ));
    table.byte_wise_s_word_128(state)
}

/// Replaces each byte of `state` by the byte that it is the substitute of.
pub fn inverse_sub_bytes(state: u128) -> (r: u128)
    ensures
        r == inverse_sub_bytes_spec(state),
{
    let table = SBox::inverse_new();
    assert(table.apply_all(block_bytes(state)) =~= Seq::new(
        16,
        |i: int| inverse_sbox(block_bytes(state)[i]),
    ));
    table.byte_wise_s_word_128(state)
}

/// Moves row `r` of the state left by `r` columns, for each row.
pub fn shift_rows(state: u128) -> (r: u128)
    ensures
        r == shift_rows_spec(state),
{
    let third = third_row_right_shift(state);
    let second = second_row_shift(third);
    let r = first_row_left_shift(second);
    proof {
        assert(block_bytes(r) =~= Seq::new(16, |i: int| block_bytes(state)[shift_source(i)]));
        lemma_block_from_bytes_of_block(r);
    }
    r
}

/// Moves row `r` of the state right by `r` columns, for each row.
pub fn inverse_shift_rows(state: u128) -> (r: u128)
    ensures
        r == inverse_shift_rows_spec(state),
{
    let third = third_row_left_shift(state);
    let second = second_row_shift(third);
    let r = first_row_right_shift(second);
    proof {
        assert(block_bytes(r) =~= Seq::new(
            16,
            |i: int| block_bytes(state)[unshift_source(i)],
        ));
        lemma_block_from_bytes_of_block(r);
    }
    r
}

/// Multiplies each column of the state by the MixColumns matrix.
pub fn mix_columns(state: u128) -> (r: u128)
    ensures
        r == mix_columns_spec(state),
{
    mix_column_processor(
        state,
        multiply_circulant,
        Ghost(|column: Seq<u8>| circulant_product(forward_coefficients(), column)),
    )
}

/// Multiplies each column of the state by the InverseMixColumns matrix.
pub fn inverse_mix_columns(state: u128) -> (r: u128)
    ensures
        r == inverse_mix_columns_spec(state),
{
    mix_column_processor(
        state,
        multiply_circulant_inverse,
        Ghost(|column: Seq<u8>| circulant_product(inverse_coefficients(), column)),
    )
}

/// Hands each column of the state to `f`, which computes `mixed` of it, and
/// merges what comes back, column after column.
fn mix_column_processor<F: Fn(&[u8]) -> Vec<u8>>(
    state: u128,
    f: F,
    Ghost(mixed): Ghost<spec_fn(Seq<u8>) -> Seq<u8>>,
) -> (r: u128)
    requires
        forall|column: &[u8]| column@.len() == 4 ==> call_requires(f, (column,)),
        forall|column: &[u8], out: Vec<u8>|
            column@.len() == 4 && call_ensures(f, (column,), out) ==> out@ == mixed(column@),
        forall|column: Seq<u8>| column.len() == 4 ==> (#[trigger] mixed(column)).len() == 4,
    ensures
        r == block_from_bytes(
            mixed(column_of(block_bytes(state), 0)) + mixed(column_of(block_bytes(state), 1))
                + mixed(column_of(block_bytes(state), 2)) + mixed(
                column_of(block_bytes(state), 3),
            ),
        ),
{
    let bytes = split_into_bytes(state);
    let m0 = f(&bytes[0..4]);
    let m1 = f(&bytes[4..8]);
    let m2 = f(&bytes[8..12]);
    let m3 = f(&bytes[12..16]);
    let mut mixed_bytes: Vec<u8> = Vec::with_capacity(16);
    mixed_bytes.extend_from_slice(m0.as_slice());
    mixed_bytes.extend_from_slice(m1.as_slice());
    mixed_bytes.extend_from_slice(m2.as_slice());
    mixed_bytes.extend_from_slice(m3.as_slice());
    assert(mixed_bytes@ =~= m0@ + m1@ + m2@ + m3@);
    merge_bytes(mixed_bytes)
}

/// Splits `state` into its sixteen bytes, most significant first.
pub fn split_into_bytes(state: u128) -> (r: Vec<u8>)
    ensures
        r@ == block_bytes(state),
{
    let mut bytes: Vec<u8> = Vec::with_capacity(16);
    let mut position: u32 = 0;
    while position < 16
        invariant
            position <= 16,
            bytes@ == block_bytes(state).take(position as int),
        decreases 16 - position,
    {
        bytes.push(nth_byte(state, position));
        position += 1;
        assert(bytes@ =~= block_bytes(state).take(position as int));
    }
    assert(block_bytes(state).take(16) =~= block_bytes(state));
    bytes
}

/// Reads `bytes` as one number, most significant byte first. Of more than
/// sixteen bytes the last sixteen count.
pub fn merge_bytes(bytes: Vec<u8>) -> (r: u128)
    ensures
        r == merged(bytes@, bytes@.len()),
        bytes@.len() == 16 ==> r == block_from_bytes(bytes@),
{
    let mut state: u128 = 0;
    let mut i: usize = 0;
    while i < bytes.len()
        invariant
            i <= bytes.len(),
            state == merged(bytes@, i as nat),
        decreases bytes.len() - i,
    {
        state = (state << 8) | (bytes[i] as u128);
        i += 1;
    }
    proof {
        if bytes@.len() == 16 {
            lemma_merged_block(bytes@);
        }
    }
    state
}

/// Moves row 1 left by one column.
fn first_row_left_shift(state: u128) -> (r: u128)
    ensures
        block_bytes(r) == rotate_row(block_bytes(state), 1, 1),
{
    let r = shift_bytes(state, vec![1, 5, 9, 13]);
    proof {
        reveal_with_fuel(moved, 5);
        assert(block_bytes(r) =~= rotate_row(block_bytes(state), 1, 1));
    }
    r
}

/// Moves row 1 right by one column.
fn first_row_right_shift(state: u128) -> (r: u128)
    ensures
        block_bytes(r) == rotate_row(block_bytes(state), 1, 3),
{
    let r = shift_bytes(state, vec![13, 9, 5, 1]);
    proof {
        reveal_with_fuel(moved, 5);
        assert(block_bytes(r) =~= rotate_row(block_bytes(state), 1, 3));
    }
    r
}

/// Moves row 2 by two columns: its bytes change places in pairs.
fn second_row_shift(state: u128) -> (r: u128)
    ensures
        block_bytes(r) == rotate_row(block_bytes(state), 2, 2),
{
    let half = shift_bytes(state, vec![2, 10]);
    let r = shift_bytes(half, vec![6, 14]);
    proof {
        reveal_with_fuel(moved, 3);
        assert(block_bytes(r) =~= rotate_row(block_bytes(state), 2, 2));
    }
    r
}

/// Moves row 3 right by one column.
fn third_row_right_shift(state: u128) -> (r: u128)
    ensures
        block_bytes(r) == rotate_row(block_bytes(state), 3, 3),
{
    let r = shift_bytes(state, vec![15, 11, 7, 3]);
    proof {
        reveal_with_fuel(moved, 5);
        assert(block_bytes(r) =~= rotate_row(block_bytes(state), 3, 3));
    }
    r
}

/// Moves row 3 left by one column.
fn third_row_left_shift(state: u128) -> (r: u128)
    ensures
        block_bytes(r) == rotate_row(block_bytes(state), 3, 1),
{
    let r = shift_bytes(state, vec![3, 7, 11, 15]);
    proof {
        reveal_with_fuel(moved, 5);
        assert(block_bytes(r) =~= rotate_row(block_bytes(state), 3, 1));
    }
    r
}

/// Moves bytes of `state` along `positions`: the byte at each position goes
/// to the position listed before it, and the byte at the first goes to the
/// last. Every byte moved is read from `state` as it came in.
fn shift_bytes(state: u128, positions: Vec<u32>) -> (r: u128)
    requires
        positions@.len() >= 1,
        forall|i: int| 0 <= i < positions@.len() ==> positions@[i] < 16,
    ensures
        block_bytes(r) == moved(block_bytes(state), positions@, positions@.len()),
{
    let n = positions.len();
    let mut out = state;
    let mut i: usize = 0;
    while i < n
        invariant
            i <= n,
            n == positions@.len(),
            n >= 1,
            forall|i: int| 0 <= i < positions@.len() ==> positions@[i] < 16,
            block_bytes(out) == moved(block_bytes(state), positions@, i as nat),
        decreases n - i,
    {
        let to = if i == 0 {
            positions[n - 1]
        } else {
            positions[i - 1]
        };
        let byte = nth_byte(state, positions[i]);
        out = replace_byte(out, byte, to);
        i += 1;
    }
    out
}

/// Puts `byte` at `position` in `state`.
pub fn replace_byte(state: u128, byte: u8, position: u32) -> (r: u128)
    requires
        position < 16,
    ensures
        block_bytes(r) == block_bytes(state).update(position as int, byte),
{
    let shift: u32 = (15 - position) * 8;
    let r = (state & (!((0xff as u128) << shift))) | ((byte as u128) << shift);
    proof {
        assert forall|other: u32| other < 16 implies byte_at(r, other) == (if other == position {
            byte
        } else {
            byte_at(state, other)
        }) by {
            lemma_replace_byte(state, byte, position, other);
        }
        assert(block_bytes(r) =~= block_bytes(state).update(position as int, byte));
    }
    r
}

/// Byte `position` of `word`, counted from the most significant byte.
pub fn nth_byte(word: u128, position: u32) -> (r: u8)
    requires
        position < 16,
    ensures
        r == block_bytes(word)[position as int],
{
    ((word >> ((15 - position) * 8)) & 0xff) as u8
}

} // verus!
