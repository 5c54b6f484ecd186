//! Blocks and words as bytes.
//!
//! A block is held in a `u128` and a word in a `u32`. Byte 0 is the most
//! significant byte of either, and byte `i` of a block sits in row `i % 4` and
//! column `i / 4` of the cipher's 4x4 state.

use vstd::prelude::*;

verus! {

/// Byte `position` of `word`, counted from the most significant byte.
pub open spec fn byte_at(word: u128, position: u32) -> u8 {
    ((word >> (((15 - position) * 8) as u32)) & 0xff) as u8
}

/// The sixteen bytes of `word`, most significant first.
pub open spec fn block_bytes(word: u128) -> Seq<u8> {
    Seq::new(16, |i: int| byte_at(word, i as u32))
}

/// The block whose bytes, most significant first, are the sixteen arguments.
pub open spec fn pack(
    b0: u8,
    b1: u8,
    b2: u8,
    b3: u8,
    b4: u8,
    b5: u8,
    b6: u8,
    b7: u8,
    b8: u8,
    b9: u8,
    b10: u8,
    b11: u8,
    b12: u8,
    b13: u8,
    b14: u8,
    b15: u8,
) -> u128 {
    ((b0 as u128) << 120) | ((b1 as u128) << 112) | ((b2 as u128) << 104) |
    ((b3 as u128) << 96) | ((b4 as u128) << 88) | ((b5 as u128) << 80) | ((b6 as u128) << 72) |
    ((b7 as u128) << 64) | ((b8 as u128) << 56) | ((b9 as u128) << 48) | ((b10 as u128) << 40) |
    ((b11 as u128) << 32) | ((b12 as u128) << 24) | ((b13 as u128) << 16) |
    ((b14 as u128) << 8) | ((b15 as u128) << 0)
}

/// The block whose bytes are the first sixteen entries of `bytes`.
pub open spec fn block_from_bytes(bytes: Seq<u8>) -> u128 {
    pack(
        bytes[0], bytes[1], bytes[2], bytes[3], bytes[4], bytes[5], bytes[6], bytes[7],
        bytes[8], bytes[9], bytes[10], bytes[11], bytes[12], bytes[13], bytes[14], bytes[15],
    )
}

/// The four bytes of `word`, most significant first.
pub open spec fn word_bytes(word: u32) -> Seq<u8> {
    seq![
        ((word >> 24) & 0xff) as u8,
        ((word >> 16) & 0xff) as u8,
        ((word >> 8) & 0xff) as u8,
        (word & 0xff) as u8,
    ]
}

/// The word whose bytes, most significant first, are the four arguments.
pub open spec fn pack_word(b0: u8, b1: u8, b2: u8, b3: u8) -> u32 {
    ((b0 as u32) << 24) | ((b1 as u32) << 16) | ((b2 as u32) << 8) | (b3 as u32)
}

/// The word whose bytes are the first four entries of `bytes`.
pub open spec fn word_from_bytes(bytes: Seq<u8>) -> u32 {
    pack_word(bytes[0], bytes[1], bytes[2], bytes[3])
}

/// The block whose words, most significant first, are the four arguments.
pub open spec fn join(w0: u32, w1: u32, w2: u32, w3: u32) -> u128 {
    ((w0 as u128) << 96) | ((w1 as u128) << 64) | ((w2 as u128) << 32) | (w3 as u128)
}

/// The block made of the first four entries of `words`, the first of them in
/// the most significant place.
pub open spec fn join_words(words: Seq<u32>) -> u128 {
    join(words[0], words[1], words[2], words[3])
}

/// The four words of `bits`, most significant first.
pub open spec fn split_words(bits: u128) -> Seq<u32> {
    seq![
        ((bits >> 96) & 0xffff_ffff) as u32,
        ((bits >> 64) & 0xffff_ffff) as u32,
        ((bits >> 32) & 0xffff_ffff) as u32,
        (bits & 0xffff_ffff) as u32,
    ]
}

proof fn lemma_bytes_of_pack(
    word: u128,
    b0: u8,
    b1: u8,
    b2: u8,
    b3: u8,
    b4: u8,
    b5: u8,
    b6: u8,
    b7: u8,
    b8: u8,
    b9: u8,
    b10: u8,
    b11: u8,
    b12: u8,
    b13: u8,
    b14: u8,
    b15: u8,
)
    by (bit_vector)
    requires
        word == pack(b0, b1, b2, b3, b4, b5, b6, b7, b8, b9, b10, b11, b12, b13, b14, b15),
    ensures
        byte_at(word, 0) == b0,
        byte_at(word, 1) == b1,
        byte_at(word, 2) == b2,
        byte_at(word, 3) == b3,
        byte_at(word, 4) == b4,
        byte_at(word, 5) == b5,
        byte_at(word, 6) == b6,
        byte_at(word, 7) == b7,
        byte_at(word, 8) == b8,
        byte_at(word, 9) == b9,
        byte_at(word, 10) == b10,
        byte_at(word, 11) == b11,
        byte_at(word, 12) == b12,
        byte_at(word, 13) == b13,
        byte_at(word, 14) == b14,
        byte_at(word, 15) == b15,
{
}

proof fn lemma_pack_of_bytes(word: u128)
    by (bit_vector)
    ensures
        pack(
            byte_at(word, 0), byte_at(word, 1), byte_at(word, 2), byte_at(word, 3),
            byte_at(word, 4), byte_at(word, 5), byte_at(word, 6), byte_at(word, 7),
            byte_at(word, 8), byte_at(word, 9), byte_at(word, 10), byte_at(word, 11),
            byte_at(word, 12), byte_at(word, 13), byte_at(word, 14), byte_at(word, 15),
        ) == word,
{
}

proof fn lemma_word_round_trips(word: u32, b0: u8, b1: u8, b2: u8, b3: u8)
    by (bit_vector)
    ensures
        pack_word(
            ((word >> 24) & 0xff) as u8,
            ((word >> 16) & 0xff) as u8,
            ((word >> 8) & 0xff) as u8,
            (word & 0xff) as u8,
        ) == word,
        ((pack_word(b0, b1, b2, b3) >> 24) & 0xff) as u8 == b0,
        ((pack_word(b0, b1, b2, b3) >> 16) & 0xff) as u8 == b1,
        ((pack_word(b0, b1, b2, b3) >> 8) & 0xff) as u8 == b2,
        (pack_word(b0, b1, b2, b3) & 0xff) as u8 == b3,
{
}

proof fn lemma_split_round_trips(bits: u128, w0: u32, w1: u32, w2: u32, w3: u32)
    by (bit_vector)
    ensures
        join(
            ((bits >> 96) & 0xffff_ffff) as u32,
            ((bits >> 64) & 0xffff_ffff) as u32,
            ((bits >> 32) & 0xffff_ffff) as u32,
            (bits & 0xffff_ffff) as u32,
        ) == bits,
        ((join(w0, w1, w2, w3) >> 96) & 0xffff_ffff) as u32 == w0,
        ((join(w0, w1, w2, w3) >> 64) & 0xffff_ffff) as u32 == w1,
        ((join(w0, w1, w2, w3) >> 32) & 0xffff_ffff) as u32 == w2,
        (join(w0, w1, w2, w3) & 0xffff_ffff) as u32 == w3,
{
}

/// A block is its sixteen bytes, put together again.
pub proof fn lemma_block_from_bytes_of_block(word: u128)
    ensures
        block_from_bytes(block_bytes(word)) == word,
{
    lemma_pack_of_bytes(word);
}

/// Sixteen bytes put together into a block are the bytes of that block.
pub proof fn lemma_block_bytes_of_bytes(bytes: Seq<u8>)
    requires
        bytes.len() == 16,
    ensures
        block_bytes(block_from_bytes(bytes)) == bytes,
{
    lemma_bytes_of_pack(
        block_from_bytes(bytes),
        bytes[0], bytes[1], bytes[2], bytes[3], bytes[4], bytes[5], bytes[6], bytes[7],
        bytes[8], bytes[9], bytes[10], bytes[11], bytes[12], bytes[13], bytes[14], bytes[15],
    );
    assert(block_bytes(block_from_bytes(bytes)) =~= bytes);
}

/// Blocks with the same bytes are the same block.
pub proof fn lemma_block_bytes_injective(first: u128, second: u128)
    requires
        block_bytes(first) == block_bytes(second),
    ensures
        first == second,
{
    lemma_block_from_bytes_of_block(first);
    lemma_block_from_bytes_of_block(second);
}

/// A word is its four bytes, put together again.
pub proof fn lemma_word_from_bytes_of_word(word: u32)
    ensures
        word_from_bytes(word_bytes(word)) == word,
{
    lemma_word_round_trips(word, 0, 0, 0, 0);
}

/// Four bytes put together into a word are the bytes of that word.
pub proof fn lemma_word_bytes_of_bytes(bytes: Seq<u8>)
    requires
        bytes.len() == 4,
    ensures
        word_bytes(word_from_bytes(bytes)) == bytes,
{
    lemma_word_round_trips(0, bytes[0], bytes[1], bytes[2], bytes[3]);
    assert(word_bytes(word_from_bytes(bytes)) =~= bytes);
}

/// A block is its four words, joined again.
pub proof fn lemma_join_of_split(bits: u128)
    ensures
        join_words(split_words(bits)) == bits,
{
    lemma_split_round_trips(bits, 0, 0, 0, 0);
}

/// Four words joined into a block are the words of that block.
pub proof fn lemma_split_of_join(words: Seq<u32>)
    requires
        words.len() == 4,
    ensures
        split_words(join_words(words)) == words,
{
    lemma_split_round_trips(0, words[0], words[1], words[2], words[3]);
    assert(split_words(join_words(words)) =~= words);
}

} // verus!
