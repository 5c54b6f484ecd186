//! The key schedule: the eleven round keys that a 128-bit key expands to.

use super::block::{pack_word, split_words, word_bytes, word_from_bytes};
use super::mds::double;
use super::s_box::{sbox, SBox};
use vstd::prelude::*;

verus! {

/// The round constant of round `round`, counted from 1: the element 1 of
/// GF(2^8), doubled once for each round before it.
pub open spec fn round_constant(round: nat) -> u8
    decreases round,
{
    if round <= 1 {
        1
    } else {
        double(round_constant((round - 1) as nat))
    }
}

/// The word whose most significant byte is the round constant of `round`.
pub open spec fn round_constant_word(round: nat) -> u32 {
    pack_word(round_constant(round), 0, 0, 0)
}

/// The word `word` with its bytes moved one place to the left, cyclically.
pub open spec fn rot_word(word: u32) -> u32 {
    let bytes = word_bytes(word);
    pack_word(bytes[1], bytes[2], bytes[3], bytes[0])
}

/// The word `word` with each byte replaced by its substitute.
pub open spec fn sub_word(word: u32) -> u32 {
    word_from_bytes(Seq::new(4, |i: int| sbox(word_bytes(word)[i])))
}

/// The round key of round `round` (counted from 1), from the four words
/// `previous` of the round key before it.
pub open spec fn next_round_key(previous: Seq<u32>, round: nat) -> Seq<u32> {
    let w0 = previous[0] ^ (sub_word(rot_word(previous[3])) ^ round_constant_word(round));
    let w1 = previous[1] ^ w0;
    let w2 = previous[2] ^ w1;
    let w3 = previous[3] ^ w2;
    seq![w0, w1, w2, w3]
}

/// The words of round key `round` in the schedule `words`.
pub open spec fn round_words(words: Seq<u32>, round: int) -> Seq<u32> {
    words.subrange(4 * round, 4 * round + 4)
}

/// The schedule of `key` up to round `rounds`: the four words of the key,
/// then four words for each round, each made from the four before them.
pub open spec fn expand_key(key: u128, rounds: nat) -> Seq<u32>
    decreases rounds,
{
    if rounds == 0 {
        split_words(key)
    } else {
        let before = expand_key(key, (rounds - 1) as nat);
        before + next_round_key(round_words(before, rounds - 1), rounds)
    }
}

/// A schedule up to round `rounds` holds four words for the key and four for
/// each round.
pub proof fn lemma_expand_key_len(key: u128, rounds: nat)
    ensures
        expand_key(key, rounds).len() == 4 * (rounds + 1),
    decreases rounds,
{
    if rounds > 0 {
        lemma_expand_key_len(key, (rounds - 1) as nat);
    }
}

/// The schedule is a function of the key: two schedules expanded from one
/// key to the same round hold the same words.
pub proof fn lemma_schedule_determined(first: RoundKey, second: RoundKey, key: u128, rounds: nat)
    requires
        first@ == expand_key(key, rounds),
        second@ == expand_key(key, rounds),
    ensures
        first@ == second@,
{
}

proof fn lemma_round_constants()
    by (bit_vector)
    ensures
        double(0x01) == 0x02,
        double(0x02) == 0x04,
        double(0x04) == 0x08,
        double(0x08) == 0x10,
        double(0x10) == 0x20,
        double(0x20) == 0x40,
        double(0x40) == 0x80,
        double(0x80) == 0x1b,
        double(0x1b) == 0x36,
{
}

proof fn lemma_word_operations(word: u32, rc: u8, a: u32, b: u32, c: u32)
    by (bit_vector)
    ensures
        (word << 8) | ((word & 0xff000000) >> 24) == pack_word(
            ((word >> 16) & 0xff) as u8,
            ((word >> 8) & 0xff) as u8,
            (word & 0xff) as u8,
            ((word >> 24) & 0xff) as u8,
        ),
        (rc as u32) << 24 == pack_word(rc, 0, 0, 0),
        a ^ b ^ c == a ^ (b ^ c),
{
}

/// The round keys of a cipher key, four words each, round 0 first.
pub struct RoundKey {
    pub round_keys: Vec<u32>,
}

impl View for RoundKey {
    type V = Seq<u32>;

    open spec fn view(&self) -> Seq<u32> {
        self.round_keys@
    }
}

/// The round constants of rounds 1 to 10.
pub const RC: [u8; 10] = [0x01, 0x02, 0x04, 0x08, 0x10, 0x20, 0x40, 0x80, 0x1b, 0x36];

impl RoundKey {
    /// Expands `key` into its schedule up to round `round_count`.
    pub fn new(key: u128, round_count: u32) -> (r: Self)
        requires
            round_count <= 10,
        ensures
            r@ == expand_key(key, round_count as nat),
            r@.len() == 4 * (round_count + 1),
    {
        let sbox = SBox::new();
        let mut prev: [u32; 4] = Self::split_words(key);
        let mut round_keys: Vec<u32> = Vec::with_capacity(44);
        round_keys.extend_from_slice(&prev);
        assert(round_keys@ =~= expand_key(key, 0));
        let mut round: u32 = 0;
        while round < round_count
            invariant
                round <= round_count <= 10,
                !sbox.is_inverse(),
                round_keys@ == expand_key(key, round as nat),
                round_keys@.len() == 4 * (round + 1),
                prev@ == round_words(round_keys@, round as int),
            decreases round_count - round,
        {
            let ghost before = round_keys@;
            let ghost previous = prev@;
            let last = Self::left_cyclic_byte_rotate(prev[3]);
            let substituted = sbox.byte_wise_s_word_32(last);
            let constant = Self::r_con(round);
            proof {
                lemma_word_operations(0, 0, prev[0], substituted, constant);
                assert(sbox.apply_all(word_bytes(last)) =~= Seq::new(
                    4,
                    |i: int| self::sbox(word_bytes(last)[i]),
                ));
            }
            prev[0] = prev[0] ^ substituted ^ constant;
            prev[1] = prev[1] ^ prev[0];
            prev[2] = prev[2] ^ prev[1];
            prev[3] = prev[3] ^ prev[2];

            round_keys.push(prev[0]);
            round_keys.push(prev[1]);
            round_keys.push(prev[2]);
            round_keys.push(prev[3]);
            round += 1;
            proof {
                assert(prev@ =~= next_round_key(previous, round as nat));
                assert(round_keys@ =~= before + prev@);
                assert(prev@ =~= round_words(round_keys@, round as int));
            }
        }
        RoundKey { round_keys }
    }

    /// The four words of round key `round`.
    pub fn get(&self, round: usize) -> (r: &[u32])
        requires
            4 * round + 4 <= self@.len(),
        ensures
            r@ == round_words(self@, round as int),
    {
        let words = self.round_keys.as_slice();
        assert(4 * round + 4 <= words.len());
        let index = round * 4;
        &words[index..index + 4]
    }

    /// The four words of `bits`, most significant first.
    pub fn split_words(bits: u128) -> (r: [u32; 4])
        ensures
            r@ == split_words(bits),
    {
        let first_word = ((bits >> 96) & 0xffff_ffff) as u32;
        let second_word = ((bits >> 64) & 0xffff_ffff) as u32;
        let third_word = ((bits >> 32) & 0xffff_ffff) as u32;
        let fourth_word = (bits & 0xffff_ffff) as u32;
        let r = [first_word, second_word, third_word, fourth_word];
        assert(r@ =~= split_words(bits));
        r
    }

    /// Moves the bytes of `bytes` one place to the left, cyclically.
    pub fn left_cyclic_byte_rotate(bytes: u32) -> (r: u32)
        ensures
            r == rot_word(bytes),
    {
        proof {
            lemma_word_operations(bytes, 0, 0, 0, 0);
        }
        (bytes << 8) | ((bytes & 0xff000000) >> 24)
    }

    /// The round constant word of round `round + 1`.
    pub fn r_con(round: u32) -> (r: u32)
        requires
            round < 10,
        ensures
            r == round_constant_word((round + 1) as nat),
    {
        proof {
            lemma_round_constants();
            reveal_with_fuel(round_constant, 11);
            lemma_word_operations(0, RC[round as int], 0, 0, 0);
        }
        (RC[round as usize] as u32) << 24
    }
}

} // verus!
