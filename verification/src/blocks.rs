//! Byte strings cut into 128-bit blocks.

use crate::aes128::algorithm_utilities::merge_bytes;
use crate::aes128::block::block_from_bytes;
use std::collections::HashSet;
use vstd::prelude::*;
use vstd::slice::slice_to_vec;

verus! {

/// Block `i` of `bytes`: the sixteen bytes from place `16 * i` on, put
/// together with the first of them in the most significant place.
pub open spec fn block_of(bytes: Seq<u8>, i: int) -> u128 {
    block_from_bytes(bytes.subrange(16 * i, 16 * i + 16))
}

/// The whole blocks of sixteen bytes in `bytes`, in their order. Bytes after
/// the last whole block are left out.
pub fn bytes_to_blocks(bytes: &Vec<u8>) -> (r: Vec<u128>)
    ensures
        r@.len() == bytes@.len() / 16,
        forall|i: int| 0 <= i < r@.len() ==> r@[i] == block_of(bytes@, i),
{
    let len = bytes.len();
    let count = len / 16;
    let mut blocks: Vec<u128> = Vec::new();
    let mut i: usize = 0;
    while i < count
        invariant
            i <= count,
            len == bytes@.len(),
            count == len / 16,
            blocks@.len() == i,
            forall|j: int| 0 <= j < i ==> blocks@[j] == block_of(bytes@, j),
        decreases count - i,
    {
        let chunk = slice_to_vec(&bytes.as_slice()[16 * i..16 * i + 16]);
        blocks.push(merge_bytes(chunk));
        i += 1;
    }
    blocks
}

/// How many of `blocks` repeat a block that came before them.
pub fn repeated_blocks(blocks: &Vec<u128>) -> (r: usize)
    ensures
        r == blocks@.len() - blocks@.to_set().len(),
{
    let mut seen: HashSet<u128> = HashSet::new();
    let mut i: usize = 0;
    while i < blocks.len()
        invariant
            i <= blocks.len(),
            seen@ == blocks@.take(i as int).to_set(),
            seen@.finite(),
            seen@.len() <= i,
        decreases blocks.len() - i,
    {
        seen.insert(blocks[i]);
        i += 1;
        assert(blocks@.take(i as int) =~= blocks@.take(i - 1).push(blocks@[i - 1]));
        proof {
            blocks@.take(i - 1).lemma_push_to_set_commute(blocks@[i - 1]);
        }
    }
    assert(blocks@.take(i as int) =~= blocks@);
    blocks.len() - seen.len()
}

} // verus!
