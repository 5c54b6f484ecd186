//! Taking a text apart for an attack on the repeating-key XOR cipher.

use crate::hexaa::{repeated_byte_xor, xored_with_byte};
use crate::text::from_utf8;
use vstd::prelude::*;
use vstd::utf8::{decode_utf8, encode_utf8_decode_utf8, valid_utf8};

verus! {

/// How many of `len` places are reached from `start` in steps of `step`.
pub open spec fn strided_len(len: int, step: int, start: int) -> int {
    if start < len {
        (len - start - 1) / step + 1
    } else {
        0
    }
}

/// Every `step`-th entry of `v`, from entry `start` on.
pub open spec fn strided<T>(v: Seq<T>, step: int, start: int) -> Seq<T> {
    Seq::new(strided_len(v.len() as int, step, start) as nat, |k: int| v[start + k * step])
}

/// The keys below `keys` under which `bytes` are valid UTF-8, each with the
/// text that the bytes then spell, in the order of the keys.
pub open spec fn candidates(bytes: Seq<u8>, keys: nat) -> Seq<(u8, Seq<char>)>
    decreases keys,
{
    if keys == 0 {
        Seq::empty()
    } else {
        let before = candidates(bytes, (keys - 1) as nat);
        let plain = xored_with_byte(bytes, (keys - 1) as u8);
        if valid_utf8(plain) {
            before.push(((keys - 1) as u8, decode_utf8(plain)))
        } else {
            before
        }
    }
}

proof fn lemma_last_stride(len: int, step: int, start: int, k: int)
    by (nonlinear_arith)
    requires
        0 < step,
        0 <= k,
        0 <= start,
        start + k * step < len,
        len <= start + k * step + step,
    ensures
        strided_len(len, step, start) == k + 1,
        start + (k + 1) * step == start + k * step + step,
{
}

proof fn lemma_next_stride(step: int, start: int, k: int)
    by (nonlinear_arith)
    ensures
        start + (k + 1) * step == start + k * step + step,
{
}

/// Groups the vector into chunks of `chunk_size` and then transposes them,
/// to give `chunk_size` vectors: vector `j` holds entry `j` of each chunk
/// that has one, in the order of the chunks.
pub fn chunk_and_transpose<T: Copy>(v: &Vec<T>, chunk_size: usize) -> (r: Vec<Vec<T>>)
    requires
        chunk_size > 0,
    ensures
        r@.len() == chunk_size,
        forall|j: int|
            0 <= j < chunk_size ==> (#[trigger] r@[j])@ == strided(v@, chunk_size as int, j),
{
    let len = v.len();
    let mut transposed_blocks: Vec<Vec<T>> = Vec::new();
    let mut j: usize = 0;
    while j < chunk_size
        invariant
            j <= chunk_size,
            chunk_size > 0,
            len == v@.len(),
            transposed_blocks@.len() == j,
            forall|i: int|
                0 <= i < j ==> (#[trigger] transposed_blocks@[i])@ == strided(
                    v@,
                    chunk_size as int,
                    i,
                ),
        decreases chunk_size - j,
    {
        let mut column: Vec<T> = Vec::new();
        if j < len {
            let mut index: usize = j;
            let ghost mut k: int = 0;
            column.push(v[index]);
            while len - index > chunk_size
                invariant
                    chunk_size > 0,
                    len == v@.len(),
                    j < chunk_size,
                    0 <= k,
                    index < len,
                    index == j + k * chunk_size,
                    column@.len() == k + 1,
                    forall|m: int| 0 <= m <= k ==> column@[m] == v@[j + m * chunk_size],
                decreases len - index,
            {
                proof {
                    lemma_next_stride(chunk_size as int, j as int, k);
                }
                index += chunk_size;
                proof {
                    k = k + 1;
                }
                column.push(v[index]);
            }
            proof {
                lemma_last_stride(len as int, chunk_size as int, j as int, k);
            }
        }
        assert(column@ =~= strided(v@, chunk_size as int, j as int));
        transposed_blocks.push(column);
        j += 1;
    }
    transposed_blocks
}

/// Runs `bytes` through XOR with each of the 256 keys, and keeps each key
/// under which they come out as valid UTF-8, with the text that they spell.
pub fn single_byte_xor_candidates(bytes: &Vec<u8>) -> (r: Vec<(u8, String)>)
    ensures
        r@.len() == candidates(bytes@, 256).len(),
        forall|i: int|
            0 <= i < r@.len() ==> (r@[i].0, r@[i].1@) == #[trigger] candidates(bytes@, 256)[i],
{
    let mut found: Vec<(u8, String)> = Vec::new();
    let mut key: u16 = 0;
    while key < 256
        invariant
            key <= 256,
            found@.len() == candidates(bytes@, key as nat).len(),
            forall|i: int|
                0 <= i < found@.len() ==> (found@[i].0, found@[i].1@) == #[trigger] candidates(
                    bytes@,
                    key as nat,
                )[i],
        decreases 256 - key,
    {
        let plain = repeated_byte_xor(bytes, key as u8);
        match from_utf8(plain) {
            Some(text) => {
                proof {
                    encode_utf8_decode_utf8(text@);
                }
                found.push((key as u8, text));
            },
            None => {},
        }
        key += 1;
    }
    found
}

} // verus!
