//! The repeating-key XOR cipher.

use crate::encodings::{bytes_to_hex, hex_encoded};
use crate::hexaa::{lemma_xored_twice, xor_bytes, xored};
use crate::text::ascii_text;
use vstd::prelude::*;
use vstd::slice::slice_to_vec;
use vstd::string::StringSliceAdditionalSpecFns;

verus! {

/// Each byte of `bytes` combined by exclusive or with the byte of `key` that
/// falls on it when `key` is written out again and again.
pub open spec fn keyed(bytes: Seq<u8>, key: Seq<u8>) -> Seq<u8> {
    Seq::new(bytes.len(), |i: int| bytes[i] ^ key[i % key.len() as int])
}

/// Encrypting twice under the same key gives the bytes back.
pub proof fn lemma_keyed_twice(bytes: Seq<u8>, key: Seq<u8>)
    requires
        key.len() > 0,
    ensures
        keyed(keyed(bytes, key), key) == bytes,
{
    let repeated = Seq::new(bytes.len(), |i: int| key[i % key.len() as int]);
    let once = keyed(bytes, key);
    assert(once =~= xored(bytes, repeated));
    assert(keyed(once, key) =~= xored(once, repeated));
    lemma_xored_twice(bytes, repeated);
    assert(bytes.take(bytes.len() as int) =~= bytes);
}

/// Encrypts the bytes of the text `hex` under the bytes of `key`, and gives
/// the result in hexadecimal digits.
pub fn repeated_key_xor_with_strings(hex: &str, key: &str) -> (r: String)
    requires
        key.spec_bytes().len() > 0,
    ensures
        r@ == ascii_text(hex_encoded(keyed(hex.spec_bytes(), key.spec_bytes()))),
{
    let bytes: Vec<u8> = slice_to_vec(hex.as_bytes());
    let key: Vec<u8> = slice_to_vec(key.as_bytes());
    let encrypted = repeated_key_xor(&bytes, &key);
    bytes_to_hex(&encrypted)
}

/// Combines `bytes` by exclusive or with `key`, repeated as often as it takes
/// to cover them.
pub fn repeated_key_xor(bytes: &Vec<u8>, key: &Vec<u8>) -> (r: Vec<u8>)
    requires
        key@.len() > 0,
    ensures
        r@ == keyed(bytes@, key@),
{
    let mut repeated_key: Vec<u8> = Vec::new();
    let mut i: usize = 0;
    let mut in_key: usize = 0;
    let n = key.len();
    while i < bytes.len()
        invariant
            i <= bytes.len(),
            n == key@.len(),
            key@.len() > 0,
            in_key == i as int % key@.len() as int,
            in_key < key@.len(),
            repeated_key@.len() == i,
            forall|j: int| 0 <= j < i ==> repeated_key@[j] == key@[j % key@.len() as int],
        decreases bytes.len() - i,
    {
        repeated_key.push(key[in_key]);
        proof {
            lemma_next_place(i as int, key@.len() as int);
        }
        i += 1;
        in_key = if in_key + 1 == n {
            0
        } else {
            in_key + 1
        };
    }
    let r = xor_bytes(bytes, &repeated_key);
    assert(r@ =~= keyed(bytes@, key@));
    r
}

proof fn lemma_next_place(i: int, n: int)
    by (nonlinear_arith)
    requires
        0 <= i,
        0 < n,
    ensures
        0 <= i % n < n,
        (i + 1) % n == (if i % n + 1 == n {
            0
        } else {
            i % n + 1
        }),
{
}

} // verus!
