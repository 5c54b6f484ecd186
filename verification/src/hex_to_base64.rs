//! Hexadecimal digits regrouped into base64 digits, three to two.
//!
//! The digits are read as one number: where their count is no multiple of
//! three, zero digits are put in front of them.

use crate::encodings::{b64_digit, hex_value, is_hex_digit, is_hex_text};
use crate::text::{ascii_string, ascii_text};
use vstd::prelude::*;
use vstd::string::StringSliceAdditionalSpecFns;

verus! {

/// How many zero digits go in front of `len` digits to make their count a
/// multiple of three.
pub open spec fn leading_zeros(len: int) -> int {
    (3 - len % 3) % 3
}

/// Digit `j` of `text` behind its leading zeros, as a number.
pub open spec fn padded_digit(text: Seq<u8>, j: int) -> int {
    if j < leading_zeros(text.len() as int) {
        0
    } else {
        hex_value(text[j - leading_zeros(text.len() as int)])
    }
}

/// The two numbers below 64 that the three hexadecimal digits `a`, `b`, `c`
/// spell: their 12 bits, six at a time.
pub open spec fn diad(a: int, b: int, c: int) -> Seq<int> {
    seq![4 * a + b / 4, (b % 4) * 16 + c]
}

/// The base64 digits that the hexadecimal digits in `text` spell.
pub open spec fn regrouped(text: Seq<u8>) -> Seq<u8> {
    Seq::new(
        2 * ((text.len() + 2) / 3),
        |i: int|
            b64_digit(
                diad(
                    padded_digit(text, 3 * (i / 2)),
                    padded_digit(text, 3 * (i / 2) + 1),
                    padded_digit(text, 3 * (i / 2) + 2),
                )[i % 2],
            ),
    )
}

proof fn lemma_diad_bits(a: u8, b: u8, c: u8)
    by (bit_vector)
    requires
        a < 16,
        b < 16,
        c < 16,
    ensures
        (a << 2) + (b >> 2) == 4 * a + b / 4,
        ((b & 0b11) << 4) + c == (b % 4) * 16 + c,
        (a << 2) + (b >> 2) < 64,
        ((b & 0b11) << 4) + c < 64,
{
}

/// Converts a string representation (ASCII) of a hexadecimal number
/// into a string representation of its base64 representation.
///
/// Every 3 hexadecimal digits give 2 base64 digits. Zero digits are put in
/// front of the number to get 3*n digits.
pub fn convert(hex: &str) -> (r: String)
    requires
        is_hex_text(hex.spec_bytes()),
    ensures
        r@ == ascii_text(regrouped(hex.spec_bytes())),
{
    let text = hex.as_bytes();
    let len = text.len();
    let first = len % 3;
    let mut new_bytes: Vec<u8> = Vec::new();
    if first == 1 {
        let pair = hex_triad_to_base64_diad(0, 0, ascii_to_hex(text[0]));
        new_bytes.push(pair[0]);
        new_bytes.push(pair[1]);
    } else if first == 2 {
        let pair = hex_triad_to_base64_diad(0, ascii_to_hex(text[0]), ascii_to_hex(text[1]));
        new_bytes.push(pair[0]);
        new_bytes.push(pair[1]);
    }
    assert(new_bytes@ =~= regrouped(text@).take(new_bytes@.len() as int));
    let mut i: usize = first;
    while i < len
        invariant
            first <= i <= len,
            len == text@.len(),
            first == len % 3,
            (i - first) % 3 == 0,
            is_hex_text(text@),
            new_bytes@.len() == 2 * ((i + 2) / 3),
            new_bytes@ == regrouped(text@).take(new_bytes@.len() as int),
        decreases len - i,
    {
        let pair = hex_triad_to_base64_diad(
            ascii_to_hex(text[i]),
            ascii_to_hex(text[i + 1]),
            ascii_to_hex(text[i + 2]),
        );
        new_bytes.push(pair[0]);
        new_bytes.push(pair[1]);
        i += 3;
        assert(new_bytes@ =~= regrouped(text@).take(new_bytes@.len() as int));
    }
    assert(regrouped(text@).take(new_bytes@.len() as int) =~= regrouped(text@));
    ascii_string(new_bytes)
}

/// Converts an ASCII representation of a hexadecimal digit
/// into its integer equivalent.
/// Allowed hexadecimal digits : [0-9a-f]
pub fn ascii_to_hex(s: u8) -> (r: u8)
    requires
        is_hex_digit(s),
    ensures
        r == hex_value(s),
{
    if s >= 48 && s <= 57 {
        // [0-9]
        s - 48
    } else {
        // [a-f]
        s - 97 + 10
    }
}

/// Converts a base64 digit into corresponding string representation (ASCII)
/// ASCII representation digits consist of [A-Za-z0-9+/]
pub fn base64_table(i: u8) -> (r: u8)
    requires
        i < 64,
    ensures
        r == b64_digit(i as int),
{
    if i < 26 {
        // [A-Z]
        i + 65
    } else if i < 52 {
        // [a-z]
        i + 71
    } else if i < 62 {
        // [0-9]
        i - 52 + 48
    } else if i == 62 {
        // (+)
        43
    } else {
        // (/)
        47
    }
}

/// Converts three hexadecimal digits into two base64 digits
/// Inputs are three hexadecimal digits, as numbers
/// Output is a Vector of two ASCII-bytes of base64 digits
pub fn hex_triad_to_base64_diad(a: u8, b: u8, c: u8) -> (r: Vec<u8>)
    requires
        a < 16,
        b < 16,
        c < 16,
    ensures
        r@ == Seq::new(2, |i: int| b64_digit(diad(a as int, b as int, c as int)[i])),
{
    proof {
        lemma_diad_bits(a, b, c);
    }
    let a_s = a << 2;
    let b_s = b >> 2;
    let b_s2 = (b & 0b11) << 4;
    let first_byte = a_s + b_s;
    let second_byte = b_s2 + c;
    let r = vec![base64_table(first_byte), base64_table(second_byte)];
    assert(r@ =~= Seq::new(2, |i: int| b64_digit(diad(a as int, b as int, c as int)[i])));
    r
}

} // verus!
