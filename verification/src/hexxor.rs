//! Exclusive or on hexadecimal text.

use crate::encodings::{hex_decoded, hex_digit, hex_value, is_hex_text};
use crate::hex_to_base64::ascii_to_hex;
use crate::hexaa::{xored, xored_with_byte};
use crate::text::{ascii_string, ascii_text, is_ascii_bytes};
use vstd::prelude::*;
use vstd::string::StringSliceAdditionalSpecFns;

verus! {

/// The hexadecimal digits that stand, place by place, for the exclusive or
/// of the numbers that the digits of `text1` and `text2` stand for.
pub open spec fn xored_digits(text1: Seq<u8>, text2: Seq<u8>) -> Seq<u8> {
    Seq::new(
        text1.len(),
        |i: int| hex_digit(((hex_value(text1[i]) as u8) ^ (hex_value(text2[i]) as u8)) as int),
    )
}

proof fn lemma_digit_bits(x: u8, y: u8, h: u8)
    by (bit_vector)
    ensures
        x < 16 && y < 16 ==> x ^ y < 16,
        x < 16 && y < 16 ==> (x << 4) + y == 16 * x + y,
        ((h & 0xf0) as u16) << 4 == (h / 16) * 256,
        (h & 0x0f) as u16 == h % 16,
{
}

/// The number that each hexadecimal digit of `text` stands for.
fn digit_values(text: &[u8]) -> (r: Vec<u8>)
    requires
        is_hex_text(text@),
    ensures
        r@.len() == text@.len(),
        forall|i: int| 0 <= i < text@.len() ==> r@[i] == hex_value(text@[i]),
{
    let mut values: Vec<u8> = Vec::new();
    let mut i: usize = 0;
    while i < text.len()
        invariant
            i <= text.len(),
            is_hex_text(text@),
            values@.len() == i,
            forall|j: int| 0 <= j < i ==> values@[j] == hex_value(text@[j]),
        decreases text.len() - i,
    {
        values.push(ascii_to_hex(text[i]));
        i += 1;
    }
    values
}

/// XORs the ASCII-representation of hex string,
/// with repeated instance of the provided character-byte.
pub fn xor_string_byte(hex: &str, charr: u8) -> (r: Vec<u8>)
    requires
        hex.spec_bytes().len() % 2 == 0,
        is_hex_text(hex.spec_bytes()),
    ensures
        r@ == xored_with_byte(hex_decoded(hex.spec_bytes()), charr),
{
    let bytes1 = hex_bytes(hex);
    // repeat `charr` the length of `hex` times
    let mut bytes2: Vec<u8> = Vec::new();
    let mut i: usize = 0;
    while i < hex.as_bytes().len()
        invariant
            i <= hex.spec_bytes().len(),
            bytes2@.len() == i,
            forall|j: int| 0 <= j < i ==> bytes2@[j] == charr,
        decreases hex.spec_bytes().len() - i,
    {
        bytes2.push(charr);
        i += 1;
    }
    let r = xor_bytes(&bytes1, &bytes2);
    assert(r@ =~= xored_with_byte(hex_decoded(hex.spec_bytes()), charr));
    r
}

/// Converts an ASCII representation of a hex string,
/// into a Vector of corresponding bytes.
/// Input string should be a valid hex, with even number of digits.
pub fn hex_bytes(hex: &str) -> (r: Vec<u8>)
    requires
        hex.spec_bytes().len() % 2 == 0,
        is_hex_text(hex.spec_bytes()),
    ensures
        r@ == hex_decoded(hex.spec_bytes()),
{
    let bytes1: Vec<u8> = digit_values(hex.as_bytes());
    let mut bytes: Vec<u8> = Vec::new();
    let mut index: usize = 0;
    while index < bytes1.len()
        invariant
            index <= bytes1.len(),
            index % 2 == 0,
            bytes1@.len() == hex.spec_bytes().len(),
            bytes1@.len() % 2 == 0,
            is_hex_text(hex.spec_bytes()),
            forall|i: int|
                0 <= i < bytes1@.len() ==> bytes1@[i] == hex_value(hex.spec_bytes()[i]),
            bytes@ == hex_decoded(hex.spec_bytes()).take(index as int / 2),
        decreases bytes1.len() - index,
    {
        proof {
            lemma_digit_bits(bytes1@[index as int], bytes1@[index + 1], 0);
        }
        bytes.push((bytes1[index] << 4) + bytes1[index + 1]);
        index += 2;
        assert(bytes@ =~= hex_decoded(hex.spec_bytes()).take(index as int / 2));
    }
    assert(hex_decoded(hex.spec_bytes()).take(index as int / 2) =~= hex_decoded(
        hex.spec_bytes(),
    ));
    bytes
}

/// XORs the input hex strings together, digit by digit.
/// Input strings must be ASCII representation of hexadecimal numbers.
/// Strings can contain letters [a-f] and numbers [0-9].
/// Strings must be of equal lengths, automatic padding is not done.
pub fn xor_strings(hex1: &str, hex2: &str) -> (r: String)
    requires
        hex1.spec_bytes().len() == hex2.spec_bytes().len(),
        is_hex_text(hex1.spec_bytes()),
        is_hex_text(hex2.spec_bytes()),
    ensures
        r@ == ascii_text(xored_digits(hex1.spec_bytes(), hex2.spec_bytes())),
{
    let bytes1: Vec<u8> = digit_values(hex1.as_bytes());
    let bytes2: Vec<u8> = digit_values(hex2.as_bytes());
    let xored = xor_bytes(&bytes1, &bytes2);
    let mut result: Vec<u8> = Vec::new();
    let mut i: usize = 0;
    while i < xored.len()
        invariant
            i <= xored.len(),
            xored@ == self::xored(bytes1@, bytes2@),
            bytes1@.len() == hex1.spec_bytes().len(),
            bytes2@.len() == hex2.spec_bytes().len(),
            hex1.spec_bytes().len() == hex2.spec_bytes().len(),
            is_hex_text(hex1.spec_bytes()),
            is_hex_text(hex2.spec_bytes()),
            forall|i: int|
                0 <= i < bytes1@.len() ==> bytes1@[i] == hex_value(hex1.spec_bytes()[i]),
            forall|i: int|
                0 <= i < bytes2@.len() ==> bytes2@[i] == hex_value(hex2.spec_bytes()[i]),
            result@ == xored_digits(hex1.spec_bytes(), hex2.spec_bytes()).take(i as int),
            is_ascii_bytes(result@),
        decreases xored.len() - i,
    {
        proof {
            lemma_digit_bits(bytes1@[i as int], bytes2@[i as int], 0);
        }
        result.push(hex_string(&xored[i]));
        i += 1;
        assert(result@ =~= xored_digits(hex1.spec_bytes(), hex2.spec_bytes()).take(i as int));
    }
    assert(xored_digits(hex1.spec_bytes(), hex2.spec_bytes()).take(i as int) =~= xored_digits(
        hex1.spec_bytes(),
        hex2.spec_bytes(),
    ));
    ascii_string(result)
}

/// XORs the bytes in the input vectors sequentially, as far as both reach.
pub fn xor_bytes(b1: &Vec<u8>, b2: &Vec<u8>) -> (r: Vec<u8>)
    ensures
        r@ == xored(b1@, b2@),
{
    let n = if b1.len() <= b2.len() {
        b1.len()
    } else {
        b2.len()
    };
    let mut out: Vec<u8> = Vec::new();
    let mut i: usize = 0;
    while i < n
        invariant
            i <= n,
            n <= b1.len(),
            n <= b2.len(),
            out@ == xored(b1@, b2@).take(i as int),
            xored(b1@, b2@).len() == n,
        decreases n - i,
    {
        out.push(b1[i] ^ b2[i]);
        i += 1;
        assert(out@ =~= xored(b1@, b2@).take(i as int));
    }
    assert(xored(b1@, b2@).take(n as int) =~= xored(b1@, b2@));
    out
}

/// Converts bytes representing hexadecimal digits to their ASCII representations.
/// Numbers 0 to 9 are converted into numbers 48 (ASCII for '0') to 57 (ASCII for '9').
/// Numbers 10 (hex a) to 15 (hex f) are converted into numbers 97 (ASCII for 'a') to
/// 102 (ASCII for 'f')
pub fn hex_string(h: &u8) -> (r: u8)
    requires
        *h < 16,
    ensures
        r == hex_digit(*h as int),
{
    if *h < 10 {
        // [0-9]
        *h + 48
    } else {
        // [a-f]
        *h + 87
    }
}

/// Splits a byte (representing 2 hex digits) into two, one for each digit:
/// the high digit in the high byte and the low digit in the low byte.
pub fn split_hex(h: &u8) -> (r: u16)
    ensures
        r == (*h / 16) * 256 + *h % 16,
{
    proof {
        lemma_digit_bits(0, 0, *h);
    }
    (((*h & 0xf0) as u16) << 4) + (*h & 0x0f) as u16
}

} // verus!
