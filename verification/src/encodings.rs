//! Hexadecimal and base64 text, and the bytes that they stand for.
//!
//! `hex` and `b64` name text: strings of hexadecimal or base64 digits. The
//! functions here read such text through its bytes, which are the ASCII codes
//! of its digits, and write it from such codes.

use crate::hexaa::{bits_set, count_set_bits_in_bytes, xor_bytes, xored};
use crate::text::{ascii_string, ascii_text, is_ascii_bytes};
use vstd::prelude::*;
use vstd::slice::slice_to_vec;
use vstd::string::StringSliceAdditionalSpecFns;

verus! {

/// Whether `c` is the code of a hexadecimal digit: `0` to `9` or `a` to `f`.
pub open spec fn is_hex_digit(c: u8) -> bool {
    (48 <= c <= 57) || (97 <= c <= 102)
}

/// The number that the hexadecimal digit with code `c` stands for.
pub open spec fn hex_value(c: u8) -> int {
    if c <= 57 {
        c - 48
    } else {
        c - 87
    }
}

/// The code of the hexadecimal digit that stands for `v`, a number below 16.
pub open spec fn hex_digit(v: int) -> u8 {
    if v < 10 {
        (v + 48) as u8
    } else {
        (v + 87) as u8
    }
}

/// Whether `text` holds the codes of hexadecimal digits only.
pub open spec fn is_hex_text(text: Seq<u8>) -> bool {
    forall|i: int| 0 <= i < text.len() ==> is_hex_digit(#[trigger] text[i])
}

/// The bytes that the hexadecimal digits in `text` spell, two digits to a
/// byte, the high digit first.
pub open spec fn hex_decoded(text: Seq<u8>) -> Seq<u8> {
    Seq::new(
        text.len() / 2,
        |i: int| (16 * hex_value(text[2 * i]) + hex_value(text[2 * i + 1])) as u8,
    )
}

/// The hexadecimal digits that spell `bytes`, two digits to a byte, the high
/// digit first.
pub open spec fn hex_encoded(bytes: Seq<u8>) -> Seq<u8> {
    Seq::new(
        2 * bytes.len(),
        |i: int|
            hex_digit(
                if i % 2 == 0 {
                    bytes[i / 2] as int / 16
                } else {
                    bytes[i / 2] as int % 16
                },
            ),
    )
}

/// Whether `c` is the code of a base64 digit: a letter, a digit, `+` or `/`.
pub open spec fn is_b64_digit(c: u8) -> bool {
    (65 <= c <= 90) || (97 <= c <= 122) || (48 <= c <= 57) || c == 43 || c == 47
}

/// The number that the base64 digit with code `c` stands for.
pub open spec fn b64_value(c: u8) -> int {
    if 65 <= c <= 90 {
        c - 65
    } else if 97 <= c <= 122 {
        c - 71
    } else if 48 <= c <= 57 {
        c + 4
    } else if c == 43 {
        62
    } else {
        63
    }
}

/// The code of the base64 digit that stands for `v`, a number below 64.
pub open spec fn b64_digit(v: int) -> u8 {
    if v < 26 {
        (v + 65) as u8
    } else if v < 52 {
        (v + 71) as u8
    } else if v < 62 {
        (v - 4) as u8
    } else if v == 62 {
        43
    } else {
        47
    }
}

/// The code of `=`, which fills a base64 text up to a multiple of four.
pub open spec fn b64_pad() -> u8 {
    61
}

/// The codes `text` with `=` in their last `count` places.
pub open spec fn with_pad(text: Seq<u8>, count: int) -> Seq<u8> {
    Seq::new(
        text.len(),
        |i: int|
            if i >= text.len() - count {
                b64_pad()
            } else {
                text[i]
            },
    )
}

/// Byte `i` of `bytes`, and zero past their end.
pub open spec fn byte_or_zero(bytes: Seq<u8>, i: int) -> int {
    if i < bytes.len() {
        bytes[i] as int
    } else {
        0
    }
}

/// The four numbers below 64 that the three bytes `a`, `b`, `c` spell: their
/// 24 bits, six at a time.
pub open spec fn sextets(a: int, b: int, c: int) -> Seq<int> {
    seq![a / 4, (a % 4) * 16 + b / 16, (b % 16) * 4 + c / 64, c % 64]
}

/// The base64 digits of the three bytes `a`, `b`, `c`.
pub open spec fn quad_encoded(a: u8, b: u8, c: u8) -> Seq<u8> {
    Seq::new(4, |i: int| b64_digit(sextets(a as int, b as int, c as int)[i]))
}

/// The base64 text of `bytes`: four digits for each three bytes, the last
/// group filled up with zero bits, and `=` where a digit would hold no bit of
/// `bytes` at all.
pub open spec fn b64_encoded(bytes: Seq<u8>) -> Seq<u8> {
    Seq::new(
        4 * ((bytes.len() + 2) / 3),
        |i: int|
            if 3 * (i / 4) + i % 4 > bytes.len() {
                b64_pad()
            } else {
                b64_digit(
                    sextets(
                        byte_or_zero(bytes, 3 * (i / 4)),
                        byte_or_zero(bytes, 3 * (i / 4) + 1),
                        byte_or_zero(bytes, 3 * (i / 4) + 2),
                    )[i % 4],
                )
            },
    )
}

/// The base64 digits of bytes `3 * k` to `3 * k + 2` of `bytes`, with zero
/// for a byte past their end.
pub open spec fn group_encoded(bytes: Seq<u8>, k: int) -> Seq<u8> {
    quad_encoded(
        bytes[3 * k],
        byte_or_zero(bytes, 3 * k + 1) as u8,
        byte_or_zero(bytes, 3 * k + 2) as u8,
    )
}

/// Whether the four codes can be decoded together: two digits, then a digit
/// or `=`, then a digit or `=`, with no digit after a `=`.
pub open spec fn is_b64_quad(a: u8, b: u8, c: u8, d: u8) -> bool {
    &&& is_b64_digit(a)
    &&& is_b64_digit(b)
    &&& is_b64_digit(c) || c == b64_pad()
    &&& is_b64_digit(d) || d == b64_pad()
    &&& is_b64_digit(d) ==> is_b64_digit(c)
}

/// The bytes that four base64 codes spell: three of them, two if the last
/// code is `=`, and one if the last two are.
pub open spec fn quad_decoded(a: u8, b: u8, c: u8, d: u8) -> Seq<u8> {
    let p = b64_value(a);
    let q = b64_value(b);
    let r = b64_value(c);
    let s = b64_value(d);
    if c == b64_pad() {
        seq![(4 * p + q / 16) as u8]
    } else if d == b64_pad() {
        seq![(4 * p + q / 16) as u8, ((q % 16) * 16 + r / 4) as u8]
    } else {
        seq![(4 * p + q / 16) as u8, ((q % 16) * 16 + r / 4) as u8, ((r % 4) * 64 + s) as u8]
    }
}

/// Whether `text` is made of groups of four codes that can be decoded.
pub open spec fn is_b64_text(text: Seq<u8>) -> bool {
    &&& text.len() % 4 == 0
    &&& forall|k: int|
        0 <= k < text.len() / 4 ==> is_b64_quad(
            #[trigger] text[4 * k],
            text[4 * k + 1],
            text[4 * k + 2],
            text[4 * k + 3],
        )
}

/// The bytes that the first `quads` groups of four codes in `text` spell.
pub open spec fn b64_decoded(text: Seq<u8>, quads: nat) -> Seq<u8>
    decreases quads,
{
    if quads == 0 {
        Seq::empty()
    } else {
        b64_decoded(text, (quads - 1) as nat) + quad_decoded(
            text[4 * quads - 4],
            text[4 * quads - 3],
            text[4 * quads - 2],
            text[4 * quads - 1],
        )
    }
}

/// The pairs of an entry of `v1` with each later entry of `v2`, for the first
/// `rows` entries of `v1`: first all pairs of entry 0, then those of entry 1,
/// and so on.
pub open spec fn combined<T>(v1: Seq<T>, v2: Seq<T>, rows: nat) -> Seq<(T, T)>
    decreases rows,
{
    if rows == 0 {
        Seq::empty()
    } else {
        combined(v1, v2, (rows - 1) as nat) + pairs_of(v1, v2, rows - 1)
    }
}

/// The pairs of entry `i` of `v1` with each entry of `v2` after place `i`.
pub open spec fn pairs_of<T>(v1: Seq<T>, v2: Seq<T>, i: int) -> Seq<(T, T)> {
    Seq::new(
        if i + 1 <= v2.len() {
            (v2.len() - i - 1) as nat
        } else {
            0
        },
        |k: int| (v1[i], v2[i + 1 + k]),
    )
}

/// How many of the first four blocks of `key_size` bytes end before the last
/// of `len` bytes.
pub open spec fn blocks_within(key_size: int, len: int) -> int {
    if 4 * key_size < len {
        4
    } else if 3 * key_size < len {
        3
    } else if 2 * key_size < len {
        2
    } else if key_size < len {
        1
    } else {
        0
    }
}

/// Where each of those blocks begins and ends, block after block.
pub open spec fn block_ranges(key_size: int, len: int) -> Seq<(usize, usize)> {
    Seq::new(
        blocks_within(key_size, len) as nat,
        |i: int| ((i * key_size) as usize, (i * key_size + key_size) as usize),
    )
}

/// The pairs of a block with each later block, in the order of `combined`.
pub open spec fn block_pairs(key_size: int, len: int) -> Seq<((usize, usize), (usize, usize))> {
    combined(
        block_ranges(key_size, len),
        block_ranges(key_size, len),
        blocks_within(key_size, len) as nat,
    )
}

/// The number of bits in which the bytes of `v` in the range `p` differ from
/// its bytes in the range `q`.
pub open spec fn range_distance(v: Seq<u8>, p: (usize, usize), q: (usize, usize)) -> int {
    bits_set(
        xored(v.subrange(p.0 as int, p.1 as int), v.subrange(q.0 as int, q.1 as int)),
        (p.1 - p.0) as nat,
    )
}

/// Bytes written in hexadecimal digits and read again are the same bytes.
pub proof fn lemma_hex_round_trip(bytes: Seq<u8>)
    ensures
        is_hex_text(hex_encoded(bytes)),
        hex_encoded(bytes).len() % 2 == 0,
        hex_decoded(hex_encoded(bytes)) == bytes,
{
    assert(hex_decoded(hex_encoded(bytes)) =~= bytes);
}

/// An even number of hexadecimal digits, read as bytes and written again,
/// are the same digits.
pub proof fn lemma_hex_text_round_trip(text: Seq<u8>)
    requires
        is_hex_text(text),
        text.len() % 2 == 0,
    ensures
        hex_encoded(hex_decoded(text)) == text,
{
    let again = hex_encoded(hex_decoded(text));
    assert forall|i: int| 0 <= i < text.len() implies again[i] == text[i] by {
        assert(is_hex_digit(text[2 * (i / 2)]));
        assert(is_hex_digit(text[2 * (i / 2) + 1]));
    }
    assert(again =~= text);
}

/// A base64 digit stands for the number that it was made from.
pub proof fn lemma_b64_digit_round_trip(v: int)
    requires
        0 <= v < 64,
    ensures
        is_b64_digit(b64_digit(v)),
        b64_digit(v) != b64_pad(),
        b64_value(b64_digit(v)) == v,
{
}

/// The four numbers that three bytes spell are below 64, and spell the
/// three bytes.
pub proof fn lemma_sextets_round_trip(a: u8, b: u8, c: u8)
    ensures
        0 <= sextets(a as int, b as int, c as int)[0] < 64,
        0 <= sextets(a as int, b as int, c as int)[1] < 64,
        0 <= sextets(a as int, b as int, c as int)[2] < 64,
        0 <= sextets(a as int, b as int, c as int)[3] < 64,
        4 * sextets(a as int, b as int, c as int)[0] + sextets(a as int, b as int, c as int)[1]
            / 16 == a,
        (sextets(a as int, b as int, c as int)[1] % 16) * 16 + sextets(
            a as int,
            b as int,
            c as int,
        )[2] / 4 == b,
        (sextets(a as int, b as int, c as int)[2] % 4) * 64 + sextets(
            a as int,
            b as int,
            c as int,
        )[3] == c,
{
}

proof fn lemma_quad_decoded(a: u8, b: u8, c: u8)
    ensures
        is_b64_quad(
            quad_encoded(a, b, c)[0],
            quad_encoded(a, b, c)[1],
            quad_encoded(a, b, c)[2],
            quad_encoded(a, b, c)[3],
        ),
        b64_value(quad_encoded(a, b, c)[0]) * 4 + b64_value(quad_encoded(a, b, c)[1]) / 16 == a,
        (b64_value(quad_encoded(a, b, c)[1]) % 16) * 16 + b64_value(quad_encoded(a, b, c)[2]) / 4
            == b,
        (b64_value(quad_encoded(a, b, c)[2]) % 4) * 64 + b64_value(quad_encoded(a, b, c)[3])
            == c,
        quad_encoded(a, b, c)[2] != b64_pad(),
        quad_encoded(a, b, c)[3] != b64_pad(),
{
    let s = sextets(a as int, b as int, c as int);
    lemma_sextets_round_trip(a, b, c);
    lemma_b64_digit_round_trip(s[0]);
    lemma_b64_digit_round_trip(s[1]);
    lemma_b64_digit_round_trip(s[2]);
    lemma_b64_digit_round_trip(s[3]);
}

/// The base64 digits of three bytes spell those bytes, and those of fewer
/// bytes, filled up with `=`, spell the fewer.
pub proof fn lemma_quad_round_trip(a: u8, b: u8, c: u8)
    ensures
        is_b64_quad(
            quad_encoded(a, b, c)[0],
            quad_encoded(a, b, c)[1],
            quad_encoded(a, b, c)[2],
            quad_encoded(a, b, c)[3],
        ),
        quad_decoded(
            quad_encoded(a, b, c)[0],
            quad_encoded(a, b, c)[1],
            quad_encoded(a, b, c)[2],
            quad_encoded(a, b, c)[3],
        ) == seq![a, b, c],
        quad_decoded(
            quad_encoded(a, b, 0)[0],
            quad_encoded(a, b, 0)[1],
            quad_encoded(a, b, 0)[2],
            b64_pad(),
        ) == seq![a, b],
        quad_decoded(quad_encoded(a, 0, 0)[0], quad_encoded(a, 0, 0)[1], b64_pad(), b64_pad())
            == seq![a],
{
    lemma_quad_decoded(a, b, c);
    lemma_quad_decoded(a, b, 0);
    lemma_quad_decoded(a, 0, 0);
    let q = quad_encoded(a, b, c);
    assert(quad_decoded(q[0], q[1], q[2], q[3]) =~= seq![a, b, c]);
    let q2 = quad_encoded(a, b, 0);
    assert(quad_decoded(q2[0], q2[1], q2[2], b64_pad()) =~= seq![a, b]);
    let q1 = quad_encoded(a, 0, 0);
    assert(quad_decoded(q1[0], q1[1], b64_pad(), b64_pad()) =~= seq![a]);
}

/// Group `k` of the base64 text of `bytes` holds the digits of bytes `3 * k`
/// to `3 * k + 2`, and `=` in place of the digits that begin past the last
/// byte.
pub proof fn lemma_b64_group(bytes: Seq<u8>, k: int)
    requires
        0 <= k,
        3 * k < bytes.len(),
    ensures
        4 * k + 3 < b64_encoded(bytes).len(),
        b64_encoded(bytes)[4 * k] == group_encoded(bytes, k)[0],
        b64_encoded(bytes)[4 * k + 1] == group_encoded(bytes, k)[1],
        b64_encoded(bytes)[4 * k + 2] == (if 3 * k + 1 < bytes.len() {
            group_encoded(bytes, k)[2]
        } else {
            b64_pad()
        }),
        b64_encoded(bytes)[4 * k + 3] == (if 3 * k + 2 < bytes.len() {
            group_encoded(bytes, k)[3]
        } else {
            b64_pad()
        }),
{
    assert((4 * k) / 4 == k && (4 * k) % 4 == 0);
    assert((4 * k + 1) / 4 == k && (4 * k + 1) % 4 == 1);
    assert((4 * k + 2) / 4 == k && (4 * k + 2) % 4 == 2);
    assert((4 * k + 3) / 4 == k && (4 * k + 3) % 4 == 3);
}

/// How many of `len` bytes the first `quads` groups of their base64 text
/// spell.
pub open spec fn bytes_in_groups(len: nat, quads: nat) -> int {
    if 3 * quads <= len {
        3 * quads as int
    } else {
        len as int
    }
}

/// Group `k` of the base64 text of `bytes` can be decoded, and spells the
/// bytes that it was made of.
pub proof fn lemma_b64_group_round_trip(bytes: Seq<u8>, k: int)
    requires
        0 <= k,
        3 * k < bytes.len(),
    ensures
        is_b64_quad(
            b64_encoded(bytes)[4 * k],
            b64_encoded(bytes)[4 * k + 1],
            b64_encoded(bytes)[4 * k + 2],
            b64_encoded(bytes)[4 * k + 3],
        ),
        quad_decoded(
            b64_encoded(bytes)[4 * k],
            b64_encoded(bytes)[4 * k + 1],
            b64_encoded(bytes)[4 * k + 2],
            b64_encoded(bytes)[4 * k + 3],
        ) == bytes.subrange(3 * k, bytes_in_groups(bytes.len(), (k + 1) as nat)),
{
    let a = bytes[3 * k];
    let b = byte_or_zero(bytes, 3 * k + 1) as u8;
    let c = byte_or_zero(bytes, 3 * k + 2) as u8;
    lemma_b64_group(bytes, k);
    lemma_quad_round_trip(a, b, c);
    if 3 * k + 2 < bytes.len() {
        assert(bytes.subrange(3 * k, 3 * k + 3) =~= seq![a, b, c]);
    } else if 3 * k + 1 < bytes.len() {
        assert(bytes.subrange(3 * k, 3 * k + 2) =~= seq![a, b]);
    } else {
        assert(bytes.subrange(3 * k, 3 * k + 1) =~= seq![a]);
    }
}

/// Whether group `k` of `text` spells the bytes of `bytes` from `3 * k` on,
/// up to three of them.
pub open spec fn group_spells(text: Seq<u8>, bytes: Seq<u8>, k: int) -> bool {
    quad_decoded(text[4 * k], text[4 * k + 1], text[4 * k + 2], text[4 * k + 3])
        == bytes.subrange(3 * k, bytes_in_groups(bytes.len(), (k + 1) as nat))
}

proof fn lemma_groups_spell_prefix(text: Seq<u8>, bytes: Seq<u8>, quads: nat)
    requires
        quads <= (bytes.len() + 2) / 3,
        forall|k: int| 0 <= k < quads ==> #[trigger] group_spells(text, bytes, k),
    ensures
        b64_decoded(text, quads) == bytes.take(bytes_in_groups(bytes.len(), quads)),
    decreases quads,
{
    if quads == 0 {
        assert(bytes.take(0) =~= Seq::<u8>::empty());
    } else {
        let before = (quads - 1) as nat;
        let k = before as int;
        lemma_groups_spell_prefix(text, bytes, before);
        assert(group_spells(text, bytes, k));
        let end = bytes_in_groups(bytes.len(), quads);
        assert(bytes_in_groups(bytes.len(), before) == 3 * k);
        assert(bytes.take(end) =~= bytes.take(3 * k) + bytes.subrange(3 * k, end));
    }
}

/// Bytes written in base64 and read again are the same bytes.
pub proof fn lemma_b64_round_trip(bytes: Seq<u8>)
    ensures
        is_b64_text(b64_encoded(bytes)),
        b64_decoded(b64_encoded(bytes), b64_encoded(bytes).len() / 4) == bytes,
{
    let text = b64_encoded(bytes);
    let quads = (bytes.len() + 2) / 3;
    assert(text.len() == 4 * quads);
    assert forall|k: int| 0 <= k < quads implies is_b64_quad(
        #[trigger] text[4 * k],
        text[4 * k + 1],
        text[4 * k + 2],
        text[4 * k + 3],
    ) && group_spells(text, bytes, k) by {
        lemma_b64_group_round_trip(bytes, k);
    }
    lemma_groups_spell_prefix(text, bytes, quads as nat);
    assert(bytes.take(bytes.len() as int) =~= bytes);
}

/// Block `i` of those that count begins at `i * key_size` and ends, before
/// the last byte, `key_size` places on.
pub proof fn lemma_block_range(key_size: int, len: int, i: int)
    requires
        0 <= key_size,
        0 <= i < blocks_within(key_size, len),
    ensures
        0 <= i * key_size,
        i * key_size + key_size < len,
{
    if i == 0 {
        assert(i * key_size == 0);
    } else if i == 1 {
        assert(i * key_size == key_size);
    } else if i == 2 {
        assert(i * key_size == 2 * key_size);
    } else {
        assert(i * key_size == 3 * key_size);
    }
}

/// Every pair in `combined` is made of an entry of `v1` among the first
/// `rows` and an entry of `v2`.
pub proof fn lemma_combined_entries<T>(v1: Seq<T>, v2: Seq<T>, rows: nat, m: int)
    requires
        rows <= v1.len(),
        0 <= m < combined(v1, v2, rows).len(),
    ensures
        exists|i: int, j: int|
            0 <= i < rows && i < j < v2.len() && combined(v1, v2, rows)[m] == (v1[i], v2[j]),
    decreases rows,
{
    if rows > 0 {
        let before = combined(v1, v2, (rows - 1) as nat);
        if m < before.len() {
            lemma_combined_entries(v1, v2, (rows - 1) as nat, m);
        } else {
            let k = m - before.len();
            assert(combined(v1, v2, rows)[m] == (v1[rows - 1], v2[rows + k]));
        }
    }
}

proof fn lemma_hex_bits(s: u8, t: u8, h: u8)
    by (bit_vector)
    ensures
        s < 16 && t < 16 ==> (s << 4) + t == 16 * s + t,
        h >> 4 == h / 16,
        h & 0x0f == h % 16,
{
}

proof fn lemma_b64_bits(a: u8, b: u8, c: u8)
    by (bit_vector)
    ensures
        a >> 2 == a / 4,
        (a << 4) + (b >> 4) < 256,
        (((a << 4) + (b >> 4)) as u8) & 0x3f == (a % 4) * 16 + b / 16,
        (b << 2) + (c >> 6) < 256,
        (((b << 2) + (c >> 6)) as u8) & 0x3f == (b % 16) * 4 + c / 64,
        c & 0x3f == c % 64,
{
}

proof fn lemma_b64_values(p: u8, q: u8, r: u8, s: u8)
    by (bit_vector)
    requires
        p < 64,
        q < 64,
        r < 64,
        s < 64,
    ensures
        (p << 2) + (q >> 4) == 4 * p + q / 16,
        (q << 4) + (r >> 2) == (q % 16) * 16 + r / 4,
        (r << 6) + s == (r % 4) * 64 + s,
{
}

/// Puts `=` in the last `count` places of `padded`.
fn pad_b64(padded: Vec<u8>, count: usize) -> (r: Vec<u8>)
    requires
        count <= padded@.len(),
    ensures
        r@ == with_pad(padded@, count as int),
{
    let mut padded = padded;
    let ghost given = padded@;
    let pad: u8 = 61;
    let len = padded.len();
    let mut i: usize = len - count;
    while i < len
        invariant
            count <= len,
            len - count <= i <= len,
            len == given.len(),
            pad == b64_pad(),
            padded@.len() == len,
            forall|j: int| 0 <= j < len - count ==> padded@[j] == given[j],
            forall|j: int| len - count <= j < i ==> padded@[j] == pad,
            forall|j: int| i <= j < len ==> padded@[j] == given[j],
        decreases len - i,
    {
        padded.set(i, pad);
        i += 1;
    }
    assert(padded@ =~= with_pad(given, count as int));
    padded
}

/// Whether `hex` is made of hexadecimal digits only.
pub fn is_hex(hex: &str) -> (r: bool)
    ensures
        r == is_hex_text(hex.spec_bytes()),
{
    let text = hex.as_bytes();
    let mut i: usize = 0;
    while i < text.len()
        invariant
            i <= text.len(),
            text@ == hex.spec_bytes(),
            is_hex_text(text@.take(i as int)),
        decreases text.len() - i,
    {
        let c = text[i];
        if !((c >= 48 && c <= 57) || (c >= 97 && c <= 102)) {
            assert(!is_hex_digit(text@[i as int]));
            return false;
        }
        i += 1;
    }
    assert(text@.take(i as int) =~= text@);
    true
}

/// Whether `b64` is made of groups of four base64 codes that can be decoded.
pub fn is_b64(b64: &str) -> (r: bool)
    ensures
        r == is_b64_text(b64.spec_bytes()),
{
    let text = b64.as_bytes();
    if text.len() % 4 != 0 {
        return false;
    }
    let mut k: usize = 0;
    while k < text.len() / 4
        invariant
            k <= text@.len() / 4,
            text@ == b64.spec_bytes(),
            text@.len() % 4 == 0,
            forall|j: int|
                0 <= j < k ==> is_b64_quad(
                    #[trigger] text@[4 * j],
                    text@[4 * j + 1],
                    text@[4 * j + 2],
                    text@[4 * j + 3],
                ),
        decreases text.len() / 4 - k,
    {
        let a = is_b64_code(text[4 * k]);
        let b = is_b64_code(text[4 * k + 1]);
        let c = is_b64_code(text[4 * k + 2]);
        let d = is_b64_code(text[4 * k + 3]);
        let pad: u8 = 61;
        if !(a && b && (c || text[4 * k + 2] == pad) && (d || text[4 * k + 3] == pad) && (!d
            || c)) {
            assert(0 <= k < text@.len() / 4 && !is_b64_quad(
                text@[4 * (k as int)],
                text@[4 * (k as int) + 1],
                text@[4 * (k as int) + 2],
                text@[4 * (k as int) + 3],
            ));
            return false;
        }
        k += 1;
    }
    true
}

/// Whether `c` is the code of a base64 digit.
fn is_b64_code(c: u8) -> (r: bool)
    ensures
        r == is_b64_digit(c),
{
    (c >= 65 && c <= 90) || (c >= 97 && c <= 122) || (c >= 48 && c <= 57) || c == 43 || c == 47
}

/// The hamming distance between each two of the first four blocks of
/// `key_size` bytes in `v`, of which only blocks that end before the last
/// byte count: first the distances of block 0 to each later block, then
/// those of block 1, and so on.
pub fn block_distances(key_size: usize, v: &Vec<u8>) -> (r: Vec<u32>)
    requires
        4 * key_size <= usize::MAX,
        8 * key_size <= u32::MAX,
    ensures
        r@.len() == block_pairs(key_size as int, v@.len() as int).len(),
        forall|m: int|
            0 <= m < r@.len() ==> r@[m] == range_distance(
                v@,
                (#[trigger] block_pairs(key_size as int, v@.len() as int)[m]).0,
                block_pairs(key_size as int, v@.len() as int)[m].1,
            ),
{
    let ghost expected = block_ranges(key_size as int, v@.len() as int);
    let len = v.len();
    let mut ranges: Vec<(usize, usize)> = Vec::new();
    let mut x: usize = 1;
    while x < 5
        invariant
            1 <= x <= 5,
            len == v@.len(),
            4 * key_size <= usize::MAX,
            ranges@.len() == (if blocks_within(key_size as int, len as int) < x - 1 {
                blocks_within(key_size as int, len as int)
            } else {
                x - 1
            }),
            forall|i: int|
                0 <= i < ranges@.len() ==> ranges@[i] == ((i * key_size) as usize, (i * key_size
                    + key_size) as usize),
        decreases 5 - x,
    {
        assert(x * key_size <= 4 * key_size) by (nonlinear_arith)
            requires
                x <= 4,
                key_size >= 0,
        ;
        let end = x * key_size;
        proof {
            if x == 1 {
                assert(end == key_size);
            } else if x == 2 {
                assert(end == 2 * key_size);
            } else if x == 3 {
                assert(end == 3 * key_size);
            } else {
                assert(end == 4 * key_size);
            }
        }
        if end < len {
            assert((x - 1) * key_size + key_size == x * key_size) by (nonlinear_arith);
            ranges.push((end - key_size, end));
        }
        x += 1;
    }
    assert(ranges@ =~= expected);
    assert forall|i: int| 0 <= i < expected.len() implies (#[trigger] expected[i]).0
        + key_size == expected[i].1 && expected[i].1 < v@.len() by {
        lemma_block_range(key_size as int, len as int, i);
    }

    let combinations = combine(&ranges, &ranges);
    let ghost pairs = combined(expected, expected, expected.len());
    let mut distances: Vec<u32> = Vec::new();
    let mut m: usize = 0;
    while m < combinations.len()
        invariant
            m <= combinations@.len(),
            8 * key_size <= u32::MAX,
            expected == block_ranges(key_size as int, v@.len() as int),
            pairs == combined(expected, expected, expected.len()),
            forall|i: int|
                0 <= i < expected.len() ==> (#[trigger] expected[i]).0 + key_size
                    == expected[i].1 && expected[i].1 < v@.len(),
            combinations@.len() == pairs.len(),
            forall|k: int|
                0 <= k < combinations@.len() ==> (*combinations@[k].0, *combinations@[k].1)
                    == #[trigger] pairs[k],
            distances@.len() == m,
            forall|k: int|
                0 <= k < m ==> distances@[k] == range_distance(
                    v@,
                    (#[trigger] pairs[k]).0,
                    pairs[k].1,
                ),
        decreases combinations.len() - m,
    {
        let p: (usize, usize) = *combinations[m].0;
        let q: (usize, usize) = *combinations[m].1;
        proof {
            lemma_combined_entries(expected, expected, expected.len(), m as int);
            assert(pairs[m as int] == (p, q));
        }
        let b1 = slice_to_vec(&v.as_slice()[p.0..p.1]);
        let b2 = slice_to_vec(&v.as_slice()[q.0..q.1]);
        let x = xor_bytes(&b1, &b2);
        distances.push(count_set_bits_in_bytes(x));
        m += 1;
    }
    distances
}

/// Calculates hamming distance between the two given strings: the number of
/// bits in which their bytes differ.
pub fn hamming_distance(s1: &str, s2: &str) -> (r: u32)
    requires
        s1.spec_bytes().len() == s2.spec_bytes().len(),
        8 * s1.spec_bytes().len() <= u32::MAX,
    ensures
        r == bits_set(xored(s1.spec_bytes(), s2.spec_bytes()), s1.spec_bytes().len()),
{
    let b1 = slice_to_vec(s1.as_bytes());
    let b2 = slice_to_vec(s2.as_bytes());

    let x = xor_bytes(&b1, &b2);
    count_set_bits_in_bytes(x)
}

/// Takes in two vectors, and pairs each entry of the first with each later
/// entry of the second, so that no two places are paired twice.
pub fn combine<'a, 'b, T>(v1: &'a Vec<T>, v2: &'b Vec<T>) -> (r: Vec<(&'a T, &'b T)>)
    ensures
        r@.len() == combined(v1@, v2@, v1@.len()).len(),
        forall|k: int|
            0 <= k < r@.len() ==> (*r@[k].0, *r@[k].1) == #[trigger] combined(
                v1@,
                v2@,
                v1@.len(),
            )[k],
{
    let mut out: Vec<(&'a T, &'b T)> = Vec::new();
    let mut index1: usize = 0;
    while index1 < v1.len()
        invariant
            index1 <= v1.len(),
            out@.len() == combined(v1@, v2@, index1 as nat).len(),
            forall|k: int|
                0 <= k < out@.len() ==> (*out@[k].0, *out@[k].1) == #[trigger] combined(
                    v1@,
                    v2@,
                    index1 as nat,
                )[k],
        decreases v1.len() - index1,
    {
        let ghost before = out@;
        let mut index2: usize = if index1 < v2.len() {
            index1 + 1
        } else {
            v2.len()
        };
        let ghost first = index2;
        while index2 < v2.len()
            invariant
                index1 < v1.len(),
                first <= index2 <= v2.len(),
                first == (if index1 < v2.len() {
                    index1 + 1
                } else {
                    v2@.len() as int
                }),
                out@.len() == before.len() + (index2 - first),
                forall|k: int| 0 <= k < before.len() ==> out@[k] == before[k],
                forall|k: int|
                    0 <= k < index2 - first ==> (*out@[before.len() + k].0, *out@[before.len()
                        + k].1) == #[trigger] pairs_of(v1@, v2@, index1 as int)[k],
            decreases v2.len() - index2,
        {
            out.push((&v1[index1], &v2[index2]));
            index2 += 1;
        }
        index1 += 1;
    }
    out
}

/// XORs the input hex strings together.
/// Input strings must be ASCII representation of hexadecimal numbers.
/// Strings can contain letters [a-f] and numbers [0-9].
/// Strings must be of equal lengths, automatic padding is not done.
pub fn xor_hexes(hex1: &str, hex2: &str) -> (r: String)
    requires
        hex1.spec_bytes().len() == hex2.spec_bytes().len(),
        hex1.spec_bytes().len() % 2 == 0,
        is_hex_text(hex1.spec_bytes()),
        is_hex_text(hex2.spec_bytes()),
    ensures
        r@ == ascii_text(
            hex_encoded(xored(hex_decoded(hex1.spec_bytes()), hex_decoded(hex2.spec_bytes()))),
        ),
{
    let bytes1: Vec<u8> = hex_as_bytes(hex1);
    let bytes2: Vec<u8> = hex_as_bytes(hex2);
    let result = xor_bytes(&bytes1, &bytes2);
    bytes_to_hex(&result)
}

/// Convert a vector of bytes to a hexadecimal ASCII string representation
pub fn bytes_to_hex(bytes: &Vec<u8>) -> (r: String)
    ensures
        r@ == ascii_text(hex_encoded(bytes@)),
{
    let mut ascii: Vec<u8> = Vec::new();
    let mut i: usize = 0;
    while i < bytes.len()
        invariant
            i <= bytes.len(),
            ascii@ == hex_encoded(bytes@.take(i as int)),
        decreases bytes.len() - i,
    {
        let digits = byte_as_hex_ascii(&bytes[i]);
        ascii.push(digits[0]);
        ascii.push(digits[1]);
        i += 1;
        assert(ascii@ =~= hex_encoded(bytes@.take(i as int)));
    }
    assert(bytes@.take(bytes@.len() as int) =~= bytes@);
    ascii_string(ascii)
}

/// Converts a string representation (ASCII) of a hexadecimal number
/// into a string representation of its base64 representation.
///
/// Every 6 hexadecimal digits (3 bytes) give 4 base64 digits. Bytes that are
/// missing from the last 3 count as zero, and appear as `=` in the result.
pub fn hex_to_b64(hex: &str) -> (r: String)
    requires
        hex.spec_bytes().len() % 2 == 0,
        is_hex_text(hex.spec_bytes()),
    ensures
        r@ == ascii_text(b64_encoded(hex_decoded(hex.spec_bytes()))),
{
    bytes_to_b64(hex_as_bytes(hex))
}

/// Converts an ASCII representation of a hex string,
/// into a Vector of corresponding bytes.
/// Input string should be a valid hex, with even number of digits.
pub fn hex_as_bytes(hex: &str) -> (r: Vec<u8>)
    requires
        hex.spec_bytes().len() % 2 == 0,
        is_hex_text(hex.spec_bytes()),
    ensures
        r@ == hex_decoded(hex.spec_bytes()),
{
    let text = hex.as_bytes();
    let mut bytes: Vec<u8> = Vec::new();
    let mut i: usize = 0;
    while i < text.len() / 2
        invariant
            i <= text@.len() / 2,
            text@.len() % 2 == 0,
            is_hex_text(text@),
            bytes@ == hex_decoded(text@).take(i as int),
        decreases text.len() / 2 - i,
    {
        bytes.push(hex_ascii_to_byte(text[2 * i], text[2 * i + 1]));
        i += 1;
        assert(bytes@ =~= hex_decoded(text@).take(i as int));
    }
    assert(hex_decoded(text@).take(i as int) =~= hex_decoded(text@));
    bytes
}

/// Converts an ASCII representation of 2 hexadecimal digits
/// into binary equivalent (1 byte).
/// Allowed hexadecimal digits : [0-9a-f]
pub fn hex_ascii_to_byte(s: u8, t: u8) -> (r: u8)
    requires
        is_hex_digit(s),
        is_hex_digit(t),
    ensures
        r == 16 * hex_value(s) + hex_value(t),
{
    let high: u8 = if s <= 57 {
        s - 48
    } else {
        s - 97 + 10
    };
    let low: u8 = if t <= 57 {
        t - 48
    } else {
        t - 97 + 10
    };
    proof {
        lemma_hex_bits(high, low, 0);
    }
    (high << 4) + low
}

/// The two hexadecimal digits of `h`, the high one first.
fn byte_as_hex_ascii(h: &u8) -> (r: Vec<u8>)
    ensures
        r@ == seq![hex_digit(*h as int / 16), hex_digit(*h as int % 16)],
{
    proof {
        lemma_hex_bits(0, 0, *h);
    }
    vec![byte_as_partial_hex_ascii(&(*h >> 4)), byte_as_partial_hex_ascii(&(*h & 0x0f))]
}

/// Converts bytes representing hexadecimal digits to their ASCII representations.
/// Numbers 0 to 9 are converted into numbers 48 (ASCII for '0') to 57 (ASCII for '9').
/// Numbers 10 (hex a) to 15 (hex f) are converted into numbers 97 (ASCII for 'a') to
/// 102 (ASCII for 'f')
pub fn byte_as_partial_hex_ascii(h: &u8) -> (r: u8)
    requires
        *h < 16,
    ensures
        r == hex_digit(*h as int),
{
    if *h < 10 {
        // [0-9]
        *h + 48
    } else {
        // [a-f]
        *h + 87
    }
}

/// Converts an ASCII representation of a base-64 string,
/// into a Vector of corresponding bytes.
pub fn b64_as_bytes(b64: &str) -> (r: Vec<u8>)
    requires
        is_b64_text(b64.spec_bytes()),
    ensures
        r@ == b64_decoded(b64.spec_bytes(), b64.spec_bytes().len() / 4),
{
    let text = b64.as_bytes();
    let mut bytes: Vec<u8> = Vec::new();
    let mut k: usize = 0;
    while k < text.len() / 4
        invariant
            k <= text@.len() / 4,
            is_b64_text(text@),
            bytes@ == b64_decoded(text@, k as nat),
        decreases text.len() / 4 - k,
    {
        assert(is_b64_quad(text@[4 * k], text@[4 * k + 1], text@[4 * k + 2], text@[4 * k + 3]));
        let triad = b64_ascii_quad_to_hex_triad(
            text[4 * k],
            text[4 * k + 1],
            text[4 * k + 2],
            text[4 * k + 3],
        );
        bytes.extend_from_slice(triad.as_slice());
        k += 1;
    }
    bytes
}

/// The bytes that four base64 codes spell.
fn b64_ascii_quad_to_hex_triad(a: u8, b: u8, c: u8, d: u8) -> (r: Vec<u8>)
    requires
        is_b64_quad(a, b, c, d),
    ensures
        r@ == quad_decoded(a, b, c, d),
{
    let p = b64_ascii_to_byte(a).unwrap();
    let q = b64_ascii_to_byte(b).unwrap();
    let r = b64_ascii_to_byte(c);
    let s = b64_ascii_to_byte(d);

    proof {
        lemma_b64_values(
            p,
            q,
            if r is Some {
                r->0
            } else {
                0
            },
            if s is Some {
                s->0
            } else {
                0
            },
        );
    }
    let mut bytes = vec![(p << 2) + (q >> 4)];
    if let Some(r) = r {
        bytes.push((q << 4) + (r >> 2))
    }
    if let Some(s) = s {
        bytes.push((r.unwrap() << 6) + s)
    }
    assert(bytes@ =~= quad_decoded(a, b, c, d));
    bytes
}

/// The base64 text of `bytes`.
fn bytes_to_b64(bytes: Vec<u8>) -> (r: String)
    ensures
        r@ == ascii_text(b64_encoded(bytes@)),
{
    let mut new_bytes: Vec<u8> = Vec::new();
    let mut i: usize = 0;
    while i < bytes.len()
        invariant
            i <= bytes.len() + 2,
            i % 3 == 0,
            new_bytes@ == b64_encoded(bytes@).take(4 * (i as int / 3)),
            4 * (i as int / 3) <= b64_encoded(bytes@).len(),
        decreases bytes.len() + 2 - i,
    {
        let left = bytes.len() - i;
        let quad = if left == 1 {
            pad_b64(hex_triad_to_base64_quad(bytes[i], 0, 0), 2)
        } else if left == 2 {
            pad_b64(hex_triad_to_base64_quad(bytes[i], bytes[i + 1], 0), 1)
        } else {
            hex_triad_to_base64_quad(bytes[i], bytes[i + 1], bytes[i + 2])
        };
        new_bytes.extend_from_slice(quad.as_slice());
        assert(new_bytes@ =~= b64_encoded(bytes@).take(4 * (i as int / 3) + 4));
        i += 3;
    }
    assert(b64_encoded(bytes@).take(4 * (i as int / 3)) =~= b64_encoded(bytes@));
    ascii_string(new_bytes)
}

/// The number that a base64 code stands for, and nothing for `=`.
pub fn b64_ascii_to_byte(i: u8) -> (r: Option<u8>)
    requires
        is_b64_digit(i) || i == b64_pad(),
    ensures
        i == b64_pad() <==> r is None,
        r is Some ==> r->0 == b64_value(i),
{
    if i >= 'A' as u8 && i <= 'Z' as u8 {
        Some(i - 'A' as u8)
    } else if i >= 'a' as u8 && i <= 'z' as u8 {
        Some(i - 'a' as u8 + 26)
    } else if i >= '0' as u8 && i <= '9' as u8 {
        Some(i - '0' as u8 + 52)
    } else if i == '+' as u8 {
        Some(62)
    } else if i == '/' as u8 {
        Some(63)
    } else {
        None
    }
}

/// Converts a base64 digit into corresponding string representation (ASCII)
/// ASCII representation digits consist of [A-Za-z0-9+/]
pub fn byte_to_b64_ascii(i: u8) -> (r: u8)
    requires
        i < 64,
    ensures
        r == b64_digit(i as int),
{
    if i < 26 {
        // [A-Z]
        i + 65
    } else if i < 52 {
        // [a-z]
        i + 71
    } else if i < 62 {
        // [0-9]
        i - 52 + 48
    } else if i == 62 {
        // (+)
        43
    } else {
        // (/)
        47
    }
}

/// Converts three bytes into four base64 digits.
fn hex_triad_to_base64_quad(a: u8, b: u8, c: u8) -> (r: Vec<u8>)
    ensures
        r@ == quad_encoded(a, b, c),
{
    proof {
        lemma_b64_bits(a, b, c);
    }
    let first_digit = a >> 2;
    let second_digit = ((a << 4) + (b >> 4)) & 0x3f;
    let third_digit = ((b << 2) + (c >> 6)) & 0x3f;
    let fourth_digit = c & 0x3f;
    let r = vec![
        byte_to_b64_ascii(first_digit),
        byte_to_b64_ascii(second_digit),
        byte_to_b64_ascii(third_digit),
        byte_to_b64_ascii(fourth_digit),
    ];
    assert(r@ =~= quad_encoded(a, b, c));
    r
}

} // verus!
