//! Arithmetic in GF(2^8) and the MixColumns matrix built on it.
//!
//! Field elements are bytes, read as polynomials over GF(2) and reduced by
//! x^8 + x^4 + x^3 + x + 1.

use vstd::prelude::*;

verus! {

/// The product of `x` and the polynomial `x` (the byte 2): a left shift,
/// reduced by the field polynomial when a bit leaves the byte.
pub open spec fn double(x: u8) -> u8 {
    if x >= 0x80 {
        (x << 1) ^ 0x1b
    } else {
        x << 1
    }
}

/// `b` if bit `i` of `a` is set, and zero otherwise.
pub open spec fn term(a: u8, i: u8, b: u8) -> u8 {
    if (a >> i) & 1 == 1 {
        b
    } else {
        0
    }
}

/// The product of `a` and `b` in GF(2^8): the sum, over the bits set in `a`,
/// of `b` doubled as many times as the bit's position says.
#[verifier::opaque]
pub open spec fn gf_mul(a: u8, b: u8) -> u8 {
    let b1 = double(b);
    let b2 = double(b1);
    let b3 = double(b2);
    let b4 = double(b3);
    let b5 = double(b4);
    let b6 = double(b5);
    let b7 = double(b6);
    term(a, 0, b) ^ term(a, 1, b1) ^ term(a, 2, b2) ^ term(a, 3, b3) ^ term(a, 4, b4) ^ term(
        a,
        5,
        b5,
    ) ^ term(a, 6, b6) ^ term(a, 7, b7)
}

/// The coefficients of the first row of the MixColumns matrix.
pub open spec fn forward_coefficients() -> Seq<u8> {
    seq![2u8, 3u8, 1u8, 1u8]
}

/// The coefficients of the first row of the InverseMixColumns matrix.
pub open spec fn inverse_coefficients() -> Seq<u8> {
    seq![14u8, 11u8, 13u8, 9u8]
}

/// One entry of a matrix-vector product: the row `(k0, k1, k2, k3)` times the
/// column `(c0, c1, c2, c3)`.
pub open spec fn row_product(k0: u8, k1: u8, k2: u8, k3: u8, c0: u8, c1: u8, c2: u8, c3: u8) -> u8 {
    gf_mul(k0, c0) ^ gf_mul(k1, c1) ^ gf_mul(k2, c2) ^ gf_mul(k3, c3)
}

/// The product of the circulant matrix whose first row is `k` with the column
/// `c`. Each further row is the row above it, rotated right by one place.
pub open spec fn circulant_product(k: Seq<u8>, c: Seq<u8>) -> Seq<u8> {
    seq![
        row_product(k[0], k[1], k[2], k[3], c[0], c[1], c[2], c[3]),
        row_product(k[3], k[0], k[1], k[2], c[0], c[1], c[2], c[3]),
        row_product(k[2], k[3], k[0], k[1], c[0], c[1], c[2], c[3]),
        row_product(k[1], k[2], k[3], k[0], c[0], c[1], c[2], c[3]),
    ]
}

/// The products by the constants of the two matrices, built from doubling
/// and addition alone.
pub proof fn lemma_products_by_doubling(x: u8)
    by (bit_vector)
    ensures
        gf_mul(0, x) == 0,
        gf_mul(1, x) == x,
        gf_mul(2, x) == double(x),
        gf_mul(3, x) == double(x) ^ x,
        gf_mul(4, x) == double(double(x)),
        gf_mul(8, x) == double(double(double(x))),
        gf_mul(9, x) == double(double(double(x))) ^ x,
        gf_mul(11, x) == double(double(double(x))) ^ double(x) ^ x,
        gf_mul(13, x) == double(double(double(x))) ^ double(double(x)) ^ x,
        gf_mul(14, x) == double(double(double(x))) ^ double(double(x)) ^ double(x),
{
}

proof fn lemma_reduced_shift(x: u8, m: u8)
    by (bit_vector)
    requires
        m == (if x >= 0x80 { 0x1bu8 } else { 0u8 }),
    ensures
        (x >> 7) & 1 == (if x >= 0x80 { 1u8 } else { 0u8 }),
        (x << 1) ^ m == double(x),
        (x << 1) ^ x ^ m == double(x) ^ x,
{
}

proof fn lemma_xor_zero(x: u8)
    by (bit_vector)
    ensures
        x ^ 0u8 ^ 0u8 ^ 0u8 == x,
        0u8 ^ x ^ 0u8 ^ 0u8 == x,
        0u8 ^ 0u8 ^ x ^ 0u8 == x,
        0u8 ^ 0u8 ^ 0u8 ^ x == x,
{
}

proof fn lemma_forward_product_is_linear(x: u8, y: u8)
    by (bit_vector)
    ensures
        gf_mul(1, x ^ y) == gf_mul(1, x) ^ gf_mul(1, y),
        gf_mul(2, x ^ y) == gf_mul(2, x) ^ gf_mul(2, y),
        gf_mul(3, x ^ y) == gf_mul(3, x) ^ gf_mul(3, y),
{
}

proof fn lemma_inverse_product_is_linear(x: u8, y: u8)
    by (bit_vector)
    ensures
        gf_mul(9, x ^ y) == gf_mul(9, x) ^ gf_mul(9, y),
        gf_mul(11, x ^ y) == gf_mul(11, x) ^ gf_mul(11, y),
        gf_mul(13, x ^ y) == gf_mul(13, x) ^ gf_mul(13, y),
        gf_mul(14, x ^ y) == gf_mul(14, x) ^ gf_mul(14, y),
{
}

// Row by row and column by column, the entries of the product of the
// InverseMixColumns matrix with the MixColumns matrix, applied to `x`.
proof fn lemma_matrix_entries(x: u8)
    by (bit_vector)
    ensures
        gf_mul(14, gf_mul(2, x)) ^ gf_mul(11, gf_mul(1, x))
            ^ gf_mul(13, gf_mul(1, x)) ^ gf_mul(9, gf_mul(3, x)) == x,
        gf_mul(14, gf_mul(3, x)) ^ gf_mul(11, gf_mul(2, x))
            ^ gf_mul(13, gf_mul(1, x)) ^ gf_mul(9, gf_mul(1, x)) == 0,
        gf_mul(14, gf_mul(1, x)) ^ gf_mul(11, gf_mul(3, x))
            ^ gf_mul(13, gf_mul(2, x)) ^ gf_mul(9, gf_mul(1, x)) == 0,
        gf_mul(14, gf_mul(1, x)) ^ gf_mul(11, gf_mul(1, x))
            ^ gf_mul(13, gf_mul(3, x)) ^ gf_mul(9, gf_mul(2, x)) == 0,
        gf_mul(9, gf_mul(2, x)) ^ gf_mul(14, gf_mul(1, x))
            ^ gf_mul(11, gf_mul(1, x)) ^ gf_mul(13, gf_mul(3, x)) == 0,
        gf_mul(9, gf_mul(3, x)) ^ gf_mul(14, gf_mul(2, x))
            ^ gf_mul(11, gf_mul(1, x)) ^ gf_mul(13, gf_mul(1, x)) == x,
        gf_mul(9, gf_mul(1, x)) ^ gf_mul(14, gf_mul(3, x))
            ^ gf_mul(11, gf_mul(2, x)) ^ gf_mul(13, gf_mul(1, x)) == 0,
        gf_mul(9, gf_mul(1, x)) ^ gf_mul(14, gf_mul(1, x))
            ^ gf_mul(11, gf_mul(3, x)) ^ gf_mul(13, gf_mul(2, x)) == 0,
        gf_mul(13, gf_mul(2, x)) ^ gf_mul(9, gf_mul(1, x))
            ^ gf_mul(14, gf_mul(1, x)) ^ gf_mul(11, gf_mul(3, x)) == 0,
        gf_mul(13, gf_mul(3, x)) ^ gf_mul(9, gf_mul(2, x))
            ^ gf_mul(14, gf_mul(1, x)) ^ gf_mul(11, gf_mul(1, x)) == 0,
        gf_mul(13, gf_mul(1, x)) ^ gf_mul(9, gf_mul(3, x))
            ^ gf_mul(14, gf_mul(2, x)) ^ gf_mul(11, gf_mul(1, x)) == x,
        gf_mul(13, gf_mul(1, x)) ^ gf_mul(9, gf_mul(1, x))
            ^ gf_mul(14, gf_mul(3, x)) ^ gf_mul(11, gf_mul(2, x)) == 0,
        gf_mul(11, gf_mul(2, x)) ^ gf_mul(13, gf_mul(1, x))
            ^ gf_mul(9, gf_mul(1, x)) ^ gf_mul(14, gf_mul(3, x)) == 0,
        gf_mul(11, gf_mul(3, x)) ^ gf_mul(13, gf_mul(2, x))
            ^ gf_mul(9, gf_mul(1, x)) ^ gf_mul(14, gf_mul(1, x)) == 0,
        gf_mul(11, gf_mul(1, x)) ^ gf_mul(13, gf_mul(3, x))
            ^ gf_mul(9, gf_mul(2, x)) ^ gf_mul(14, gf_mul(1, x)) == 0,
        gf_mul(11, gf_mul(1, x)) ^ gf_mul(13, gf_mul(1, x))
            ^ gf_mul(9, gf_mul(3, x)) ^ gf_mul(14, gf_mul(2, x)) == x,
{
}

// The same for the product of the MixColumns matrix with the
// InverseMixColumns matrix.
proof fn lemma_matrix_entries_reversed(x: u8)
    by (bit_vector)
    ensures
        gf_mul(2, gf_mul(14, x)) ^ gf_mul(3, gf_mul(9, x))
            ^ gf_mul(1, gf_mul(13, x)) ^ gf_mul(1, gf_mul(11, x)) == x,
        gf_mul(2, gf_mul(11, x)) ^ gf_mul(3, gf_mul(14, x))
            ^ gf_mul(1, gf_mul(9, x)) ^ gf_mul(1, gf_mul(13, x)) == 0,
        gf_mul(2, gf_mul(13, x)) ^ gf_mul(3, gf_mul(11, x))
            ^ gf_mul(1, gf_mul(14, x)) ^ gf_mul(1, gf_mul(9, x)) == 0,
        gf_mul(2, gf_mul(9, x)) ^ gf_mul(3, gf_mul(13, x))
            ^ gf_mul(1, gf_mul(11, x)) ^ gf_mul(1, gf_mul(14, x)) == 0,
        gf_mul(1, gf_mul(14, x)) ^ gf_mul(2, gf_mul(9, x))
            ^ gf_mul(3, gf_mul(13, x)) ^ gf_mul(1, gf_mul(11, x)) == 0,
        gf_mul(1, gf_mul(11, x)) ^ gf_mul(2, gf_mul(14, x))
            ^ gf_mul(3, gf_mul(9, x)) ^ gf_mul(1, gf_mul(13, x)) == x,
        gf_mul(1, gf_mul(13, x)) ^ gf_mul(2, gf_mul(11, x))
            ^ gf_mul(3, gf_mul(14, x)) ^ gf_mul(1, gf_mul(9, x)) == 0,
        gf_mul(1, gf_mul(9, x)) ^ gf_mul(2, gf_mul(13, x))
            ^ gf_mul(3, gf_mul(11, x)) ^ gf_mul(1, gf_mul(14, x)) == 0,
        gf_mul(1, gf_mul(14, x)) ^ gf_mul(1, gf_mul(9, x))
            ^ gf_mul(2, gf_mul(13, x)) ^ gf_mul(3, gf_mul(11, x)) == 0,
        gf_mul(1, gf_mul(11, x)) ^ gf_mul(1, gf_mul(14, x))
            ^ gf_mul(2, gf_mul(9, x)) ^ gf_mul(3, gf_mul(13, x)) == 0,
        gf_mul(1, gf_mul(13, x)) ^ gf_mul(1, gf_mul(11, x))
            ^ gf_mul(2, gf_mul(14, x)) ^ gf_mul(3, gf_mul(9, x)) == x,
        gf_mul(1, gf_mul(9, x)) ^ gf_mul(1, gf_mul(13, x))
            ^ gf_mul(2, gf_mul(11, x)) ^ gf_mul(3, gf_mul(14, x)) == 0,
        gf_mul(3, gf_mul(14, x)) ^ gf_mul(1, gf_mul(9, x))
            ^ gf_mul(1, gf_mul(13, x)) ^ gf_mul(2, gf_mul(11, x)) == 0,
        gf_mul(3, gf_mul(11, x)) ^ gf_mul(1, gf_mul(14, x))
            ^ gf_mul(1, gf_mul(9, x)) ^ gf_mul(2, gf_mul(13, x)) == 0,
        gf_mul(3, gf_mul(13, x)) ^ gf_mul(1, gf_mul(11, x))
            ^ gf_mul(1, gf_mul(14, x)) ^ gf_mul(2, gf_mul(9, x)) == 0,
        gf_mul(3, gf_mul(9, x)) ^ gf_mul(1, gf_mul(13, x))
            ^ gf_mul(1, gf_mul(11, x)) ^ gf_mul(2, gf_mul(14, x)) == x,
{
}

proof fn lemma_sum_by_columns(
    t00: u8,
    t01: u8,
    t02: u8,
    t03: u8,
    t10: u8,
    t11: u8,
    t12: u8,
    t13: u8,
    t20: u8,
    t21: u8,
    t22: u8,
    t23: u8,
    t30: u8,
    t31: u8,
    t32: u8,
    t33: u8,
)
    by (bit_vector)
    ensures
        (t00 ^ t01 ^ t02 ^ t03) ^ (t10 ^ t11 ^ t12 ^ t13) ^ (t20 ^ t21 ^ t22 ^ t23) ^ (t30 ^ t31
            ^ t32 ^ t33) == (t00 ^ t10 ^ t20 ^ t30) ^ (t01 ^ t11 ^ t21 ^ t31) ^ (t02 ^ t12 ^ t22
            ^ t32) ^ (t03 ^ t13 ^ t23 ^ t33),
{
}

/// InverseMixColumns undoes MixColumns: the product of the two matrices is
/// the identity, so a column multiplied by the one and then by the other is
/// the column again.
pub proof fn lemma_inverse_mix_column(c: Seq<u8>)
    requires
        c.len() == 4,
    ensures
        circulant_product(inverse_coefficients(), circulant_product(forward_coefficients(), c))
            == c,
{
    let c0 = c[0];
    let c1 = c[1];
    let c2 = c[2];
    let c3 = c[3];
    lemma_matrix_entries(c0);
    lemma_matrix_entries(c1);
    lemma_matrix_entries(c2);
    lemma_matrix_entries(c3);
    lemma_xor_zero(c0);
    lemma_xor_zero(c1);
    lemma_xor_zero(c2);
    lemma_xor_zero(c3);
    lemma_inverse_product_is_linear(gf_mul(2, c0), gf_mul(3, c1));
    lemma_inverse_product_is_linear(gf_mul(2, c0) ^ gf_mul(3, c1), gf_mul(1, c2));
    lemma_inverse_product_is_linear(
        gf_mul(2, c0) ^ gf_mul(3, c1) ^ gf_mul(1, c2),
        gf_mul(1, c3),
    );
    lemma_inverse_product_is_linear(gf_mul(1, c0), gf_mul(2, c1));
    lemma_inverse_product_is_linear(gf_mul(1, c0) ^ gf_mul(2, c1), gf_mul(3, c2));
    lemma_inverse_product_is_linear(
        gf_mul(1, c0) ^ gf_mul(2, c1) ^ gf_mul(3, c2),
        gf_mul(1, c3),
    );
    lemma_inverse_product_is_linear(gf_mul(1, c0), gf_mul(1, c1));
    lemma_inverse_product_is_linear(gf_mul(1, c0) ^ gf_mul(1, c1), gf_mul(2, c2));
    lemma_inverse_product_is_linear(
        gf_mul(1, c0) ^ gf_mul(1, c1) ^ gf_mul(2, c2),
        gf_mul(3, c3),
    );
    lemma_inverse_product_is_linear(gf_mul(3, c0), gf_mul(1, c1));
    lemma_inverse_product_is_linear(gf_mul(3, c0) ^ gf_mul(1, c1), gf_mul(1, c2));
    lemma_inverse_product_is_linear(
        gf_mul(3, c0) ^ gf_mul(1, c1) ^ gf_mul(1, c2),
        gf_mul(2, c3),
    );
    lemma_sum_by_columns(
        gf_mul(14, gf_mul(2, c0)),
        gf_mul(14, gf_mul(3, c1)),
        gf_mul(14, gf_mul(1, c2)),
        gf_mul(14, gf_mul(1, c3)),
        gf_mul(11, gf_mul(1, c0)),
        gf_mul(11, gf_mul(2, c1)),
        gf_mul(11, gf_mul(3, c2)),
        gf_mul(11, gf_mul(1, c3)),
        gf_mul(13, gf_mul(1, c0)),
        gf_mul(13, gf_mul(1, c1)),
        gf_mul(13, gf_mul(2, c2)),
        gf_mul(13, gf_mul(3, c3)),
        gf_mul(9, gf_mul(3, c0)),
        gf_mul(9, gf_mul(1, c1)),
        gf_mul(9, gf_mul(1, c2)),
        gf_mul(9, gf_mul(2, c3)),
    );
    lemma_sum_by_columns(
        gf_mul(9, gf_mul(2, c0)),
        gf_mul(9, gf_mul(3, c1)),
        gf_mul(9, gf_mul(1, c2)),
        gf_mul(9, gf_mul(1, c3)),
        gf_mul(14, gf_mul(1, c0)),
        gf_mul(14, gf_mul(2, c1)),
        gf_mul(14, gf_mul(3, c2)),
        gf_mul(14, gf_mul(1, c3)),
        gf_mul(11, gf_mul(1, c0)),
        gf_mul(11, gf_mul(1, c1)),
        gf_mul(11, gf_mul(2, c2)),
        gf_mul(11, gf_mul(3, c3)),
        gf_mul(13, gf_mul(3, c0)),
        gf_mul(13, gf_mul(1, c1)),
        gf_mul(13, gf_mul(1, c2)),
        gf_mul(13, gf_mul(2, c3)),
    );
    lemma_sum_by_columns(
        gf_mul(13, gf_mul(2, c0)),
        gf_mul(13, gf_mul(3, c1)),
        gf_mul(13, gf_mul(1, c2)),
        gf_mul(13, gf_mul(1, c3)),
        gf_mul(9, gf_mul(1, c0)),
        gf_mul(9, gf_mul(2, c1)),
        gf_mul(9, gf_mul(3, c2)),
        gf_mul(9, gf_mul(1, c3)),
        gf_mul(14, gf_mul(1, c0)),
        gf_mul(14, gf_mul(1, c1)),
        gf_mul(14, gf_mul(2, c2)),
        gf_mul(14, gf_mul(3, c3)),
        gf_mul(11, gf_mul(3, c0)),
        gf_mul(11, gf_mul(1, c1)),
        gf_mul(11, gf_mul(1, c2)),
        gf_mul(11, gf_mul(2, c3)),
    );
    lemma_sum_by_columns(
        gf_mul(11, gf_mul(2, c0)),
        gf_mul(11, gf_mul(3, c1)),
        gf_mul(11, gf_mul(1, c2)),
        gf_mul(11, gf_mul(1, c3)),
        gf_mul(13, gf_mul(1, c0)),
        gf_mul(13, gf_mul(2, c1)),
        gf_mul(13, gf_mul(3, c2)),
        gf_mul(13, gf_mul(1, c3)),
        gf_mul(9, gf_mul(1, c0)),
        gf_mul(9, gf_mul(1, c1)),
        gf_mul(9, gf_mul(2, c2)),
        gf_mul(9, gf_mul(3, c3)),
        gf_mul(14, gf_mul(3, c0)),
        gf_mul(14, gf_mul(1, c1)),
        gf_mul(14, gf_mul(1, c2)),
        gf_mul(14, gf_mul(2, c3)),
    );
    let mixed = circulant_product(forward_coefficients(), c);
    let back = circulant_product(inverse_coefficients(), mixed);
    assert(back[0] == c0);
    assert(back[1] == c1);
    assert(back[2] == c2);
    assert(back[3] == c3);
    assert(back =~= c);
}

/// MixColumns undoes InverseMixColumns.
pub proof fn lemma_mix_inverse_column(c: Seq<u8>)
    requires
        c.len() == 4,
    ensures
        circulant_product(forward_coefficients(), circulant_product(inverse_coefficients(), c))
            == c,
{
    let c0 = c[0];
    let c1 = c[1];
    let c2 = c[2];
    let c3 = c[3];
    lemma_matrix_entries_reversed(c0);
    lemma_matrix_entries_reversed(c1);
    lemma_matrix_entries_reversed(c2);
    lemma_matrix_entries_reversed(c3);
    lemma_xor_zero(c0);
    lemma_xor_zero(c1);
    lemma_xor_zero(c2);
    lemma_xor_zero(c3);
    lemma_forward_product_is_linear(gf_mul(14, c0), gf_mul(11, c1));
    lemma_forward_product_is_linear(gf_mul(14, c0) ^ gf_mul(11, c1), gf_mul(13, c2));
    lemma_forward_product_is_linear(
        gf_mul(14, c0) ^ gf_mul(11, c1) ^ gf_mul(13, c2),
        gf_mul(9, c3),
    );
    lemma_forward_product_is_linear(gf_mul(9, c0), gf_mul(14, c1));
    lemma_forward_product_is_linear(gf_mul(9, c0) ^ gf_mul(14, c1), gf_mul(11, c2));
    lemma_forward_product_is_linear(
        gf_mul(9, c0) ^ gf_mul(14, c1) ^ gf_mul(11, c2),
        gf_mul(13, c3),
    );
    lemma_forward_product_is_linear(gf_mul(13, c0), gf_mul(9, c1));
    lemma_forward_product_is_linear(gf_mul(13, c0) ^ gf_mul(9, c1), gf_mul(14, c2));
    lemma_forward_product_is_linear(
        gf_mul(13, c0) ^ gf_mul(9, c1) ^ gf_mul(14, c2),
        gf_mul(11, c3),
    );
    lemma_forward_product_is_linear(gf_mul(11, c0), gf_mul(13, c1));
    lemma_forward_product_is_linear(gf_mul(11, c0) ^ gf_mul(13, c1), gf_mul(9, c2));
    lemma_forward_product_is_linear(
        gf_mul(11, c0) ^ gf_mul(13, c1) ^ gf_mul(9, c2),
        gf_mul(14, c3),
    );
    lemma_sum_by_columns(
        gf_mul(2, gf_mul(14, c0)),
        gf_mul(2, gf_mul(11, c1)),
        gf_mul(2, gf_mul(13, c2)),
        gf_mul(2, gf_mul(9, c3)),
        gf_mul(3, gf_mul(9, c0)),
        gf_mul(3, gf_mul(14, c1)),
        gf_mul(3, gf_mul(11, c2)),
        gf_mul(3, gf_mul(13, c3)),
        gf_mul(1, gf_mul(13, c0)),
        gf_mul(1, gf_mul(9, c1)),
        gf_mul(1, gf_mul(14, c2)),
        gf_mul(1, gf_mul(11, c3)),
        gf_mul(1, gf_mul(11, c0)),
        gf_mul(1, gf_mul(13, c1)),
        gf_mul(1, gf_mul(9, c2)),
        gf_mul(1, gf_mul(14, c3)),
    );
    lemma_sum_by_columns(
        gf_mul(1, gf_mul(14, c0)),
        gf_mul(1, gf_mul(11, c1)),
        gf_mul(1, gf_mul(13, c2)),
        gf_mul(1, gf_mul(9, c3)),
        gf_mul(2, gf_mul(9, c0)),
        gf_mul(2, gf_mul(14, c1)),
        gf_mul(2, gf_mul(11, c2)),
        gf_mul(2, gf_mul(13, c3)),
        gf_mul(3, gf_mul(13, c0)),
        gf_mul(3, gf_mul(9, c1)),
        gf_mul(3, gf_mul(14, c2)),
        gf_mul(3, gf_mul(11, c3)),
        gf_mul(1, gf_mul(11, c0)),
        gf_mul(1, gf_mul(13, c1)),
        gf_mul(1, gf_mul(9, c2)),
        gf_mul(1, gf_mul(14, c3)),
    );
    lemma_sum_by_columns(
        gf_mul(1, gf_mul(14, c0)),
        gf_mul(1, gf_mul(11, c1)),
        gf_mul(1, gf_mul(13, c2)),
        gf_mul(1, gf_mul(9, c3)),
        gf_mul(1, gf_mul(9, c0)),
        gf_mul(1, gf_mul(14, c1)),
        gf_mul(1, gf_mul(11, c2)),
        gf_mul(1, gf_mul(13, c3)),
        gf_mul(2, gf_mul(13, c0)),
        gf_mul(2, gf_mul(9, c1)),
        gf_mul(2, gf_mul(14, c2)),
        gf_mul(2, gf_mul(11, c3)),
        gf_mul(3, gf_mul(11, c0)),
        gf_mul(3, gf_mul(13, c1)),
        gf_mul(3, gf_mul(9, c2)),
        gf_mul(3, gf_mul(14, c3)),
    );
    lemma_sum_by_columns(
        gf_mul(3, gf_mul(14, c0)),
        gf_mul(3, gf_mul(11, c1)),
        gf_mul(3, gf_mul(13, c2)),
        gf_mul(3, gf_mul(9, c3)),
        gf_mul(1, gf_mul(9, c0)),
        gf_mul(1, gf_mul(14, c1)),
        gf_mul(1, gf_mul(11, c2)),
        gf_mul(1, gf_mul(13, c3)),
        gf_mul(1, gf_mul(13, c0)),
        gf_mul(1, gf_mul(9, c1)),
        gf_mul(1, gf_mul(14, c2)),
        gf_mul(1, gf_mul(11, c3)),
        gf_mul(2, gf_mul(11, c0)),
        gf_mul(2, gf_mul(13, c1)),
        gf_mul(2, gf_mul(9, c2)),
        gf_mul(2, gf_mul(14, c3)),
    );
    let mixed = circulant_product(inverse_coefficients(), c);
    let back = circulant_product(forward_coefficients(), mixed);
    assert(back[0] == c0);
    assert(back[1] == c1);
    assert(back[2] == c2);
    assert(back[3] == c3);
    assert(back =~= c);
}

/// The byte that reduces a doubled `operand`: 0x1B if its top bit is set,
/// and zero otherwise.
pub fn modulus(operand: u8) -> (r: u8)
    ensures
        r == (if operand >= 0x80 { 0x1bu8 } else { 0u8 }),
{
    proof {
        lemma_reduced_shift(operand, if operand >= 0x80 { 0x1bu8 } else { 0u8 });
    }
    ((operand >> 7) & 1) * 0x1B
}

/// Multiplies `operand` by 3 in GF(2^8).
pub fn into_3(operand: u8) -> (r: u8)
    ensures
        r == gf_mul(3, operand),
{
    let m = modulus(operand);
    proof {
        lemma_reduced_shift(operand, m);
        lemma_products_by_doubling(operand);
    }
    (operand << 1) ^ operand ^ m
}

/// Multiplies `operand` by 2 in GF(2^8).
pub fn into_2(operand: u8) -> (r: u8)
    ensures
        r == gf_mul(2, operand),
{
    let m = modulus(operand);
    proof {
        lemma_reduced_shift(operand, m);
        lemma_products_by_doubling(operand);
    }
    (operand << 1) ^ m
}

/// Multiplies `operand` by 4 in GF(2^8).
pub fn into_4(operand: u8) -> (r: u8)
    ensures
        r == gf_mul(4, operand),
{
    proof {
        lemma_products_by_doubling(operand);
        lemma_products_by_doubling(double(operand));
    }
    into_2(into_2(operand))
}

/// Multiplies `operand` by 8 in GF(2^8).
pub fn into_8(operand: u8) -> (r: u8)
    ensures
        r == gf_mul(8, operand),
{
    proof {
        lemma_products_by_doubling(operand);
        lemma_products_by_doubling(double(operand));
        lemma_products_by_doubling(double(double(operand)));
    }
    into_2(into_2(into_2(operand)))
}

/// Multiplies `operand` by 9 in GF(2^8).
pub fn into_9(operand: u8) -> (r: u8)
    ensures
        r == gf_mul(9, operand),
{
    proof {
        lemma_products_by_doubling(operand);
    }
    into_8(operand) ^ operand
}

/// Multiplies `operand` by 11 in GF(2^8).
pub fn into_11(operand: u8) -> (r: u8)
    ensures
        r == gf_mul(11, operand),
{
    proof {
        lemma_products_by_doubling(operand);
    }
    into_8(operand) ^ into_2(operand) ^ operand
}

/// Multiplies `operand` by 13 in GF(2^8).
pub fn into_13(operand: u8) -> (r: u8)
    ensures
        r == gf_mul(13, operand),
{
    proof {
        lemma_products_by_doubling(operand);
    }
    into_8(operand) ^ into_4(operand) ^ operand
}

/// Multiplies `operand` by 14 in GF(2^8).
pub fn into_14(operand: u8) -> (r: u8)
    ensures
        r == gf_mul(14, operand),
{
    proof {
        lemma_products_by_doubling(operand);
    }
    into_8(operand) ^ into_4(operand) ^ into_2(operand)
}

/// Multiplies `operand` by 1: the coefficient of the matrix entries that
/// leave a byte as it is.
pub fn into_1(operand: u8) -> (r: u8)
    ensures
        r == gf_mul(1, operand),
{
    proof {
        lemma_products_by_doubling(operand);
    }
    operand
}

/// Applies the four multipliers in `b` to the first four bytes of `a`, one
/// each, and adds the results in GF(2^8).
pub fn dot_product<F0, F1, F2, F3>(a: &[u8], b: (F0, F1, F2, F3)) -> (r: u8) where
    F0: Fn(u8) -> u8,
    F1: Fn(u8) -> u8,
    F2: Fn(u8) -> u8,
    F3: Fn(u8) -> u8,

    requires
        a@.len() >= 4,
        call_requires(b.0, (a@[0],)),
        call_requires(b.1, (a@[1],)),
        call_requires(b.2, (a@[2],)),
        call_requires(b.3, (a@[3],)),
    ensures
        (exists|p0: u8, p1: u8, p2: u8, p3: u8|
            {
                &&& #[trigger] call_ensures(b.0, (a@[0],), p0)
                &&& #[trigger] call_ensures(b.1, (a@[1],), p1)
                &&& #[trigger] call_ensures(b.2, (a@[2],), p2)
                &&& #[trigger] call_ensures(b.3, (a@[3],), p3)
                &&& r == p0 ^ p1 ^ p2 ^ p3
            }),
{
    let p0 = (b.0)(a[0]);
    let p1 = (b.1)(a[1]);
    let p2 = (b.2)(a[2]);
    let p3 = (b.3)(a[3]);
    p0 ^ p1 ^ p2 ^ p3
}

/// Multiplies the column in the first four bytes of `vector` by the
/// MixColumns matrix.
pub fn multiply_circulant(vector: &[u8]) -> (r: Vec<u8>)
    requires
        vector@.len() >= 4,
    ensures
        r@ == circulant_product(forward_coefficients(), vector@),
{
    let r0 = dot_product(vector, (into_2, into_3, into_1, into_1));
    let r1 = dot_product(vector, (into_1, into_2, into_3, into_1));
    let r2 = dot_product(vector, (into_1, into_1, into_2, into_3));
    let r3 = dot_product(vector, (into_3, into_1, into_1, into_2));
    vec![r0, r1, r2, r3]
}

/// Multiplies the column in the first four bytes of `vector` by the
/// InverseMixColumns matrix.
pub fn multiply_circulant_inverse(vector: &[u8]) -> (r: Vec<u8>)
    requires
        vector@.len() >= 4,
    ensures
        r@ == circulant_product(inverse_coefficients(), vector@),
{
    let r0 = dot_product(vector, (into_14, into_11, into_13, into_9));
    let r1 = dot_product(vector, (into_9, into_14, into_11, into_13));
    let r2 = dot_product(vector, (into_13, into_9, into_14, into_11));
    let r3 = dot_product(vector, (into_11, into_13, into_9, into_14));
    vec![r0, r1, r2, r3]
}

} // verus!
