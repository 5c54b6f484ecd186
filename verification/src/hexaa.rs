//! Exclusive or on byte strings, and counting bits.

use vstd::prelude::*;

verus! {

/// The bytes of `a` and `b`, place by place, combined by exclusive or, as far
/// as both reach.
pub open spec fn xored(a: Seq<u8>, b: Seq<u8>) -> Seq<u8> {
    Seq::new(
        if a.len() <= b.len() {
            a.len()
        } else {
            b.len()
        },
        |i: int| a[i] ^ b[i],
    )
}

/// Each byte of `bytes` combined with `key` by exclusive or.
pub open spec fn xored_with_byte(bytes: Seq<u8>, key: u8) -> Seq<u8> {
    Seq::new(bytes.len(), |i: int| bytes[i] ^ key)
}

/// What bit `i` of `byte` adds to a count of its bits.
pub open spec fn bit(byte: u8, i: u8) -> int {
    if (byte >> i) & 1 == 1 {
        1
    } else {
        0
    }
}

/// The number of bits set in `byte`.
pub open spec fn bit_count(byte: u8) -> int {
    bit(byte, 0) + bit(byte, 1) + bit(byte, 2) + bit(byte, 3) + bit(byte, 4) + bit(byte, 5) + bit(
        byte,
        6,
    ) + bit(byte, 7)
}

/// The number of bits set in the first `n` of `bytes`.
pub open spec fn bits_set(bytes: Seq<u8>, n: nat) -> int
    decreases n,
{
    if n == 0 {
        0
    } else {
        bits_set(bytes, (n - 1) as nat) + bit_count(bytes[n - 1])
    }
}

/// The first `n` bytes hold at most eight bits each.
pub proof fn lemma_bits_set_bound(bytes: Seq<u8>, n: nat)
    ensures
        0 <= bits_set(bytes, n) <= 8 * n,
    decreases n,
{
    if n > 0 {
        lemma_bits_set_bound(bytes, (n - 1) as nat);
    }
}

proof fn lemma_xor_twice(a: u8, b: u8)
    by (bit_vector)
    ensures
        (a ^ b) ^ b == a,
{
}

/// Exclusive or with the same byte, done twice, gives the bytes back.
pub proof fn lemma_xored_with_byte_twice(bytes: Seq<u8>, key: u8)
    ensures
        xored_with_byte(xored_with_byte(bytes, key), key) == bytes,
{
    assert forall|i: int| 0 <= i < bytes.len() implies (bytes[i] ^ key) ^ key == bytes[i] by {
        lemma_xor_twice(bytes[i], key);
    }
    assert(xored_with_byte(xored_with_byte(bytes, key), key) =~= bytes);
}

/// Exclusive or with the same bytes, done twice, gives the first bytes back
/// as far as the second reach.
pub proof fn lemma_xored_twice(a: Seq<u8>, b: Seq<u8>)
    ensures
        xored(xored(a, b), b) == a.take(xored(a, b).len() as int),
{
    assert forall|i: int| 0 <= i < xored(a, b).len() implies (a[i] ^ b[i]) ^ b[i] == a[i] by {
        lemma_xor_twice(a[i], b[i]);
    }
    assert(xored(xored(a, b), b) =~= a.take(xored(a, b).len() as int));
}

proof fn lemma_lowest_bit_cleared(byte: u8)
    by (bit_vector)
    ensures
        byte == 0 ==> bit_count(byte) == 0,
        byte != 0 ==> byte & ((byte - 1) as u8) < byte,
        byte != 0 ==> bit_count(byte & ((byte - 1) as u8)) + 1 == bit_count(byte),
{
}

proof fn lemma_nibbles(h: u8)
    by (bit_vector)
    ensures
        ((h & 0xf0) as u16) << 4 == (h / 16) * 256,
        (h & 0x0f) as u16 == h % 16,
{
}

/// XORs a vector of bytes with repeated instances of another byte.
pub fn repeated_byte_xor(bytes1: &Vec<u8>, charr: u8) -> (r: Vec<u8>)
    ensures
        r@ == xored_with_byte(bytes1@, charr),
{
    let mut bytes2: Vec<u8> = Vec::new();
    let mut i: usize = 0;
    while i < bytes1.len()
        invariant
            i <= bytes1.len(),
            bytes2@.len() == i,
            forall|j: int| 0 <= j < i ==> bytes2@[j] == charr,
        decreases bytes1.len() - i,
    {
        bytes2.push(charr);
        i += 1;
    }
    let r = xor_bytes(bytes1, &bytes2);
    assert(r@ =~= xored_with_byte(bytes1@, charr));
    r
}

/// XORs the bytes in the input vectors sequentially, as far as both reach.
pub fn xor_bytes(b1: &Vec<u8>, b2: &Vec<u8>) -> (r: Vec<u8>)
    ensures
        r@ == xored(b1@, b2@),
{
    let n = if b1.len() <= b2.len() {
        b1.len()
    } else {
        b2.len()
    };
    let mut out: Vec<u8> = Vec::new();
    let mut i: usize = 0;
    while i < n
        invariant
            i <= n,
            n <= b1.len(),
            n <= b2.len(),
            out@ == xored(b1@, b2@).take(i as int),
            xored(b1@, b2@).len() == n,
        decreases n - i,
    {
        out.push(b1[i] ^ b2[i]);
        i += 1;
        assert(out@ =~= xored(b1@, b2@).take(i as int));
    }
    assert(xored(b1@, b2@).take(n as int) =~= xored(b1@, b2@));
    out
}

/// Splits a byte (representing 2 hex digits) into two, one for each digit:
/// the high digit in the high byte and the low digit in the low byte.
pub fn split_hex(h: &u8) -> (r: u16)
    ensures
        r == (*h / 16) * 256 + *h % 16,
{
    proof {
        lemma_nibbles(*h);
    }
    (((*h & 0xf0) as u16) << 4) + (*h & 0x0f) as u16
}

/// The number of bits set in all of `bytes`.
pub fn count_set_bits_in_bytes(bytes: Vec<u8>) -> (r: u32)
    requires
        8 * bytes@.len() <= u32::MAX,
    ensures
        r == bits_set(bytes@, bytes@.len()),
{
    let mut total: u32 = 0;
    let mut i: usize = 0;
    while i < bytes.len()
        invariant
            i <= bytes.len(),
            8 * bytes@.len() <= u32::MAX,
            total == bits_set(bytes@, i as nat),
        decreases bytes.len() - i,
    {
        proof {
            lemma_bits_set_bound(bytes@, i as nat);
        }
        total = total + count_set_bits(bytes[i]);
        i += 1;
    }
    total
}

/// The number of bits set in `byte`.
pub fn count_set_bits(byte: u8) -> (r: u32)
    ensures
        r == bit_count(byte),
    decreases byte,
{
    proof {
        lemma_lowest_bit_cleared(byte);
    }
    if byte == 0 {
        0
    } else {
        1 + count_set_bits(byte & (byte - 1))
    }
}

} // verus!
