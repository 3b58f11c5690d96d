//! Hamming distance between 64-bit fingerprints.
use vstd::arithmetic::power2::{lemma2_to64, lemma_pow2_unfold, pow2};
use vstd::prelude::*;

verus! {

/// Number of set bits of `x`.
pub open spec fn popcount(x: u64) -> nat
    decreases x,
{
    if x == 0 {
        0
    } else {
        popcount(x / 2) + (x % 2) as nat
    }
}

/// Number of bit positions in which `a` and `b` differ.
pub open spec fn hamming(a: u64, b: u64) -> nat {
    popcount(a ^ b)
}

proof fn lemma_popcount_step(x: u64)
    ensures
        popcount(x) == popcount(x / 2) + (x % 2) as nat,
{
}

proof fn lemma_popcount_below_pow2(x: u64, n: nat)
    requires
        x < pow2(n),
    ensures
        popcount(x) <= n,
    decreases n,
{
    if x != 0 {
        if n == 0 {
            lemma2_to64();
        } else {
            lemma_pow2_unfold(n);
            lemma_popcount_below_pow2(x / 2, (n - 1) as nat);
        }
    }
}

/// A 64-bit value has at most 64 set bits.
pub proof fn lemma_popcount_at_most_64(x: u64)
    ensures
        popcount(x) <= 64,
{
    lemma2_to64();
    lemma_popcount_below_pow2(x, 64);
}

proof fn lemma_popcount_zero(x: u64)
    ensures
        popcount(x) == 0 <==> x == 0,
    decreases x,
{
    if x != 0 && x % 2 == 0 {
        lemma_popcount_zero(x / 2);
    }
}

proof fn lemma_popcount_triangle(a: u64, b: u64, c: u64)
    ensures
        popcount(a ^ c) <= popcount(a ^ b) + popcount(b ^ c),
    decreases a + b + c,
{
    if a != 0 || b != 0 || c != 0 {
        assert((a ^ c) / 2 == (a / 2) ^ (c / 2)) by (bit_vector);
        assert((a ^ b) / 2 == (a / 2) ^ (b / 2)) by (bit_vector);
        assert((b ^ c) / 2 == (b / 2) ^ (c / 2)) by (bit_vector);
        assert((a ^ c) % 2 <= (a ^ b) % 2 + (b ^ c) % 2) by (bit_vector);
        lemma_popcount_step(a ^ c);
        lemma_popcount_step(a ^ b);
        lemma_popcount_step(b ^ c);
        lemma_popcount_triangle(a / 2, b / 2, c / 2);
    }
}

/// Hamming distance is a metric on fingerprints: it is symmetric, it is zero
/// exactly when the two fingerprints are equal, and it obeys the triangle
/// inequality.
pub proof fn lemma_hamming_is_metric(a: u64, b: u64, c: u64)
    ensures
        hamming(a, b) == hamming(b, a),
        hamming(a, b) == 0 <==> a == b,
        hamming(a, c) <= hamming(a, b) + hamming(b, c),
{
    assert(a ^ b == b ^ a) by (bit_vector);
    assert(a ^ b == 0 <==> a == b) by (bit_vector);
    lemma_popcount_zero(a ^ b);
    lemma_popcount_triangle(a, b, c);
}

/// Counts the bit positions in which `a` and `b` differ.
pub fn hamming_u64(a: u64, b: u64) -> (r: u32)
    ensures
        r == hamming(a, b),
        r <= 64,
{
    let diff: u64 = a ^ b;
    let mut x: u64 = diff;
    let mut count: u32 = 0;
    proof {
        lemma_popcount_at_most_64(diff);
    }
    while x != 0
        invariant
            count + popcount(x) == popcount(diff),
            popcount(diff) <= 64,
            diff == a ^ b,
        decreases x,
    {
        count = count + (x % 2) as u32;
        x = x / 2;
    }
    count
}

} // verus!
