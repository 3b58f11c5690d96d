//! Turning per-cell decisions into 64-bit fingerprints, and thresholding
//! values against their median.
use vstd::arithmetic::power2::{lemma2_to64, lemma_pow2_strictly_increases, lemma_pow2_unfold, pow2};
use vstd::prelude::*;
use vstd::relations::{sorted_by, total_ordering};
use vstd::seq_lib::lemma_sorted_unique;

verus! {

/// Packs `bits` most-significant-bit first: the first bit of the sequence
/// ends up as the highest of the `bits.len()` low bits of the result.
pub open spec fn pack_bits(bits: Seq<bool>) -> nat
    decreases bits.len(),
{
    if bits.len() == 0 {
        0
    } else {
        2 * pack_bits(bits.drop_last()) + if bits.last() {
            1nat
        } else {
            0nat
        }
    }
}

/// The order used to sort values before taking their median.
pub open spec fn ascending() -> spec_fn(i64, i64) -> bool {
    |a: i64, b: i64| a <= b
}

/// Marks the values that lie strictly above the median of `v`. For an even
/// number of values the median is the mean of the two middle values of the
/// sorted sequence, so a value `x` is above it when `2 * x` exceeds their sum.
pub open spec fn above_median(v: Seq<i64>) -> Seq<bool> {
    let s = v.sort_by(ascending());
    let m = (v.len() / 2) as int;
    Seq::new(v.len(), |i: int| 2 * v[i] > s[m - 1] + s[m])
}

proof fn lemma_pack_bits_bound(bits: Seq<bool>)
    ensures
        pack_bits(bits) < pow2(bits.len()),
    decreases bits.len(),
{
    if bits.len() == 0 {
        lemma2_to64();
    } else {
        lemma_pack_bits_bound(bits.drop_last());
        lemma_pow2_unfold(bits.len());
    }
}

/// A sequence of cleared bits packs to zero.
pub proof fn lemma_pack_bits_all_clear(bits: Seq<bool>)
    requires
        forall|i: int| 0 <= i < bits.len() ==> !bits[i],
    ensures
        pack_bits(bits) == 0,
    decreases bits.len(),
{
    if bits.len() > 0 {
        lemma_pack_bits_all_clear(bits.drop_last());
    }
}

/// Packs 64 bits into a `u64`, the first bit becoming the most significant.
pub fn pack_msb_first(bits: &Vec<bool>) -> (r: u64)
    requires
        bits.len() == 64,
    ensures
        r == pack_bits(bits@),
{
    let mut h: u64 = 0;
    for i in 0..64
        invariant
            bits.len() == 64,
            h == pack_bits(bits@.take(i as int)),
    {
        proof {
            assert(bits@.take(i + 1).drop_last() =~= bits@.take(i as int));
            lemma_pack_bits_bound(bits@.take(i as int));
            lemma2_to64();
            let next: nat = (i + 1) as nat;
            if next < 64 {
                lemma_pow2_strictly_increases(next, 64);
            }
            lemma_pow2_unfold(next);
        }
        let bit: u64 = if bits[i] {
            1
        } else {
            0
        };
        h = h * 2 + bit;
    }
    proof {
        assert(bits@.take(64) =~= bits@);
    }
    h
}

/// Relies on `slice::sort_unstable`: afterwards the vector is in ascending
/// order and holds the same values as before.
#[verifier::external_body]
fn sort_values(v: &mut Vec<i64>)
    ensures
        sorted_by(final(v)@, ascending()),
        final(v)@.to_multiset() == old(v)@.to_multiset(),
{
    v.sort_unstable();
}

proof fn lemma_ascending_is_total()
    ensures
        total_ordering(ascending()),
{
}

/// Marks each of the 64 values that lies strictly above their median.
pub fn above_median_bits(v: &Vec<i64>) -> (bits: Vec<bool>)
    requires
        v.len() == 64,
        forall|i: int| 0 <= i < 64 ==> -0x1_0000_0000 <= #[trigger] v[i] <= 0x1_0000_0000,
    ensures
        bits@ == above_median(v@),
{
    let mut sorted: Vec<i64> = Vec::new();
    for i in 0..64
        invariant
            v.len() == 64,
            sorted@ == v@.take(i as int),
    {
        sorted.push(v[i]);
        proof {
            assert(sorted@ =~= v@.take(i + 1));
        }
    }
    proof {
        assert(v@.take(64) =~= v@);
    }
    sort_values(&mut sorted);
    proof {
        lemma_ascending_is_total();
        v@.lemma_sort_by_ensures(ascending());
        lemma_sorted_unique(sorted@, v@.sort_by(ascending()), ascending());
    }
    let ghost s = v@.sort_by(ascending());
    assert(sorted@ == s);
    assert(sorted@.len() == 64) by {
        vstd::seq_lib::to_multiset_len(sorted@);
        vstd::seq_lib::to_multiset_len(v@);
    }
    assert(forall|i: int| 0 <= i < 64 ==> -0x1_0000_0000 <= #[trigger] sorted@[i] <= 0x1_0000_0000)
        by {
        assert forall|i: int| 0 <= i < 64 implies -0x1_0000_0000 <= #[trigger] sorted@[i]
            <= 0x1_0000_0000 by {
            vstd::seq_lib::to_multiset_contains(sorted@, sorted@[i]);
            vstd::seq_lib::to_multiset_contains(v@, sorted@[i]);
            assert(sorted@.contains(sorted@[i]));
        }
    }
    let threshold: i64 = sorted[31] + sorted[32];
    let mut bits: Vec<bool> = Vec::new();
    for i in 0..64
        invariant
            v.len() == 64,
            s == v@.sort_by(ascending()),
            s.len() == 64,
            threshold == s[31] + s[32],
            forall|k: int| 0 <= k < 64 ==> -0x1_0000_0000 <= #[trigger] v[k] <= 0x1_0000_0000,
            bits@ == above_median(v@).take(i as int),
    {
        bits.push(2 * v[i] > threshold);
        proof {
            assert(bits@ =~= above_median(v@).take(i + 1));
        }
    }
    proof {
        assert(above_median(v@).take(64) =~= above_median(v@));
    }
    bits
}

} // verus!
