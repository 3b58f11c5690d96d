//! Near-duplicate matching: fingerprints within a Hamming-distance threshold.
use crate::distance::{hamming, hamming_u64, lemma_hamming_is_metric};
use std::collections::HashMap;
use vstd::prelude::*;

verus! {

/// Entries `i` and `k` have fingerprints at most `t` bits apart.
pub open spec fn close(s: Seq<(u64, String)>, t: nat, i: int, k: int) -> bool {
    hamming(s[i].0, s[k].0) <= t
}

/// The pairs `(i, k)` with `i < k < j` and close fingerprints, by increasing `k`.
pub open spec fn row_pairs(s: Seq<(u64, String)>, t: nat, i: int, j: int) -> Seq<(int, int)>
    decreases j - i,
{
    if j <= i + 1 {
        Seq::empty()
    } else {
        let earlier = row_pairs(s, t, i, j - 1);
        if close(s, t, i, j - 1) {
            earlier.push((i, j - 1))
        } else {
            earlier
        }
    }
}

/// The close pairs `(i, k)`, `i < k`, whose first entry is among the first
/// `n`, ordered by `i` and then by `k`.
pub open spec fn near_pairs_upto(s: Seq<(u64, String)>, t: nat, n: int) -> Seq<(int, int)>
    decreases n,
{
    if n <= 0 {
        Seq::empty()
    } else {
        near_pairs_upto(s, t, n - 1) + row_pairs(s, t, n - 1, s.len() as int)
    }
}

/// Every unordered pair of entries whose fingerprints are at most `t` bits
/// apart, as index pairs `(i, k)` with `i < k`, ordered by `i` and then `k`.
pub open spec fn near_pairs(s: Seq<(u64, String)>, t: nat) -> Seq<(int, int)> {
    near_pairs_upto(s, t, s.len() as int)
}

/// The paths of the entries that index pairs name.
pub open spec fn pair_paths(s: Seq<(u64, String)>, pairs: Seq<(int, int)>) -> Seq<(String, String)> {
    pairs.map_values(|p: (int, int)| (s[p.0].1, s[p.1].1))
}

proof fn lemma_row_pairs_members(s: Seq<(u64, String)>, t: nat, i: int, j: int, p: (int, int))
    ensures
        row_pairs(s, t, i, j).contains(p) <==> (p.0 == i && i < p.1 < j && close(s, t, i, p.1)),
    decreases j - i,
{
    if j > i + 1 {
        let earlier = row_pairs(s, t, i, j - 1);
        lemma_row_pairs_members(s, t, i, j - 1, p);
        if close(s, t, i, j - 1) {
            if p == (i, j - 1) {
                assert(earlier.push((i, j - 1))[earlier.len() as int] == p);
            } else if earlier.push((i, j - 1)).contains(p) {
                let longer = earlier.push((i, j - 1));
                let w = choose|w: int| 0 <= w < longer.len() && #[trigger] longer[w] == p;
                assert(earlier[w] == p);
            }
            if earlier.contains(p) {
                let w = choose|w: int| 0 <= w < earlier.len() && earlier[w] == p;
                assert(earlier.push((i, j - 1))[w] == p);
            }
        }
    }
}

proof fn lemma_near_pairs_members(s: Seq<(u64, String)>, t: nat, n: int, p: (int, int))
    requires
        0 <= n <= s.len(),
    ensures
        near_pairs_upto(s, t, n).contains(p) <==> (0 <= p.0 < n && p.0 < p.1 < s.len() && close(
            s,
            t,
            p.0,
            p.1,
        )),
    decreases n,
{
    if n > 0 {
        let a = near_pairs_upto(s, t, n - 1);
        let b = row_pairs(s, t, n - 1, s.len() as int);
        lemma_near_pairs_members(s, t, n - 1, p);
        lemma_row_pairs_members(s, t, n - 1, s.len() as int, p);
        if (a + b).contains(p) {
            let w = choose|w: int| 0 <= w < (a + b).len() && (a + b)[w] == p;
            if w < a.len() {
                assert(a[w] == p);
            } else {
                assert(b[w - a.len()] == p);
            }
        }
        if a.contains(p) {
            let w = choose|w: int| 0 <= w < a.len() && a[w] == p;
            assert((a + b)[w] == p);
        }
        if b.contains(p) {
            let w = choose|w: int| 0 <= w < b.len() && b[w] == p;
            assert((a + b)[a.len() + w] == p);
        }
    }
}

/// Raising the threshold never drops a reported pair: every pair of entries
/// reported at threshold `t1` is also reported at any `t2 >= t1`, both as
/// index pairs and as pairs of paths.
pub proof fn lemma_near_pairs_grow_with_threshold(s: Seq<(u64, String)>, t1: nat, t2: nat)
    requires
        t1 <= t2,
    ensures
        forall|p: (int, int)| near_pairs(s, t1).contains(p) ==> near_pairs(s, t2).contains(p),
        forall|x: (String, String)|
            pair_paths(s, near_pairs(s, t1)).contains(x) ==> pair_paths(
                s,
                near_pairs(s, t2),
            ).contains(x),
{
    assert forall|p: (int, int)| near_pairs(s, t1).contains(p) implies near_pairs(
        s,
        t2,
    ).contains(p) by {
        lemma_near_pairs_members(s, t1, s.len() as int, p);
        lemma_near_pairs_members(s, t2, s.len() as int, p);
    }
    assert forall|x: (String, String)| pair_paths(s, near_pairs(s, t1)).contains(x) implies pair_paths(
        s,
        near_pairs(s, t2),
    ).contains(x) by {
        let low = near_pairs(s, t1);
        let high = near_pairs(s, t2);
        let w = choose|w: int| 0 <= w < low.len() && pair_paths(s, low)[w] == x;
        assert(low.contains(low[w]));
        let v = choose|v: int| 0 <= v < high.len() && high[v] == low[w];
        assert(pair_paths(s, high)[v] == x);
    }
}

/// Reports every unordered pair of entries whose fingerprints differ in at
/// most `threshold` bits, as pairs of paths, first by the earlier entry and
/// then by the later one.
pub fn find_near_duplicates(hash_paths: &Vec<(u64, String)>, threshold: u32) -> (r: Vec<
    (String, String),
>)
    ensures
        r@ == pair_paths(hash_paths@, near_pairs(hash_paths@, threshold as nat)),
{
    let ghost s = hash_paths@;
    let ghost t = threshold as nat;
    let n = hash_paths.len();
    let mut out: Vec<(String, String)> = Vec::new();
    for i in 0..n
        invariant
            n == hash_paths.len(),
            s == hash_paths@,
            t == threshold as nat,
            out@ == pair_paths(s, near_pairs_upto(s, t, i as int)),
    {
        let ghost done = near_pairs_upto(s, t, i as int);
        for k in i + 1..n
            invariant
                n == hash_paths.len(),
                i < n,
                s == hash_paths@,
                t == threshold as nat,
                done == near_pairs_upto(s, t, i as int),
                out@ == pair_paths(s, done + row_pairs(s, t, i as int, k as int)),
        {
            let ghost row = row_pairs(s, t, i as int, k as int);
            if hamming_u64(hash_paths[i].0, hash_paths[k].0) <= threshold {
                out.push((hash_paths[i].1.clone(), hash_paths[k].1.clone()));
                proof {
                    assert(done + row.push((i as int, k as int)) =~= (done + row).push(
                        (i as int, k as int),
                    ));
                }
            }
            proof {
                assert(out@ =~= pair_paths(s, done + row_pairs(s, t, i as int, k + 1)));
            }
        }
        proof {
            assert(out@ =~= pair_paths(s, near_pairs_upto(s, t, i + 1)));
        }
    }
    out
}

/// The table key of an unordered pair of fingerprints: the smaller in the
/// high 64 bits, the larger in the low 64 bits.
pub open spec fn pair_key(a: u64, b: u64) -> u128 {
    if a <= b {
        (a as int * 0x1_0000_0000_0000_0000 + b as int) as u128
    } else {
        (b as int * 0x1_0000_0000_0000_0000 + a as int) as u128
    }
}

/// The first fingerprint of the pair a table key stands for.
pub open spec fn key_high(k: u128) -> u64 {
    (k as int / 0x1_0000_0000_0000_0000) as u64
}

/// The second fingerprint of the pair a table key stands for.
pub open spec fn key_low(k: u128) -> u64 {
    (k as int % 0x1_0000_0000_0000_0000) as u64
}

/// Hamming distances already computed during one matching run, keyed by
/// unordered pairs of fingerprints. A cache lives for one run: create it,
/// pass it to the matching calls of that run, and drop it.
pub struct DistanceCache {
    table: HashMap<u128, u32>,
}

impl DistanceCache {
    /// Every stored distance is the Hamming distance of the pair its key
    /// stands for.
    pub closed spec fn wf(&self) -> bool {
        forall|k: u128| #[trigger]
            self.table@.contains_key(k) ==> self.table@[k] as nat == hamming(key_high(k), key_low(k))
    }

    /// The keys, one per unordered pair of fingerprints, whose distances are
    /// stored.
    pub closed spec fn cached_keys(&self) -> Set<u128> {
        self.table@.dom()
    }

    /// Number of stored pairs.
    pub closed spec fn spec_len(&self) -> nat {
        self.table@.len()
    }

    /// An empty cache.
    pub fn new() -> (r: DistanceCache)
        ensures
            r.wf(),
            r.cached_keys() == Set::<u128>::empty(),
            r.spec_len() == 0,
    {
        DistanceCache { table: HashMap::new() }
    }

    /// Number of pairs whose distance is stored.
    pub fn len(&self) -> (r: usize)
        ensures
            r == self.spec_len(),
    {
        self.table.len()
    }

    /// The Hamming distance between `a` and `b`, computed once per unordered
    /// pair and then read back from the cache.
    pub fn distance(&mut self, a: u64, b: u64) -> (r: u32)
        requires
            old(self).wf(),
        ensures
            final(self).wf(),
            r == hamming(a, b),
            final(self).cached_keys() == old(self).cached_keys().insert(pair_key(a, b)),
            final(self).spec_len() == old(self).spec_len() + if old(self).cached_keys().contains(
                pair_key(a, b),
            ) {
                0int
            } else {
                1int
            },
    {
        broadcast use vstd::std_specs::hash::group_hash_axioms;

        let (low, high) = if a <= b {
            (a, b)
        } else {
            (b, a)
        };
        let key: u128 = (low as u128) * 0x1_0000_0000_0000_0000 + (high as u128);
        proof {
            assert(key == pair_key(a, b));
            assert(key_high(key) == low && key_low(key) == high);
            lemma_hamming_is_metric(a, b, b);
        }
        match self.table.get(&key) {
            Some(d) => {
                proof {
                    assert(self.table@.dom().insert(key) =~= self.table@.dom());
                }
                *d
            },
            None => {
                let d = hamming_u64(low, high);
                self.table.insert(key, d);
                d
            },
        }
    }
}

/// Index of the first group, from position `k` on, whose representative
/// fingerprint is at most `t` bits from `h`.
pub open spec fn first_close_group(groups: Seq<(u64, Seq<String>)>, h: u64, t: nat, k: int) -> Option<
    int,
>
    decreases groups.len() - k,
{
    if k < 0 || k >= groups.len() {
        None
    } else if hamming(groups[k].0, h) <= t {
        Some(k)
    } else {
        first_close_group(groups, h, t, k + 1)
    }
}

/// Adds one entry to the groups: it joins the first group whose
/// representative is within `t` bits, or else starts a group of its own with
/// its fingerprint as representative.
pub open spec fn add_to_groups(groups: Seq<(u64, Seq<String>)>, e: (u64, String), t: nat) -> Seq<
    (u64, Seq<String>),
> {
    match first_close_group(groups, e.0, t, 0) {
        Some(k) => groups.update(k, (groups[k].0, groups[k].1.push(e.1))),
        None => groups.push((e.0, seq![e.1])),
    }
}

/// The groups formed by adding the first `n` entries in order.
pub open spec fn near_groups_upto(s: Seq<(u64, String)>, t: nat, n: int) -> Seq<(u64, Seq<String>)>
    decreases n,
{
    if n <= 0 {
        Seq::empty()
    } else {
        add_to_groups(near_groups_upto(s, t, n - 1), s[n - 1], t)
    }
}

/// The groups, with their paths as sequences.
pub open spec fn group_view(groups: Seq<(u64, Vec<String>)>) -> Seq<(u64, Seq<String>)> {
    groups.map_values(|g: (u64, Vec<String>)| (g.0, g.1@))
}

/// Groups entries by first match: each entry joins the first existing group
/// whose representative fingerprint is at most `threshold` bits from its
/// own, without looking at later groups, or else starts a new group that it
/// represents. The grouping depends on the order of the entries and is not
/// transitive. Each group lists its representative's path first; groups of
/// one path have no duplicates.
pub fn group_near_duplicates(
    hash_paths: &Vec<(u64, String)>,
    threshold: u32,
    cache: &mut DistanceCache,
) -> (r: Vec<(u64, Vec<String>)>)
    requires
        old(cache).wf(),
    ensures
        final(cache).wf(),
        old(cache).cached_keys().subset_of(final(cache).cached_keys()),
        group_view(r@) == near_groups_upto(hash_paths@, threshold as nat, hash_paths@.len() as int),
{
    let ghost initial = cache.cached_keys();
    let ghost s = hash_paths@;
    let ghost t = threshold as nat;
    let n = hash_paths.len();
    let mut groups: Vec<(u64, Vec<String>)> = Vec::new();
    for i in 0..n
        invariant
            n == hash_paths.len(),
            s == hash_paths@,
            t == threshold as nat,
            cache.wf(),
            initial.subset_of(cache.cached_keys()),
            group_view(groups@) == near_groups_upto(s, t, i as int),
    {
        let h: u64 = hash_paths[i].0;
        let ghost before = group_view(groups@);
        let mut k: usize = 0;
        let mut found: bool = false;
        while k < groups.len()
            invariant_except_break
                !found,
            invariant
                before == group_view(groups@),
                t == threshold as nat,
                cache.wf(),
                initial.subset_of(cache.cached_keys()),
                k <= groups.len(),
                first_close_group(before, h, t, 0) == first_close_group(before, h, t, k as int),
            ensures
                found ==> k < groups.len() && first_close_group(before, h, t, 0) == Some(k as int),
                !found ==> first_close_group(before, h, t, 0) == None::<int>,
            decreases groups.len() - k,
        {
            let d = cache.distance(groups[k].0, h);
            proof {
                assert(before.len() == groups@.len());
                assert(before[k as int].0 == groups@[k as int].0);
            }
            if d <= threshold {
                proof {
                    assert(first_close_group(before, h, t, k as int) == Some(k as int));
                }
                found = true;
                break;
            }
            k = k + 1;
        }
        if found {
            let mut group: (u64, Vec<String>) = (0, Vec::new());
            groups.set_and_swap(k, &mut group);
            group.1.push(hash_paths[i].1.clone());
            groups.set_and_swap(k, &mut group);
            proof {
                assert(group_view(groups@) =~= add_to_groups(before, s[i as int], t));
            }
        } else {
            let mut members: Vec<String> = Vec::new();
            members.push(hash_paths[i].1.clone());
            groups.push((h, members));
            proof {
                assert(group_view(groups@) =~= add_to_groups(before, s[i as int], t));
            }
        }
    }
    groups
}

} // verus!
