//! Exact-duplicate matching on (fingerprint, path) entries.
use std::collections::HashMap;
use vstd::multiset::Multiset;
use vstd::prelude::*;
use vstd::seq_lib::{to_multiset_build, to_multiset_contains, to_multiset_remove};

verus! {

broadcast use vstd::std_specs::hash::group_hash_axioms;

/// Entries are in ascending fingerprint order.
pub open spec fn sorted_by_hash(s: Seq<(u64, String)>) -> bool {
    forall|i: int, j: int| 0 <= i < j < s.len() ==> s[i].0 <= s[j].0
}

/// The entry has fingerprint `h`.
pub open spec fn has_hash(h: u64) -> spec_fn((u64, String)) -> bool {
    |e: (u64, String)| e.0 == h
}

/// The entries of `s` with fingerprint `h`, in their order in `s`.
pub open spec fn with_hash(s: Seq<(u64, String)>, h: u64) -> Seq<(u64, String)> {
    s.filter(has_hash(h))
}

/// The paths of a sequence of entries.
pub open spec fn paths_of(s: Seq<(u64, String)>) -> Seq<String> {
    s.map_values(|e: (u64, String)| e.1)
}

/// Entry `i` has the same fingerprint as the entry before or after it.
pub open spec fn in_run(s: Seq<(u64, String)>, i: int) -> bool {
    ||| (0 < i && s[i - 1].0 == s[i].0)
    ||| (i + 1 < s.len() && s[i + 1].0 == s[i].0)
}

/// Entry `i` has the same fingerprint as the entry before it, so it is not
/// the first of its run.
pub open spec fn repeats_previous(s: Seq<(u64, String)>, i: int) -> bool {
    0 < i && s[i - 1].0 == s[i].0
}

/// The paths, in order, of the entries among the first `n` of `s` that have
/// fingerprint `h` and belong to a run of equal fingerprints.
pub open spec fn run_paths(s: Seq<(u64, String)>, n: int, h: u64) -> Seq<String>
    decreases n,
{
    if n <= 0 {
        Seq::empty()
    } else {
        let rest = run_paths(s, n - 1, h);
        if s[n - 1].0 == h && in_run(s, n - 1) {
            rest.push(s[n - 1].1)
        } else {
            rest
        }
    }
}

/// Duplicate groups among the first `n` entries: each fingerprint that has a
/// run of at least two adjacent entries maps to the paths of those entries.
pub open spec fn groups_upto(s: Seq<(u64, String)>, n: int) -> Map<u64, Seq<String>> {
    Map::new(|h: u64| run_paths(s, n, h).len() > 0, |h: u64| run_paths(s, n, h))
}

/// The duplicate groups of `s`. On entries sorted by fingerprint a run is
/// every entry with that fingerprint.
pub open spec fn duplicate_groups(s: Seq<(u64, String)>) -> Map<u64, Seq<String>> {
    groups_upto(s, s.len() as int)
}

/// The paths held by a map of groups.
pub open spec fn group_paths(m: Map<u64, Vec<String>>) -> Map<u64, Seq<String>> {
    m.map_values(|v: Vec<String>| v@)
}

/// Paths, in order, of the entries among the first `n` that repeat the
/// fingerprint of the entry before them.
pub open spec fn repeated_paths(s: Seq<(u64, String)>, n: int) -> Seq<String>
    decreases n,
{
    if n <= 0 {
        Seq::empty()
    } else {
        let rest = repeated_paths(s, n - 1);
        if repeats_previous(s, n - 1) {
            rest.push(s[n - 1].1)
        } else {
            rest
        }
    }
}

/// Relies on `slice::sort_by_key`, a stable sort: afterwards the entries are
/// in ascending fingerprint order, and the entries with any one fingerprint
/// are the same entries, in the same order, as before.
#[verifier::external_body]
fn stable_sort_by_hash(hash_paths: &mut Vec<(u64, String)>)
    ensures
        sorted_by_hash(final(hash_paths)@),
        forall|h: u64| with_hash(final(hash_paths)@, h) == with_hash(old(hash_paths)@, h),
{
    hash_paths.sort_by_key(|entry| entry.0);
}

/// Sorts entries by fingerprint, keeping the order of entries with equal
/// fingerprints.
pub fn sort_hashes(hash_paths: &mut Vec<(u64, String)>)
    ensures
        sorted_by_hash(final(hash_paths)@),
        forall|h: u64| with_hash(final(hash_paths)@, h) == with_hash(old(hash_paths)@, h),
{
    stable_sort_by_hash(hash_paths);
}

/// Tells whether entry `i` has the same fingerprint as a neighbour.
fn entry_in_run(hash_paths: &Vec<(u64, String)>, i: usize) -> (r: bool)
    requires
        i < hash_paths.len(),
    ensures
        r == in_run(hash_paths@, i as int),
{
    (i > 0 && hash_paths[i - 1].0 == hash_paths[i].0) || (i + 1 < hash_paths.len()
        && hash_paths[i + 1].0 == hash_paths[i].0)
}

/// Groups entries whose fingerprints are equal, scanning adjacent pairs: each
/// fingerprint with a run of at least two adjacent entries maps to the paths
/// of the entries in its runs, in input order. On entries sorted by
/// fingerprint, that is every fingerprint shared by two or more entries,
/// with all their paths.
pub fn find_duplicates(hash_paths: &Vec<(u64, String)>) -> (r: HashMap<u64, Vec<String>>)
    ensures
        group_paths(r@) == duplicate_groups(hash_paths@),
{
    let mut groups: HashMap<u64, Vec<String>> = HashMap::new();
    let n = hash_paths.len();
    for i in 0..n
        invariant
            n == hash_paths.len(),
            group_paths(groups@) == groups_upto(hash_paths@, i as int),
    {
        let ghost s = hash_paths@;
        let ghost before = group_paths(groups@);
        if entry_in_run(hash_paths, i) {
            let key: u64 = hash_paths[i].0;
            let ghost raw = groups@;
            let removed = groups.remove(&key);
            proof {
                if removed is Some {
                    assert(before[key] == raw[key]@);
                }
            }
            let mut group: Vec<String> = match removed {
                Some(existing) => existing,
                None => Vec::new(),
            };
            proof {
                if !before.contains_key(key) {
                    assert(group@ =~= run_paths(s, i as int, key));
                }
            }
            group.push(hash_paths[i].1.clone());
            let ghost grown = group@;
            groups.insert(key, group);
            proof {
                assert(group_paths(groups@) =~= before.insert(key, grown));
            }
        }
        proof {
            assert forall|h: u64|
                #![trigger run_paths(s, i + 1, h)]
                run_paths(s, i + 1, h) == if s[i as int].0 == h && in_run(s, i as int) {
                    run_paths(s, i as int, h).push(s[i as int].1)
                } else {
                    run_paths(s, i as int, h)
                } by {}
            assert(group_paths(groups@) =~= groups_upto(s, i + 1));
        }
    }
    groups
}

/// The paths to delete so that one file, the first of each run of equal
/// fingerprints, is kept: every entry that repeats the fingerprint of the
/// entry before it, in input order.
pub fn removal_list(hash_paths: &Vec<(u64, String)>) -> (r: Vec<String>)
    ensures
        r@ == repeated_paths(hash_paths@, hash_paths@.len() as int),
{
    let mut doomed: Vec<String> = Vec::new();
    let n = hash_paths.len();
    for i in 0..n
        invariant
            n == hash_paths.len(),
            doomed@ == repeated_paths(hash_paths@, i as int),
    {
        if i > 0 && hash_paths[i - 1].0 == hash_paths[i].0 {
            doomed.push(hash_paths[i].1.clone());
        }
    }
    doomed
}

proof fn lemma_with_hash_two(s: Seq<(u64, String)>, h: u64, i: int, j: int)
    requires
        0 <= i < j < s.len(),
        s[i].0 == h,
        s[j].0 == h,
    ensures
        with_hash(s, h).len() >= 2,
    decreases s.len(),
{
    reveal(Seq::filter);
    if j == s.len() - 1 {
        assert(s.drop_last()[i] == s[i]);
        s.drop_last().lemma_filter_contains(has_hash(h), i);
    } else {
        lemma_with_hash_two(s.drop_last(), h, i, j);
    }
}

proof fn lemma_with_hash_none(s: Seq<(u64, String)>, h: u64)
    requires
        forall|j: int| 0 <= j < s.len() ==> s[j].0 != h,
    ensures
        with_hash(s, h).len() == 0,
    decreases s.len(),
{
    reveal(Seq::filter);
    if s.len() > 0 {
        lemma_with_hash_none(s.drop_last(), h);
    }
}

proof fn lemma_with_hash_one(s: Seq<(u64, String)>, h: u64, i: int)
    requires
        0 <= i < s.len(),
        forall|j: int| 0 <= j < s.len() && j != i ==> s[j].0 != h,
    ensures
        with_hash(s, h).len() <= 1,
    decreases s.len(),
{
    reveal(Seq::filter);
    if i == s.len() - 1 {
        lemma_with_hash_none(s.drop_last(), h);
    } else {
        lemma_with_hash_one(s.drop_last(), h, i);
    }
}

/// On sorted entries, an entry belongs to a run exactly when its fingerprint
/// is shared by another entry.
proof fn lemma_run_iff_shared(s: Seq<(u64, String)>, n: int)
    requires
        sorted_by_hash(s),
        0 <= n < s.len(),
    ensures
        in_run(s, n) <==> with_hash(s, s[n].0).len() >= 2,
{
    let h = s[n].0;
    if in_run(s, n) {
        if 0 < n && s[n - 1].0 == h {
            lemma_with_hash_two(s, h, n - 1, n);
        } else {
            lemma_with_hash_two(s, h, n, n + 1);
        }
    } else {
        assert forall|j: int| 0 <= j < s.len() && j != n implies s[j].0 != h by {
            if j < n {
                assert(s[j].0 <= s[n - 1].0);
            } else {
                assert(s[n + 1].0 <= s[j].0);
            }
        }
        lemma_with_hash_one(s, h, n);
    }
}

proof fn lemma_run_paths_sorted(s: Seq<(u64, String)>, n: int, h: u64)
    requires
        sorted_by_hash(s),
        0 <= n <= s.len(),
    ensures
        run_paths(s, n, h) == if with_hash(s, h).len() >= 2 {
            paths_of(with_hash(s.take(n), h))
        } else {
            Seq::empty()
        },
    decreases n,
{
    if n == 0 {
        reveal(Seq::filter);
        assert(s.take(0) =~= Seq::<(u64, String)>::empty());
        assert(paths_of(with_hash(s.take(0), h)) =~= Seq::empty());
    } else {
        lemma_run_paths_sorted(s, n - 1, h);
        assert(s.take(n) =~= s.take(n - 1).push(s[n - 1]));
        s.take(n - 1).lemma_filter_push(s[n - 1], has_hash(h));
        if s[n - 1].0 == h {
            lemma_run_iff_shared(s, n - 1);
            assert(paths_of(with_hash(s.take(n - 1), h).push(s[n - 1])) =~= paths_of(
                with_hash(s.take(n - 1), h),
            ).push(s[n - 1].1));
        }
    }
}

/// On entries sorted by fingerprint, a fingerprint has a duplicate group
/// exactly when two or more entries carry it, and the group holds the paths
/// of all of them, in input order.
pub proof fn lemma_sorted_groups(s: Seq<(u64, String)>, h: u64)
    requires
        sorted_by_hash(s),
    ensures
        duplicate_groups(s).contains_key(h) <==> with_hash(s, h).len() >= 2,
        duplicate_groups(s).contains_key(h) ==> duplicate_groups(s)[h] == paths_of(
            with_hash(s, h),
        ),
{
    lemma_run_paths_sorted(s, s.len() as int, h);
    assert(s.take(s.len() as int) =~= s);
}

/// Sorting entries again with a stable sort, when they are already sorted by
/// fingerprint, leaves every duplicate group unchanged.
pub proof fn lemma_resorting_keeps_groups(s: Seq<(u64, String)>, t: Seq<(u64, String)>)
    requires
        sorted_by_hash(s),
        sorted_by_hash(t),
        forall|h: u64| with_hash(t, h) == with_hash(s, h),
    ensures
        duplicate_groups(t) == duplicate_groups(s),
{
    assert forall|h: u64|
        #![trigger duplicate_groups(t).contains_key(h)]
        duplicate_groups(t).contains_key(h) == duplicate_groups(s).contains_key(h) && (
        duplicate_groups(t).contains_key(h) ==> duplicate_groups(t)[h] == duplicate_groups(
            s,
        )[h]) by {
        lemma_sorted_groups(s, h);
        lemma_sorted_groups(t, h);
    }
    assert(duplicate_groups(t) =~= duplicate_groups(s));
}

proof fn lemma_filter_to_multiset(s: Seq<(u64, String)>, h: u64)
    ensures
        with_hash(s, h).to_multiset() =~= s.to_multiset().filter(has_hash(h)),
    decreases s.len(),
{
    broadcast use vstd::multiset::group_multiset_axioms;

    reveal(Seq::filter);
    if s.len() == 0 {
        assert(s.to_multiset() =~= Multiset::empty()) by {
            broadcast use vstd::seq_lib::group_to_multiset_ensures;

        }
        assert(with_hash(s, h).to_multiset() =~= Multiset::empty()) by {
            broadcast use vstd::seq_lib::group_to_multiset_ensures;

        }
    } else {
        let rest = s.drop_last();
        lemma_filter_to_multiset(rest, h);
        assert(s =~= rest.push(s.last()));
        to_multiset_build(rest, s.last());
        if s.last().0 == h {
            to_multiset_build(with_hash(rest, h), s.last());
        }
    }
}

proof fn lemma_map_to_multiset(a: Seq<(u64, String)>, b: Seq<(u64, String)>)
    requires
        a.to_multiset() == b.to_multiset(),
    ensures
        paths_of(a).to_multiset() == paths_of(b).to_multiset(),
    decreases a.len(),
{
    broadcast use vstd::multiset::group_multiset_axioms;
    broadcast use vstd::seq_lib::group_to_multiset_ensures;

    vstd::seq_lib::to_multiset_len(a);
    vstd::seq_lib::to_multiset_len(b);
    if a.len() == 0 {
        assert(b.len() == 0);
        assert(paths_of(a) =~= Seq::empty());
        assert(paths_of(b) =~= Seq::empty());
    } else {
        let x = a.last();
        let rest = a.drop_last();
        assert(a =~= rest.push(x));
        to_multiset_build(rest, x);
        to_multiset_contains(b, x);
        assert(b.to_multiset().count(x) > 0);
        assert(b.contains(x));
        let k = choose|k: int| 0 <= k < b.len() && b[k] == x;
        to_multiset_remove(b, k);
        assert(rest.to_multiset() =~= b.remove(k).to_multiset());
        lemma_map_to_multiset(rest, b.remove(k));
        assert(paths_of(a) =~= paths_of(rest).push(x.1));
        to_multiset_build(paths_of(rest), x.1);
        assert(paths_of(b).remove(k) =~= paths_of(b.remove(k)));
        to_multiset_remove(paths_of(b), k);
    }
}

/// Removal on entries sorted by fingerprint keeps exactly the first entry of
/// each fingerprint: an entry is listed for removal exactly when an earlier
/// entry carries the same fingerprint.
pub proof fn lemma_removal_keeps_first_of_each_fingerprint(s: Seq<(u64, String)>, i: int)
    requires
        sorted_by_hash(s),
        0 <= i < s.len(),
    ensures
        repeats_previous(s, i) <==> exists|j: int| 0 <= j < i && #[trigger] s[j].0 == s[i].0,
{
    if repeats_previous(s, i) {
        assert(s[i - 1].0 == s[i].0);
    } else if exists|j: int| 0 <= j < i && #[trigger] s[j].0 == s[i].0 {
        let j = choose|j: int| 0 <= j < i && #[trigger] s[j].0 == s[i].0;
        assert(s[j].0 <= s[i - 1].0);
        assert(s[i - 1].0 <= s[i].0);
    }
}

/// The last entry of a non-empty sequence carries a key no larger than the
/// last key of any sorted sequence with the same entries under that key.
proof fn lemma_last_key_bounded(s: Seq<(u64, String)>, t: Seq<(u64, String)>)
    requires
        sorted_by_hash(s),
        s.len() > 0,
        t.len() > 0,
        forall|h: u64| with_hash(t, h) == with_hash(s, h),
    ensures
        t.last().0 <= s.last().0,
{
    reveal(Seq::filter);
    let b = t.last();
    let filtered = with_hash(t, b.0);
    assert(filtered == t.drop_last().filter(has_hash(b.0)).push(b));
    assert(filtered[filtered.len() - 1] == b);
    assert(with_hash(s, b.0).contains(b));
    s.lemma_filter_contains_rev(has_hash(b.0), b);
    let i = choose|i: int| 0 <= i < s.len() && s[i] == b;
    assert(s[i].0 <= s[s.len() - 1].0);
}

proof fn lemma_no_entries(s: Seq<(u64, String)>, t: Seq<(u64, String)>)
    requires
        s.len() == 0,
        forall|h: u64| with_hash(t, h) == with_hash(s, h),
    ensures
        t.len() == 0,
{
    reveal(Seq::filter);
    if t.len() > 0 {
        let b = t.last();
        assert(with_hash(t, b.0) == t.drop_last().filter(has_hash(b.0)).push(b));
        assert(with_hash(s, b.0).len() == 0);
    }
}

/// Sorting entries that are already sorted by fingerprint with a stable sort
/// gives them back unchanged: only one order is sorted by fingerprint and
/// keeps the entries under each fingerprint in their order.
pub proof fn lemma_stable_resort_is_identity(s: Seq<(u64, String)>, t: Seq<(u64, String)>)
    requires
        sorted_by_hash(s),
        sorted_by_hash(t),
        forall|h: u64| with_hash(t, h) == with_hash(s, h),
    ensures
        t == s,
    decreases s.len(),
{
    reveal(Seq::filter);
    if s.len() == 0 {
        lemma_no_entries(s, t);
        assert(t =~= s);
    } else if t.len() == 0 {
        lemma_no_entries(t, s);
    } else {
        lemma_last_key_bounded(s, t);
        lemma_last_key_bounded(t, s);
        let a = s.last();
        let b = t.last();
        let m = a.0;
        assert(b.0 == m);
        assert(with_hash(s, m) == s.drop_last().filter(has_hash(m)).push(a));
        assert(with_hash(t, m) == t.drop_last().filter(has_hash(m)).push(b));
        assert(with_hash(s, m).last() == a);
        assert(with_hash(t, m).last() == b);
        assert(a == b);
        assert forall|h: u64| with_hash(t.drop_last(), h) == with_hash(s.drop_last(), h) by {
            assert(with_hash(s, h) == if h == m {
                s.drop_last().filter(has_hash(h)).push(a)
            } else {
                s.drop_last().filter(has_hash(h))
            });
            assert(with_hash(t, h) == if h == m {
                t.drop_last().filter(has_hash(h)).push(b)
            } else {
                t.drop_last().filter(has_hash(h))
            });
            if h == m {
                assert(with_hash(s, h).drop_last() =~= with_hash(s.drop_last(), h));
                assert(with_hash(t, h).drop_last() =~= with_hash(t.drop_last(), h));
            }
        }
        lemma_stable_resort_is_identity(s.drop_last(), t.drop_last());
        assert(s =~= s.drop_last().push(a));
        assert(t =~= t.drop_last().push(b));
    }
}

/// On entries sorted by fingerprint, exact matching does not depend on how
/// entries with equal fingerprints are ordered: two sorted lists holding the
/// same entries have duplicate groups for the same fingerprints, and each
/// group holds the same paths, possibly in another order.
pub proof fn lemma_groups_ignore_tie_order(s1: Seq<(u64, String)>, s2: Seq<(u64, String)>)
    requires
        sorted_by_hash(s1),
        sorted_by_hash(s2),
        s1.to_multiset() == s2.to_multiset(),
    ensures
        duplicate_groups(s1).dom() == duplicate_groups(s2).dom(),
        forall|h: u64| #[trigger]
            duplicate_groups(s1).contains_key(h) ==> duplicate_groups(s1)[h].to_multiset()
                == duplicate_groups(s2)[h].to_multiset(),
{
    broadcast use vstd::seq_lib::group_to_multiset_ensures;

    assert forall|h: u64|
        #![trigger duplicate_groups(s1).contains_key(h)]
        duplicate_groups(s1).contains_key(h) == duplicate_groups(s2).contains_key(h) && (
        duplicate_groups(s1).contains_key(h) ==> duplicate_groups(s1)[h].to_multiset()
            == duplicate_groups(s2)[h].to_multiset()) by {
        lemma_filter_to_multiset(s1, h);
        lemma_filter_to_multiset(s2, h);
        assert(with_hash(s1, h).to_multiset() == with_hash(s2, h).to_multiset());
        vstd::seq_lib::to_multiset_len(with_hash(s1, h));
        vstd::seq_lib::to_multiset_len(with_hash(s2, h));
        assert(with_hash(s1, h).len() == with_hash(s2, h).len());
        lemma_sorted_groups(s1, h);
        lemma_sorted_groups(s2, h);
        lemma_map_to_multiset(with_hash(s1, h), with_hash(s2, h));
    }
    assert(duplicate_groups(s1).dom() =~= duplicate_groups(s2).dom());
}

/// Exact duplicate groups described on the entries alone: every
/// fingerprint carried by two or more entries maps to the paths of all of
/// them, in input order.
pub open spec fn exact_groups(s: Seq<(u64, String)>) -> Map<u64, Seq<String>> {
    Map::new(|h: u64| with_hash(s, h).len() >= 2, |h: u64| paths_of(with_hash(s, h)))
}

/// Once entries are sorted by fingerprint, keeping the entries under each
/// fingerprint in their order, the duplicate groups are the exact groups of
/// the unsorted entries.
pub proof fn lemma_sorted_groups_are_exact(s: Seq<(u64, String)>, t: Seq<(u64, String)>)
    requires
        sorted_by_hash(t),
        forall|h: u64| with_hash(t, h) == with_hash(s, h),
    ensures
        duplicate_groups(t) == exact_groups(s),
{
    assert forall|h: u64|
        #![trigger duplicate_groups(t).contains_key(h)]
        duplicate_groups(t).contains_key(h) == exact_groups(s).contains_key(h) && (
        duplicate_groups(t).contains_key(h) ==> duplicate_groups(t)[h] == exact_groups(s)[h]) by {
        lemma_sorted_groups(t, h);
    }
    assert(duplicate_groups(t) =~= exact_groups(s));
}

/// What an exact-duplicate scan reports.
pub struct DuplicateReport {
    /// Each fingerprint shared by two or more files, with all their paths.
    pub groups: HashMap<u64, Vec<String>>,
    /// The files to delete so that one file of each group is kept.
    pub to_remove: Vec<String>,
}

/// Finishes a fingerprint scan: the collected entries, sorted by fingerprint
/// (stably) when `sort` is `Some(true)`, and otherwise as collected.
pub fn hash(hash_paths: Vec<(u64, String)>, sort: Option<bool>) -> (r: Vec<(u64, String)>)
    ensures
        sort == Some(true) ==> sorted_by_hash(r@) && forall|h: u64|
            with_hash(r@, h) == with_hash(hash_paths@, h),
        sort != Some(true) ==> r@ == hash_paths@,
{
    let mut entries = hash_paths;
    if let Some(true) = sort {
        sort_hashes(&mut entries);
    }
    entries
}

/// Finishes an exact-duplicate scan: sorts the entries by fingerprint
/// (stably), groups equal fingerprints and, when `remove` is set, lists for
/// deletion every file but the first of each group, in sorted order.
pub fn dupes(hash_paths: Vec<(u64, String)>, remove: bool) -> (r: DuplicateReport)
    ensures
        group_paths(r.groups@) == exact_groups(hash_paths@),
        !remove ==> r.to_remove@.len() == 0,
        remove ==> forall|t: Seq<(u64, String)>|
            #[trigger] sorted_by_hash(t) && (forall|h: u64| with_hash(t, h) == with_hash(hash_paths@, h))
                ==> r.to_remove@ == repeated_paths(t, t.len() as int),
{
    let ghost collected = hash_paths@;
    let mut entries = hash_paths;
    sort_hashes(&mut entries);
    proof {
        lemma_sorted_groups_are_exact(collected, entries@);
    }
    let groups = find_duplicates(&entries);
    let to_remove = if remove {
        removal_list(&entries)
    } else {
        Vec::new()
    };
    proof {
        assert forall|t: Seq<(u64, String)>|
            #[trigger] sorted_by_hash(t) && (forall|h: u64| with_hash(t, h) == with_hash(collected, h))
                implies entries@ == t by {
            lemma_stable_resort_is_identity(entries@, t);
        }
    }
    DuplicateReport { groups, to_remove }
}

} // verus!
