use vstd::prelude::*;
use vstd::relations::{sorted_by, total_ordering};
use vstd::seq_lib::{lemma_sorted_unique, to_multiset_build, to_multiset_contains, to_multiset_insert, to_multiset_len, to_multiset_remove};

verus! {

/// The ascending order of integers.
pub open spec fn ascending() -> spec_fn(u64, u64) -> bool {
    |a: u64, b: u64| a <= b
}

/// The largest value that a majority of `s` reach: the element in the middle
/// of `s` once sorted ascending (the lower middle one when `s` has an even
/// length), so that more than half of the elements are at least it.
pub open spec fn majority_value(s: Seq<u64>) -> u64 {
    s.sort_by(ascending())[(s.len() as int - 1) / 2]
}

pub proof fn lemma_ascending_total()
    ensures
        total_ordering(ascending()),
{
}

/// Two sequences without repeats that hold the same elements hold each of them
/// equally often.
pub proof fn lemma_same_elements_same_multiset<A>(a: Seq<A>, b: Seq<A>)
    requires
        a.no_duplicates(),
        b.no_duplicates(),
        a.to_set() == b.to_set(),
    ensures
        a.to_multiset() == b.to_multiset(),
{
    broadcast use vstd::multiset::group_multiset_axioms;

    a.lemma_multiset_has_no_duplicates();
    b.lemma_multiset_has_no_duplicates();
    assert forall|x: A| a.to_multiset().count(x) == b.to_multiset().count(x) by {
        to_multiset_contains(a, x);
        to_multiset_contains(b, x);
        assert(a.to_set().contains(x) == a.contains(x));
        assert(b.to_set().contains(x) == b.contains(x));
    }
    assert(a.to_multiset() =~= b.to_multiset());
}

/// Mapping the elements of two sequences that hold the same elements equally
/// often gives two sequences that do too.
pub proof fn lemma_map_values_same_multiset<A, B>(a: Seq<A>, b: Seq<A>, f: spec_fn(A) -> B)
    requires
        a.to_multiset() == b.to_multiset(),
    ensures
        a.map_values(f).to_multiset() == b.map_values(f).to_multiset(),
    decreases a.len(),
{
    broadcast use vstd::multiset::group_multiset_axioms;

    to_multiset_len(a);
    to_multiset_len(b);
    if a.len() == 0 {
        assert(a.map_values(f) =~= b.map_values(f));
    } else {
        let x = a.last();
        to_multiset_contains(a, x);
        assert(a[a.len() - 1] == x);
        to_multiset_contains(b, x);
        let i = choose|i: int| 0 <= i < b.len() && #[trigger] b[i] == x;
        let a1 = a.drop_last();
        let b1 = b.remove(i);
        assert(a.remove(a.len() - 1) =~= a1);
        to_multiset_remove(a, a.len() - 1);
        to_multiset_remove(b, i);
        lemma_map_values_same_multiset(a1, b1, f);
        assert(a.map_values(f) =~= a1.map_values(f).push(f(x)));
        to_multiset_build(a1.map_values(f), f(x));
        assert(b.map_values(f) =~= b1.map_values(f).insert(i, f(x)));
        to_multiset_insert(b1.map_values(f), i, f(x));
    }
}

/// Two sequences that hold the same elements equally often sort to the same sequence.
pub proof fn lemma_same_multiset_same_sort(a: Seq<u64>, b: Seq<u64>)
    requires
        a.to_multiset() == b.to_multiset(),
    ensures
        a.sort_by(ascending()) == b.sort_by(ascending()),
{
    lemma_ascending_total();
    a.lemma_sort_by_ensures(ascending());
    b.lemma_sort_by_ensures(ascending());
    lemma_sorted_unique(a.sort_by(ascending()), b.sort_by(ascending()), ascending());
}

/// A sorted copy of `v`.
pub fn sorted_copy(v: &Vec<u64>) -> (r: Vec<u64>)
    ensures
        r@ == v@.sort_by(ascending()),
{
    broadcast use vstd::multiset::group_multiset_axioms;

    let mut r: Vec<u64> = Vec::new();
    let mut i: usize = 0;
    assert(v@.take(0) =~= r@);
    while i < v.len()
        invariant
            0 <= i <= v@.len(),
            r@.len() == i,
            sorted_by(r@, ascending()),
            r@.to_multiset() == v@.take(i as int).to_multiset(),
        decreases v@.len() - i,
    {
        let x = v[i];
        let mut pos: usize = 0;
        while pos < r.len() && r[pos] <= x
            invariant
                0 <= pos <= r@.len(),
                forall|k: int| 0 <= k < pos ==> r@[k] <= x,
            decreases r@.len() - pos,
        {
            pos = pos + 1;
        }
        let ghost before = r@;
        r.insert(pos, x);
        proof {
            assert(pos < before.len() ==> before[pos as int] > x);
            assert(sorted_by(r@, ascending())) by {
                assert forall|a: int, b: int| 0 <= a < b < r@.len() implies #[trigger] (ascending())(r@[a], r@[b]) by {
                    if b < pos {
                    } else if b == pos {
                    } else if a < pos {
                        assert(before[pos as int] > x);
                        assert((ascending())(before[pos as int], before[b - 1]));
                    } else if a == pos {
                        assert((ascending())(before[pos as int], before[b - 1]));
                    } else {
                        assert((ascending())(before[a - 1], before[b - 1]));
                    }
                }
            }
            to_multiset_insert(before, pos as int, x);
            assert(v@.take(i + 1) =~= v@.take(i as int).push(x));
            to_multiset_build(v@.take(i as int), x);
        }
        i = i + 1;
    }
    proof {
        assert(v@.take(v@.len() as int) =~= v@);
        lemma_ascending_total();
        v@.lemma_sort_by_ensures(ascending());
        lemma_sorted_unique(r@, v@.sort_by(ascending()), ascending());
    }
    r
}


/// How many elements of `s` are at least `n`.
pub open spec fn count_at_least(s: Seq<u64>, n: u64) -> nat
    decreases s.len(),
{
    if s.len() == 0 {
        0
    } else {
        count_at_least(s.drop_last(), n) + if s.last() >= n { 1nat } else { 0nat }
    }
}

pub proof fn lemma_count_concat(a: Seq<u64>, b: Seq<u64>, n: u64)
    ensures
        count_at_least(a + b, n) == count_at_least(a, n) + count_at_least(b, n),
    decreases b.len(),
{
    if b.len() == 0 {
        assert(a + b =~= a);
    } else {
        assert((a + b).drop_last() =~= a + b.drop_last());
        assert((a + b).last() == b.last());
        lemma_count_concat(a, b.drop_last(), n);
    }
}

pub proof fn lemma_count_all(s: Seq<u64>, n: u64)
    requires
        forall|k: int| 0 <= k < s.len() ==> s[k] >= n,
    ensures
        count_at_least(s, n) == s.len(),
    decreases s.len(),
{
    if s.len() > 0 {
        lemma_count_all(s.drop_last(), n);
    }
}

/// Sequences that hold the same elements equally often have as many elements
/// at least `n`.
pub proof fn lemma_count_same_multiset(a: Seq<u64>, b: Seq<u64>, n: u64)
    requires
        a.to_multiset() == b.to_multiset(),
    ensures
        count_at_least(a, n) == count_at_least(b, n),
    decreases a.len(),
{
    broadcast use vstd::multiset::group_multiset_axioms;

    to_multiset_len(a);
    to_multiset_len(b);
    if a.len() == 0 {
        assert(b =~= Seq::<u64>::empty());
    } else {
        let x = a.last();
        to_multiset_contains(a, x);
        assert(a[a.len() - 1] == x);
        to_multiset_contains(b, x);
        let i = choose|i: int| 0 <= i < b.len() && #[trigger] b[i] == x;
        let a1 = a.drop_last();
        let b1 = b.remove(i);
        assert(a.remove(a.len() - 1) =~= a1);
        to_multiset_remove(a, a.len() - 1);
        to_multiset_remove(b, i);
        lemma_count_same_multiset(a1, b1, n);
        assert(b =~= b.take(i) + (seq![x] + b.skip(i + 1)));
        assert(b1 =~= b.take(i) + b.skip(i + 1));
        lemma_count_concat(b.take(i), seq![x] + b.skip(i + 1), n);
        lemma_count_concat(seq![x], b.skip(i + 1), n);
        lemma_count_concat(b.take(i), b.skip(i + 1), n);
        assert(seq![x].drop_last() =~= Seq::<u64>::empty());
        assert(count_at_least(Seq::<u64>::empty(), n) == 0);
        assert(seq![x].last() == x);
        assert(count_at_least(seq![x], n) == if x >= n { 1nat } else { 0nat });
    }
}

/// A majority of a non-empty sequence is at least its majority value: the
/// elements from that value's position on in sorted order.
pub proof fn lemma_majority_value_is_reached_by_majority(s: Seq<u64>)
    requires
        s.len() > 0,
    ensures
        count_at_least(s, majority_value(s)) >= s.len() / 2 + 1,
{
    lemma_ascending_total();
    s.lemma_sort_by_ensures(ascending());
    let sorted = s.sort_by(ascending());
    to_multiset_len(s);
    to_multiset_len(sorted);
    let h = (s.len() as int - 1) / 2;
    let m = sorted[h];
    assert forall|k: int| 0 <= k < sorted.skip(h).len() implies sorted.skip(h)[k] >= m by {
        if k > 0 {
            assert((ascending())(sorted[h], sorted[h + k]));
        }
    }
    lemma_count_all(sorted.skip(h), m);
    assert(sorted =~= sorted.take(h) + sorted.skip(h));
    lemma_count_concat(sorted.take(h), sorted.skip(h), m);
    lemma_count_same_multiset(s, sorted, m);
    assert(majority_value(s) == m);
    assert(count_at_least(sorted.skip(h), m) == s.len() - h);
    assert(count_at_least(sorted, m) >= s.len() - h);
}


pub proof fn lemma_count_none(s: Seq<u64>, n: u64)
    requires
        forall|k: int| 0 <= k < s.len() ==> s[k] < n,
    ensures
        count_at_least(s, n) == 0,
    decreases s.len(),
{
    if s.len() > 0 {
        lemma_count_none(s.drop_last(), n);
    }
}

pub proof fn lemma_count_at_most_len(s: Seq<u64>, n: u64)
    ensures
        count_at_least(s, n) <= s.len(),
    decreases s.len(),
{
    if s.len() > 0 {
        lemma_count_at_most_len(s.drop_last(), n);
    }
}

/// No value above the majority value is reached by a majority.
pub proof fn lemma_above_majority_value_is_minority(s: Seq<u64>, v: u64)
    requires
        s.len() > 0,
        v > majority_value(s),
    ensures
        count_at_least(s, v) < s.len() / 2 + 1,
{
    lemma_ascending_total();
    s.lemma_sort_by_ensures(ascending());
    let sorted = s.sort_by(ascending());
    to_multiset_len(s);
    to_multiset_len(sorted);
    let h = (s.len() as int - 1) / 2;
    assert forall|k: int| 0 <= k < sorted.take(h + 1).len() implies #[trigger] sorted.take(h + 1)[k] < v by {
        if k < h {
            assert((ascending())(sorted[k], sorted[h]));
        }
    }
    lemma_count_none(sorted.take(h + 1), v);
    lemma_count_at_most_len(sorted.skip(h + 1), v);
    assert(sorted =~= sorted.take(h + 1) + sorted.skip(h + 1));
    lemma_count_concat(sorted.take(h + 1), sorted.skip(h + 1), v);
    lemma_count_same_multiset(s, sorted, v);
}

} // verus!
