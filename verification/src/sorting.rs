//! Stable insertion sort by an integer key, as a specification.

use vstd::prelude::*;

verus! {

/// Inserts `x` after every element whose key is `<= key(x)`, scanning from
/// the end: elements with an equal key keep their place before `x`.
pub open spec fn insert_by_key<A>(s: Seq<A>, x: A, key: spec_fn(A) -> u64) -> Seq<A>
    decreases s.len(),
{
    if s.len() == 0 || key(s.last()) <= key(x) {
        s.push(x)
    } else {
        insert_by_key(s.drop_last(), x, key).push(s.last())
    }
}

/// Stable sort by `key` (insertion sort, elements taken in order).
pub open spec fn sort_by_key<A>(s: Seq<A>, key: spec_fn(A) -> u64) -> Seq<A>
    decreases s.len(),
{
    if s.len() == 0 {
        s
    } else {
        insert_by_key(sort_by_key(s.drop_last(), key), s.last(), key)
    }
}

/// Ordered by `key`, non-decreasing.
pub open spec fn sorted_by_key<A>(s: Seq<A>, key: spec_fn(A) -> u64) -> bool {
    forall|i: int, j: int| 0 <= i <= j < s.len() ==> key(s[i]) <= key(s[j])
}

/// Where `insert_by_key` puts `x`: after position `p - 1`.
pub proof fn lemma_insert_by_key_at<A>(s: Seq<A>, x: A, key: spec_fn(A) -> u64, p: int)
    requires
        0 <= p <= s.len(),
        p == 0 || key(s[p - 1]) <= key(x),
        forall|k: int| p <= k < s.len() ==> key(#[trigger] s[k]) > key(x),
    ensures
        insert_by_key(s, x, key) == s.subrange(0, p).push(x) + s.subrange(p, s.len() as int),
    decreases s.len() - p,
{
    if p == s.len() {
        assert(s.subrange(0, p) == s);
        assert(s.subrange(p, s.len() as int) =~= Seq::<A>::empty());
        assert(s.push(x) =~= s.subrange(0, p).push(x) + s.subrange(p, s.len() as int));
    } else {
        let d = s.drop_last();
        assert(key(s[s.len() - 1]) > key(x));
        assert forall|k: int| p <= k < d.len() implies key(#[trigger] d[k]) > key(x) by {
            assert(d[k] == s[k]);
        }
        if p > 0 {
            assert(d[p - 1] == s[p - 1]);
        }
        lemma_insert_by_key_at(d, x, key, p);
        assert(d.subrange(0, p) == s.subrange(0, p));
        assert(s.subrange(0, p).push(x) + s.subrange(p, s.len() as int) =~= (d.subrange(0, p).push(
            x,
        ) + d.subrange(p, d.len() as int)).push(s.last()));
    }
}

proof fn lemma_insert_sorted<A>(s: Seq<A>, x: A, key: spec_fn(A) -> u64)
    requires
        sorted_by_key(s, key),
    ensures
        sorted_by_key(insert_by_key(s, x, key), key),
        insert_by_key(s, x, key).to_multiset() == s.to_multiset().insert(x),
    decreases s.len(),
{
    broadcast use vstd::seq_lib::group_to_multiset_ensures;

    if s.len() == 0 || key(s.last()) <= key(x) {
        let r = s.push(x);
        assert forall|i: int, j: int| 0 <= i <= j < r.len() implies key(r[i]) <= key(r[j]) by {
            if j == s.len() && i < j {
                assert(key(s[i]) <= key(s.last()));
            }
        }
    } else {
        let d = s.drop_last();
        assert forall|i: int, j: int| 0 <= i <= j < d.len() implies key(d[i]) <= key(d[j]) by {
            assert(d[i] == s[i] && d[j] == s[j]);
        }
        lemma_insert_sorted(d, x, key);
        let m = insert_by_key(d, x, key);
        let r = m.push(s.last());
        assert forall|k: int| 0 <= k < m.len() implies key(#[trigger] m[k]) <= key(s.last()) by {
            assert(m.to_multiset().count(m[k]) > 0);
            assert(d.to_multiset().insert(x).count(m[k]) > 0);
            if m[k] != x {
                assert(d.to_multiset().count(m[k]) > 0);
                assert(d.contains(m[k]));
                let i = choose|i: int| 0 <= i < d.len() && d[i] == m[k];
                assert(s[i] == d[i]);
            }
        }
        assert forall|i: int, j: int| 0 <= i <= j < r.len() implies key(r[i]) <= key(r[j]) by {
            if j == m.len() && i < j {
                assert(r[i] == m[i]);
            }
        }
        assert(s =~= d.push(s.last()));
        assert(s.to_multiset() == d.to_multiset().insert(s.last()));
        assert(r.to_multiset() =~= s.to_multiset().insert(x));
    }
}

/// `sort_by_key` orders by the key and keeps exactly the same elements.
pub proof fn lemma_sort_by_key<A>(s: Seq<A>, key: spec_fn(A) -> u64)
    ensures
        sorted_by_key(sort_by_key(s, key), key),
        sort_by_key(s, key).to_multiset() == s.to_multiset(),
        sort_by_key(s, key).len() == s.len(),
    decreases s.len(),
{
    broadcast use vstd::seq_lib::group_to_multiset_ensures;

    if s.len() > 0 {
        lemma_sort_by_key(s.drop_last(), key);
        lemma_insert_sorted(sort_by_key(s.drop_last(), key), s.last(), key);
        assert(s =~= s.drop_last().push(s.last()));
    }
    let r = sort_by_key(s, key);
    assert(r.len() == r.to_multiset().len());
    assert(s.len() == s.to_multiset().len());
}

} // verus!
