//! The first element of a sequence that satisfies a predicate.

use vstd::prelude::*;

verus! {

/// `i` is the position of the first element of `s` that satisfies `p`.
pub open spec fn is_first<A>(s: Seq<A>, p: spec_fn(A) -> bool, i: int) -> bool {
    &&& 0 <= i < s.len()
    &&& p(s[i])
    &&& forall|j: int| 0 <= j < i ==> !p(#[trigger] s[j])
}

/// The position of the first element of `s` that satisfies `p`, if any.
pub open spec fn first_where<A>(s: Seq<A>, p: spec_fn(A) -> bool) -> Option<int> {
    if exists|i: int| is_first(s, p, i) {
        Some(choose|i: int| is_first(s, p, i))
    } else {
        None
    }
}

/// Some element of `s` satisfies `p`.
pub open spec fn any_where<A>(s: Seq<A>, p: spec_fn(A) -> bool) -> bool {
    exists|i: int| 0 <= i < s.len() && p(#[trigger] s[i])
}

/// A first position is the one `first_where` names.
pub proof fn lemma_first_where<A>(s: Seq<A>, p: spec_fn(A) -> bool, i: int)
    requires
        is_first(s, p, i),
    ensures
        first_where(s, p) == Some(i),
{
    let c = choose|k: int| is_first(s, p, k);
    assert(is_first(s, p, c));
    if c < i {
        assert(!p(s[c]));
    } else if i < c {
        assert(!p(s[i]));
    }
}

/// With no element satisfying `p`, there is no first one.
pub proof fn lemma_first_where_none<A>(s: Seq<A>, p: spec_fn(A) -> bool)
    requires
        !any_where(s, p),
    ensures
        first_where(s, p) is None,
{
    if exists|i: int| is_first(s, p, i) {
        let c = choose|k: int| is_first(s, p, k);
        assert(p(s[c]));
    }
}

/// When some element satisfies `p`, the first one exists.
pub proof fn lemma_first_where_some<A>(s: Seq<A>, p: spec_fn(A) -> bool)
    requires
        any_where(s, p),
    ensures
        first_where(s, p) is Some,
        is_first(s, p, first_where(s, p)->0),
    decreases s.len(),
{
    if p(s[0]) {
        lemma_first_where(s, p, 0);
    } else {
        let t = s.drop_first();
        let k = choose|i: int| 0 <= i < s.len() && p(#[trigger] s[i]);
        assert(t[k - 1] == s[k]);
        lemma_first_where_some(t, p);
        let j = first_where(t, p)->0;
        assert forall|m: int| 0 <= m < j + 1 implies !p(#[trigger] s[m]) by {
            if m > 0 {
                assert(s[m] == t[m - 1]);
            }
        }
        assert(s[j + 1] == t[j]);
        lemma_first_where(s, p, j + 1);
    }
}

} // verus!

verus! {

/// `r` is where `first_where(s, p)` points, and it is `None` exactly when
/// no element of `s` satisfies `p`.
pub open spec fn found_at<A>(r: Option<usize>, s: Seq<A>, p: spec_fn(A) -> bool) -> bool {
    match r {
        Some(i) => first_where(s, p) == Some(i as int) && any_where(s, p),
        None => first_where(s, p) is None && !any_where(s, p),
    }
}


/// Appending `x` adds exactly `p(x)` to whether some element satisfies `p`.
pub proof fn lemma_any_where_push<A>(s: Seq<A>, x: A, p: spec_fn(A) -> bool)
    ensures
        any_where(s.push(x), p) == (any_where(s, p) || p(x)),
{
    let t = s.push(x);
    if any_where(s, p) {
        let i = choose|i: int| 0 <= i < s.len() && p(#[trigger] s[i]);
        assert(t[i] == s[i]);
    }
    if p(x) {
        assert(t[s.len() as int] == x);
    }
    if any_where(t, p) {
        let i = choose|i: int| 0 <= i < t.len() && p(#[trigger] t[i]);
        if i < s.len() {
            assert(t[i] == s[i]);
        }
    }
}


/// `first_where` only looks at which positions satisfy the predicate.
pub proof fn lemma_first_where_same<A, B>(
    s1: Seq<A>,
    p1: spec_fn(A) -> bool,
    s2: Seq<B>,
    p2: spec_fn(B) -> bool,
)
    requires
        s1.len() == s2.len(),
        forall|j: int| 0 <= j < s1.len() ==> p1(#[trigger] s1[j]) == p2(s2[j]),
    ensures
        first_where(s1, p1) == first_where(s2, p2),
        any_where(s1, p1) == any_where(s2, p2),
{
    if any_where(s1, p1) {
        lemma_first_where_some(s1, p1);
        let i = first_where(s1, p1)->0;
        assert forall|j: int| 0 <= j < i implies !p2(#[trigger] s2[j]) by {
            assert(!p1(s1[j]));
        }
        assert(p1(s1[i]));
        lemma_first_where(s2, p2, i);
    } else {
        assert forall|j: int| 0 <= j < s2.len() implies !p2(#[trigger] s2[j]) by {
            if p2(s2[j]) {
                assert(p1(s1[j]));
            }
        }
        lemma_first_where_none(s1, p1);
        lemma_first_where_none(s2, p2);
    }
}

/// Appending keeps an earlier first match, and otherwise makes the new
/// element the first match when it satisfies the predicate.
pub proof fn lemma_first_where_push<A>(s: Seq<A>, x: A, p: spec_fn(A) -> bool)
    ensures
        first_where(s.push(x), p) == (if any_where(s, p) {
            first_where(s, p)
        } else if p(x) {
            Some(s.len() as int)
        } else {
            None
        }),
{
    let t = s.push(x);
    if any_where(s, p) {
        lemma_first_where_some(s, p);
        let i = first_where(s, p)->0;
        assert forall|j: int| 0 <= j < i implies !p(#[trigger] t[j]) by {
            assert(t[j] == s[j]);
            assert(!p(s[j]));
        }
        assert(t[i] == s[i]);
        lemma_first_where(t, p, i);
    } else if p(x) {
        assert forall|j: int| 0 <= j < s.len() implies !p(#[trigger] t[j]) by {
            assert(t[j] == s[j]);
            if p(s[j]) {
                assert(any_where(s, p));
            }
        }
        assert(t[s.len() as int] == x);
        lemma_first_where(t, p, s.len() as int);
    } else {
        assert forall|j: int| 0 <= j < t.len() implies !p(#[trigger] t[j]) by {
            if j < s.len() {
                assert(t[j] == s[j]);
                if p(s[j]) {
                    assert(any_where(s, p));
                }
            }
        }
        lemma_first_where_none(t, p);
    }
}

} // verus!
