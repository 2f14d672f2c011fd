//! Searching a sequence for the first or the last element with a property.

use vstd::prelude::*;

verus! {

/// The index that an executable search returns, as a mathematical integer.
pub open spec fn position(o: Option<usize>) -> Option<int> {
    match o {
        Some(x) => Some(x as int),
        None => None,
    }
}

/// The least index at or after `k` whose element satisfies `p`.
pub open spec fn first_from<T>(s: Seq<T>, p: spec_fn(T) -> bool, k: int) -> Option<int>
    decreases s.len() - k,
{
    if k < 0 || k >= s.len() {
        None
    } else if p(s[k]) {
        Some(k)
    } else {
        first_from(s, p, k + 1)
    }
}

/// The least index whose element satisfies `p`.
pub open spec fn first_index<T>(s: Seq<T>, p: spec_fn(T) -> bool) -> Option<int> {
    first_from(s, p, 0)
}

/// The greatest index below `k` whose element satisfies `p`.
pub open spec fn last_before<T>(s: Seq<T>, p: spec_fn(T) -> bool, k: int) -> Option<int>
    decreases k,
{
    if k <= 0 || k > s.len() {
        None
    } else if p(s[k - 1]) {
        Some(k - 1)
    } else {
        last_before(s, p, k - 1)
    }
}

/// The greatest index whose element satisfies `p`.
pub open spec fn last_index<T>(s: Seq<T>, p: spec_fn(T) -> bool) -> Option<int> {
    last_before(s, p, s.len() as int)
}

/// `i` is the least index of `s` whose element satisfies `p`.
pub open spec fn is_first<T>(s: Seq<T>, p: spec_fn(T) -> bool, i: int) -> bool {
    &&& 0 <= i < s.len()
    &&& p(s[i])
    &&& forall|j: int| 0 <= j < i ==> !p(#[trigger] s[j])
}

/// `i` is the greatest index of `s` whose element satisfies `p`.
pub open spec fn is_last<T>(s: Seq<T>, p: spec_fn(T) -> bool, i: int) -> bool {
    &&& 0 <= i < s.len()
    &&& p(s[i])
    &&& forall|j: int| i < j < s.len() ==> !p(#[trigger] s[j])
}

/// No element of `s` satisfies `p`.
pub open spec fn none_satisfies<T>(s: Seq<T>, p: spec_fn(T) -> bool) -> bool {
    forall|j: int| 0 <= j < s.len() ==> !p(#[trigger] s[j])
}

/// `first_from` finds the least index at or after `k` with the property, or tells
/// that there is none.
pub proof fn lemma_first_from<T>(s: Seq<T>, p: spec_fn(T) -> bool, k: int)
    requires
        0 <= k <= s.len(),
    ensures
        match first_from(s, p, k) {
            Some(i) => k <= i < s.len() && p(s[i]) && forall|j: int|
                k <= j < i ==> !p(#[trigger] s[j]),
            None => forall|j: int| k <= j < s.len() ==> !p(#[trigger] s[j]),
        },
    decreases s.len() - k,
{
    if k < s.len() && !p(s[k]) {
        lemma_first_from(s, p, k + 1);
    }
}

/// `first_index` finds the least index with the property, or tells that
/// there is none.
pub proof fn lemma_first_index<T>(s: Seq<T>, p: spec_fn(T) -> bool)
    ensures
        match first_index(s, p) {
            Some(i) => is_first(s, p, i),
            None => none_satisfies(s, p),
        },
{
    lemma_first_from(s, p, 0);
}

/// The least index with the property is what `first_index` finds.
pub proof fn lemma_first_index_is<T>(s: Seq<T>, p: spec_fn(T) -> bool, i: int)
    requires
        is_first(s, p, i),
    ensures
        first_index(s, p) == Some(i),
{
    lemma_first_index(s, p);
}

/// Where nothing has the property, `first_index` finds nothing.
pub proof fn lemma_first_index_none<T>(s: Seq<T>, p: spec_fn(T) -> bool)
    requires
        none_satisfies(s, p),
    ensures
        first_index(s, p) is None,
{
    lemma_first_index(s, p);
}

/// `last_before` finds the greatest index below `k` with the property, or tells
/// that there is none.
pub proof fn lemma_last_before<T>(s: Seq<T>, p: spec_fn(T) -> bool, k: int)
    requires
        0 <= k <= s.len(),
    ensures
        match last_before(s, p, k) {
            Some(i) => 0 <= i < k && p(s[i]) && forall|j: int| i < j < k ==> !p(#[trigger] s[j]),
            None => forall|j: int| 0 <= j < k ==> !p(#[trigger] s[j]),
        },
    decreases k,
{
    if k > 0 && !p(s[k - 1]) {
        lemma_last_before(s, p, k - 1);
    }
}

/// `last_index` finds the greatest index with the property, or tells that
/// there is none.
pub proof fn lemma_last_index<T>(s: Seq<T>, p: spec_fn(T) -> bool)
    ensures
        match last_index(s, p) {
            Some(i) => is_last(s, p, i),
            None => none_satisfies(s, p),
        },
{
    lemma_last_before(s, p, s.len() as int);
}

/// The greatest index with the property is what `last_index` finds.
pub proof fn lemma_last_index_is<T>(s: Seq<T>, p: spec_fn(T) -> bool, i: int)
    requires
        is_last(s, p, i),
    ensures
        last_index(s, p) == Some(i),
{
    lemma_last_index(s, p);
}

/// Where nothing has the property, `last_index` finds nothing.
pub proof fn lemma_last_index_none<T>(s: Seq<T>, p: spec_fn(T) -> bool)
    requires
        none_satisfies(s, p),
    ensures
        last_index(s, p) is None,
{
    lemma_last_index(s, p);
}

/// Some element of `s` satisfies `p`.
pub open spec fn any<T>(s: Seq<T>, p: spec_fn(T) -> bool) -> bool {
    exists|m: int| 0 <= m < s.len() && p(#[trigger] s[m])
}

/// At most one element of `s` satisfies `p`.
pub open spec fn at_most_one<T>(s: Seq<T>, p: spec_fn(T) -> bool) -> bool {
    forall|m1: int, m2: int|
        0 <= m1 < s.len() && 0 <= m2 < s.len() && p(#[trigger] s[m1]) && p(#[trigger] s[m2])
            ==> m1 == m2
}

/// `first_index` finds something exactly if some element has the property.
pub proof fn lemma_any_first_index<T>(s: Seq<T>, p: spec_fn(T) -> bool)
    ensures
        any(s, p) <==> first_index(s, p) is Some,
{
    lemma_first_index(s, p);
}

/// What holds of some element after an element is appended.
pub proof fn lemma_any_push<T>(s: Seq<T>, v: T, p: spec_fn(T) -> bool)
    ensures
        any(s.push(v), p) <==> any(s, p) || p(v),
{
    let t = s.push(v);
    if any(s, p) {
        let m = choose|m: int| 0 <= m < s.len() && p(#[trigger] s[m]);
        assert(p(t[m]));
    }
    if p(v) {
        assert(p(t[s.len() as int]));
    }
    if any(t, p) {
        let m = choose|m: int| 0 <= m < t.len() && p(#[trigger] t[m]);
        if m < s.len() {
            assert(p(s[m]));
        }
    }
}

/// What holds of some element after the element at `r` is taken out.
pub proof fn lemma_any_remove<T>(s: Seq<T>, r: int, p: spec_fn(T) -> bool)
    requires
        0 <= r < s.len(),
    ensures
        any(s.remove(r), p) ==> any(s, p),
        !p(s[r]) ==> (any(s.remove(r), p) <==> any(s, p)),
        at_most_one(s, p) ==> at_most_one(s.remove(r), p),
        at_most_one(s, p) && p(s[r]) ==> !any(s.remove(r), p),
{
    let t = s.remove(r);
    assert forall|m: int| 0 <= m < t.len() implies #[trigger] t[m] == s[if m < r {
        m
    } else {
        m + 1
    }] by {}
    if any(t, p) {
        let m = choose|m: int| 0 <= m < t.len() && p(#[trigger] t[m]);
        let m0 = if m < r {
            m
        } else {
            m + 1
        };
        assert(p(s[m0]));
        if at_most_one(s, p) && p(s[r]) {
            assert(m0 == r);
        }
    }
    if any(s, p) && !p(s[r]) {
        let m = choose|m: int| 0 <= m < s.len() && p(#[trigger] s[m]);
        let m1 = if m < r {
            m
        } else {
            m - 1
        };
        assert(t[m1] == s[m]);
        assert(p(t[m1]));
    }
    if at_most_one(s, p) {
        assert forall|m1: int, m2: int|
            0 <= m1 < t.len() && 0 <= m2 < t.len() && p(#[trigger] t[m1]) && p(
                #[trigger] t[m2],
            ) implies m1 == m2 by {
            let a = if m1 < r {
                m1
            } else {
                m1 + 1
            };
            let b = if m2 < r {
                m2
            } else {
                m2 + 1
            };
            assert(p(s[a]) && p(s[b]));
        }
    }
}

/// At most one element has the property after one is appended that lacks it,
/// or that is the only one to have it.
pub proof fn lemma_at_most_one_push<T>(s: Seq<T>, v: T, p: spec_fn(T) -> bool)
    requires
        at_most_one(s, p),
        !p(v) || !any(s, p),
    ensures
        at_most_one(s.push(v), p),
{
    let t = s.push(v);
    assert forall|m1: int, m2: int|
        0 <= m1 < t.len() && 0 <= m2 < t.len() && p(#[trigger] t[m1]) && p(
            #[trigger] t[m2],
        ) implies m1 == m2 by {
        if m1 < s.len() {
            assert(p(s[m1]));
        }
        if m2 < s.len() {
            assert(p(s[m2]));
        }
    }
}

} // verus!
