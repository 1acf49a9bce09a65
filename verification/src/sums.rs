//! Weighted sums over sequences, and the lemmas the supply and escrow
//! invariants rest on.

use vstd::prelude::*;

verus! {

/// Sum of `f` over the elements of `s`.
pub open spec fn weighted_sum<T>(s: Seq<T>, f: spec_fn(T) -> int) -> int
    decreases s.len(),
{
    if s.len() == 0 {
        0
    } else {
        weighted_sum(s.drop_last(), f) + f(s.last())
    }
}

/// A sum of nonnegative weights is nonnegative.
pub proof fn lemma_sum_nonneg<T>(s: Seq<T>, f: spec_fn(T) -> int)
    requires
        forall|i: int| 0 <= i < s.len() ==> f(#[trigger] s[i]) >= 0,
    ensures
        weighted_sum(s, f) >= 0,
    decreases s.len(),
{
    if s.len() > 0 {
        lemma_sum_nonneg(s.drop_last(), f);
    }
}

/// Appending an element adds its weight to the sum.
pub proof fn lemma_sum_push<T>(s: Seq<T>, f: spec_fn(T) -> int, x: T)
    ensures
        weighted_sum(s.push(x), f) == weighted_sum(s, f) + f(x),
{
    assert(s.push(x).drop_last() =~= s);
}

/// Replacing the element at `i` shifts the sum by the difference of weights.
pub proof fn lemma_sum_update<T>(s: Seq<T>, f: spec_fn(T) -> int, i: int, x: T)
    requires
        0 <= i < s.len(),
    ensures
        weighted_sum(s.update(i, x), f) == weighted_sum(s, f) - f(s[i]) + f(x),
    decreases s.len(),
{
    let t = s.update(i, x);
    if i == s.len() - 1 {
        assert(t.drop_last() =~= s.drop_last());
        assert(t.last() == x);
    } else {
        assert(t.drop_last() =~= s.drop_last().update(i, x));
        assert(t.last() == s.last());
        lemma_sum_update(s.drop_last(), f, i, x);
    }
}

/// Removing the element at `i` subtracts its weight from the sum.
pub proof fn lemma_sum_remove<T>(s: Seq<T>, f: spec_fn(T) -> int, i: int)
    requires
        0 <= i < s.len(),
    ensures
        weighted_sum(s.remove(i), f) == weighted_sum(s, f) - f(s[i]),
    decreases s.len(),
{
    let t = s.remove(i);
    if i == s.len() - 1 {
        assert(t =~= s.drop_last());
    } else {
        assert(t.drop_last() =~= s.drop_last().remove(i));
        assert(t.last() == s.last());
        lemma_sum_remove(s.drop_last(), f, i);
    }
}

/// With nonnegative weights, one element's weight is at most the sum.
pub proof fn lemma_element_le_sum<T>(s: Seq<T>, f: spec_fn(T) -> int, i: int)
    requires
        0 <= i < s.len(),
        forall|j: int| 0 <= j < s.len() ==> f(#[trigger] s[j]) >= 0,
    ensures
        f(s[i]) <= weighted_sum(s, f),
    decreases s.len(),
{
    if i == s.len() - 1 {
        lemma_sum_nonneg(s.drop_last(), f);
    } else {
        lemma_element_le_sum(s.drop_last(), f, i);
    }
}

/// A sum over elements that all weigh zero is zero.
pub proof fn lemma_sum_zero<T>(s: Seq<T>, f: spec_fn(T) -> int)
    requires
        forall|i: int| 0 <= i < s.len() ==> f(#[trigger] s[i]) == 0,
    ensures
        weighted_sum(s, f) == 0,
    decreases s.len(),
{
    if s.len() > 0 {
        lemma_sum_zero(s.drop_last(), f);
    }
}

} // verus!
