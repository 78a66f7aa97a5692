//! Counting the elements of a sequence that satisfy a predicate, and the
//! facts about such counts that the proofs of the library use.

use vstd::prelude::*;

verus! {

/// Number of elements of `s` that satisfy `p`.
pub open spec fn count_where<A>(s: Seq<A>, p: spec_fn(A) -> bool) -> nat
    decreases s.len(),
{
    if s.len() == 0 {
        0
    } else {
        count_where(s.drop_last(), p) + if p(s.last()) { 1nat } else { 0nat }
    }
}

/// `a` and `b` hold the same elements, each as many times: every predicate
/// counts alike on both.
pub open spec fn same_counts<A>(a: Seq<A>, b: Seq<A>) -> bool {
    forall|p: spec_fn(A) -> bool| #[trigger] count_where(a, p) == count_where(b, p)
}

/// Counting over `s.push(x)` adds one exactly when `x` satisfies the predicate.
pub proof fn lemma_count_push<A>(s: Seq<A>, x: A, p: spec_fn(A) -> bool)
    ensures
        count_where(s.push(x), p) == count_where(s, p) + if p(x) { 1nat } else { 0nat },
{
    assert(s.push(x).drop_last() =~= s);
}

/// Counts add up over a concatenation.
pub proof fn lemma_count_add<A>(a: Seq<A>, b: Seq<A>, p: spec_fn(A) -> bool)
    ensures
        count_where(a + b, p) == count_where(a, p) + count_where(b, p),
    decreases b.len(),
{
    if b.len() == 0 {
        assert(a + b =~= a);
    } else {
        lemma_count_add(a, b.drop_last(), p);
        assert((a + b).drop_last() =~= a + b.drop_last());
        assert((a + b).last() == b.last());
    }
}

/// Counts add up over a split at any index.
pub proof fn lemma_count_split<A>(s: Seq<A>, k: int, p: spec_fn(A) -> bool)
    requires
        0 <= k <= s.len(),
    ensures
        count_where(s, p) == count_where(s.take(k), p) + count_where(s.skip(k), p),
{
    lemma_count_add(s.take(k), s.skip(k), p);
    assert(s.take(k) + s.skip(k) =~= s);
}

/// Counting over one more element of a prefix.
pub proof fn lemma_count_take_next<A>(s: Seq<A>, k: int, p: spec_fn(A) -> bool)
    requires
        0 <= k < s.len(),
    ensures
        count_where(s.take(k + 1), p) == count_where(s.take(k), p) + if p(s[k]) { 1nat } else { 0nat },
{
    assert(s.take(k + 1) =~= s.take(k).push(s[k]));
    lemma_count_push(s.take(k), s[k], p);
}

/// A predicate implied by another counts at least as many elements.
pub proof fn lemma_count_mono<A>(s: Seq<A>, p: spec_fn(A) -> bool, q: spec_fn(A) -> bool)
    requires
        forall|i: int| 0 <= i < s.len() && #[trigger] p(s[i]) ==> q(s[i]),
    ensures
        count_where(s, p) <= count_where(s, q),
    decreases s.len(),
{
    if s.len() > 0 {
        assert forall|i: int| 0 <= i < s.drop_last().len() && #[trigger] p(s.drop_last()[i]) implies q(s.drop_last()[i]) by {
            assert(s.drop_last()[i] == s[i]);
        }
        lemma_count_mono(s.drop_last(), p, q);
        assert(p(s[s.len() - 1]) ==> q(s[s.len() - 1]));
    }
}

/// Predicates that agree on every element count alike.
pub proof fn lemma_count_ext<A>(s: Seq<A>, p: spec_fn(A) -> bool, q: spec_fn(A) -> bool)
    requires
        forall|i: int| 0 <= i < s.len() ==> #[trigger] p(s[i]) == q(s[i]),
    ensures
        count_where(s, p) == count_where(s, q),
{
    lemma_count_mono(s, p, q);
    lemma_count_mono(s, q, p);
}

/// No element satisfies the predicate: the count is zero.
pub proof fn lemma_count_none<A>(s: Seq<A>, p: spec_fn(A) -> bool)
    requires
        forall|i: int| 0 <= i < s.len() ==> !#[trigger] p(s[i]),
    ensures
        count_where(s, p) == 0,
    decreases s.len(),
{
    if s.len() > 0 {
        assert forall|i: int| 0 <= i < s.drop_last().len() implies !#[trigger] p(s.drop_last()[i]) by {
            assert(s.drop_last()[i] == s[i]);
        }
        lemma_count_none(s.drop_last(), p);
    }
}

/// A count never exceeds the length.
pub proof fn lemma_count_le_len<A>(s: Seq<A>, p: spec_fn(A) -> bool)
    ensures
        count_where(s, p) <= s.len(),
    decreases s.len(),
{
    if s.len() > 0 {
        lemma_count_le_len(s.drop_last(), p);
    }
}

/// A positive count has a last witness: an element that satisfies the
/// predicate with none after it that does.
pub proof fn lemma_count_last_witness<A>(s: Seq<A>, p: spec_fn(A) -> bool) -> (i: int)
    requires
        count_where(s, p) > 0,
    ensures
        0 <= i < s.len(),
        p(s[i]),
        forall|j: int| i < j < s.len() ==> !#[trigger] p(s[j]),
    decreases s.len(),
{
    if p(s.last()) {
        s.len() - 1
    } else {
        let i = lemma_count_last_witness(s.drop_last(), p);
        assert(s.drop_last()[i] == s[i]);
        assert forall|j: int| i < j < s.len() implies !#[trigger] p(s[j]) by {
            if j < s.len() - 1 {
                assert(s.drop_last()[j] == s[j]);
            }
        }
        i
    }
}

/// A positive count has a first witness: an element that satisfies the
/// predicate with none before it that does.
pub proof fn lemma_count_first_witness<A>(s: Seq<A>, p: spec_fn(A) -> bool) -> (i: int)
    requires
        count_where(s, p) > 0,
    ensures
        0 <= i < s.len(),
        p(s[i]),
        forall|j: int| 0 <= j < i ==> !#[trigger] p(s[j]),
    decreases s.len(),
{
    if count_where(s.drop_last(), p) > 0 {
        let i = lemma_count_first_witness(s.drop_last(), p);
        assert(s.drop_last()[i] == s[i]);
        assert forall|j: int| 0 <= j < i implies !#[trigger] p(s[j]) by {
            assert(s.drop_last()[j] == s[j]);
        }
        i
    } else {
        assert forall|j: int| 0 <= j < s.len() - 1 implies !#[trigger] p(s[j]) by {
            if p(s[j]) {
                assert(s.drop_last()[j] == s[j]);
                lemma_count_witness_positive(s.drop_last(), p, j);
            }
        }
        s.len() - 1
    }
}

/// An element that satisfies the predicate makes the count positive.
pub proof fn lemma_count_witness_positive<A>(s: Seq<A>, p: spec_fn(A) -> bool, i: int)
    requires
        0 <= i < s.len(),
        p(s[i]),
    ensures
        count_where(s, p) > 0,
    decreases s.len(),
{
    if i < s.len() - 1 {
        assert(s.drop_last()[i] == s[i]);
        lemma_count_witness_positive(s.drop_last(), p, i);
    }
}

/// A count equal to the length means every element satisfies the predicate.
pub proof fn lemma_count_full<A>(s: Seq<A>, p: spec_fn(A) -> bool)
    requires
        count_where(s, p) == s.len(),
    ensures
        forall|i: int| 0 <= i < s.len() ==> #[trigger] p(s[i]),
    decreases s.len(),
{
    if s.len() > 0 {
        lemma_count_le_len(s.drop_last(), p);
        lemma_count_full(s.drop_last(), p);
        assert forall|i: int| 0 <= i < s.len() implies #[trigger] p(s[i]) by {
            if i < s.len() - 1 {
                assert(s.drop_last()[i] == s[i]);
            }
        }
    }
}

} // verus!
