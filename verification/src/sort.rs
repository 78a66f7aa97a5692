//! Endpoints of sample intervals and their ordering: by value, with a start
//! placed before an end at the same value.

use vstd::prelude::*;

use crate::count::{count_where, lemma_count_add, lemma_count_push, lemma_count_take_next, same_counts};

verus! {

/// One end of a sample interval, as the sweep of Marzullo's algorithm sees it.
#[derive(Clone, Copy)]
pub struct Endpoint {
    pub value: u128,
    pub is_start: bool,
}

/// `a` comes no later than `b`: by value, and a start before an end at equal values.
pub open spec fn key_le(a: Endpoint, b: Endpoint) -> bool {
    a.value < b.value || (a.value == b.value && (a.is_start || !b.is_start))
}

/// The sequence is in endpoint order.
pub open spec fn sorted(s: Seq<Endpoint>) -> bool {
    forall|i: int, j: int| 0 <= i < j < s.len() ==> key_le(#[trigger] s[i], #[trigger] s[j])
}

fn endpoint_le(a: &Endpoint, b: &Endpoint) -> (r: bool)
    ensures
        r == key_le(*a, *b),
{
    a.value < b.value || (a.value == b.value && (a.is_start || !b.is_start))
}

/// Merges two ordered sequences into one ordered sequence of all their elements.
fn merge(a: &Vec<Endpoint>, b: &Vec<Endpoint>) -> (r: Vec<Endpoint>)
    requires
        sorted(a@),
        sorted(b@),
    ensures
        sorted(r@),
        same_counts(r@, a@ + b@),
{
    let mut r: Vec<Endpoint> = Vec::new();
    let mut i: usize = 0;
    let mut j: usize = 0;
    while i < a.len() || j < b.len()
        invariant
            sorted(a@),
            sorted(b@),
            i <= a.len(),
            j <= b.len(),
            sorted(r@),
            same_counts(r@, a@.take(i as int) + b@.take(j as int)),
            r@.len() > 0 && i < a.len() ==> key_le(r@.last(), a@[i as int]),
            r@.len() > 0 && j < b.len() ==> key_le(r@.last(), b@[j as int]),
        decreases a.len() + b.len() - i - j,
    {
        let take_a: bool = if i < a.len() && j < b.len() {
            endpoint_le(&a[i], &b[j])
        } else {
            i < a.len()
        };
        let ghost old_r = r@;
        let ghost ai = a@.take(i as int);
        let ghost bj = b@.take(j as int);
        if take_a {
            let x: Endpoint = a[i];
            r.push(x);
            proof {
                assert forall|p: spec_fn(Endpoint) -> bool| #[trigger] count_where(r@, p)
                    == count_where(a@.take(i + 1) + bj, p) by {
                    lemma_count_push(old_r, x, p);
                    lemma_count_add(ai, bj, p);
                    lemma_count_add(a@.take(i + 1), bj, p);
                    lemma_count_take_next(a@, i as int, p);
                    assert(count_where(old_r, p) == count_where(ai + bj, p));
                }
            }
            i = i + 1;
        } else {
            let x: Endpoint = b[j];
            r.push(x);
            proof {
                assert forall|p: spec_fn(Endpoint) -> bool| #[trigger] count_where(r@, p)
                    == count_where(ai + b@.take(j + 1), p) by {
                    lemma_count_push(old_r, x, p);
                    lemma_count_add(ai, bj, p);
                    lemma_count_add(ai, b@.take(j + 1), p);
                    lemma_count_take_next(b@, j as int, p);
                    assert(count_where(old_r, p) == count_where(ai + bj, p));
                }
            }
            j = j + 1;
        }
    }
    assert(a@.take(a.len() as int) =~= a@);
    assert(b@.take(b.len() as int) =~= b@);
    r
}

/// Sorts `v[lo..hi]` into endpoint order.
fn merge_sort_range(v: &Vec<Endpoint>, lo: usize, hi: usize) -> (r: Vec<Endpoint>)
    requires
        lo <= hi <= v.len(),
    ensures
        sorted(r@),
        same_counts(r@, v@.subrange(lo as int, hi as int)),
    decreases hi - lo,
{
    if hi - lo <= 1 {
        let mut r: Vec<Endpoint> = Vec::new();
        if hi - lo == 1 {
            r.push(v[lo]);
        }
        assert(r@ =~= v@.subrange(lo as int, hi as int));
        r
    } else {
        let mid: usize = lo + (hi - lo) / 2;
        let a: Vec<Endpoint> = merge_sort_range(v, lo, mid);
        let b: Vec<Endpoint> = merge_sort_range(v, mid, hi);
        let r: Vec<Endpoint> = merge(&a, &b);
        proof {
            let left = v@.subrange(lo as int, mid as int);
            let right = v@.subrange(mid as int, hi as int);
            assert(left + right =~= v@.subrange(lo as int, hi as int));
            assert forall|p: spec_fn(Endpoint) -> bool| #[trigger] count_where(r@, p)
                == count_where(v@.subrange(lo as int, hi as int), p) by {
                lemma_count_add(a@, b@, p);
                lemma_count_add(left, right, p);
                assert(count_where(a@, p) == count_where(left, p));
                assert(count_where(b@, p) == count_where(right, p));
                assert(count_where(r@, p) == count_where(a@ + b@, p));
            }
        }
        r
    }
}

/// Returns the endpoints of `v` in endpoint order.
pub fn sort_endpoints(v: &Vec<Endpoint>) -> (r: Vec<Endpoint>)
    ensures
        sorted(r@),
        same_counts(r@, v@),
{
    let r: Vec<Endpoint> = merge_sort_range(v, 0, v.len());
    assert(v@.subrange(0, v@.len() as int) =~= v@);
    r
}

} // verus!
