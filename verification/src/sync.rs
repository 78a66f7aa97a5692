//! Marzullo's algorithm, and the consensus over the outcomes of a round of probes.

use vstd::prelude::*;

use crate::count::{count_where, lemma_count_first_witness, lemma_count_last_witness, lemma_count_mono, lemma_count_push, lemma_count_witness_positive, same_counts};
use crate::interval::{Interval, IntervalView};
use crate::response::{ProbeResponse, ProbeResponseView};
use crate::sample::{reading_lower, reading_upper, Sample};
use crate::sort::{key_le, sort_endpoints, sorted, Endpoint};
use crate::sweep::{en_eq, en_le, en_lt, is_en, is_st, lemma_between_events, lemma_end_event, lemma_reached, lemma_run_next, lemma_start_event, run, st_eq, st_le};

verus! {

/// The interval `b` (lower and upper bound, inclusive) contains the instant `t`.
pub open spec fn covers(b: (int, int), t: int) -> bool {
    b.0 <= t && t <= b.1
}

/// The predicate "contains the instant `t`" on intervals.
pub open spec fn covering(t: int) -> spec_fn((int, int)) -> bool {
    |b: (int, int)| covers(b, t)
}

/// Number of intervals in `bounds` that contain the instant `t`.
pub open spec fn coverage(bounds: Seq<(int, int)>, t: int) -> nat {
    count_where(bounds, covering(t))
}

/// The bounds of each sample, in order.
pub open spec fn sample_bounds(samples: Seq<Sample>) -> Seq<(int, int)> {
    samples.map_values(|s: Sample| (s@.lower, s@.upper))
}

/// `iv` is the consensus of the intervals `bounds`, the first region where
/// the most intervals overlap:
/// - `overlapping` is the largest number of intervals that share an instant;
/// - `lower` is the least lower bound at which that many intervals meet;
/// - `upper` is the least upper bound at or above `lower`;
/// - every instant from `lower` to `upper` lies in `overlapping` intervals;
/// - `total` is the number of intervals.
pub open spec fn is_consensus(bounds: Seq<(int, int)>, iv: IntervalView) -> bool {
    &&& iv.total == bounds.len()
    &&& forall|t: int| #[trigger] coverage(bounds, t) <= iv.overlapping
    &&& exists|i: int| 0 <= i < bounds.len() && #[trigger] bounds[i].0 == iv.lower
    &&& forall|i: int| 0 <= i < bounds.len() && #[trigger] coverage(bounds, bounds[i].0) == iv.overlapping
        ==> iv.lower <= bounds[i].0
    &&& exists|i: int| 0 <= i < bounds.len() && #[trigger] bounds[i].1 == iv.upper
    &&& iv.lower <= iv.upper
    &&& forall|i: int| 0 <= i < bounds.len() && iv.lower <= #[trigger] bounds[i].1 ==> iv.upper <= bounds[i].1
    &&& forall|t: int| iv.lower <= t <= iv.upper ==> #[trigger] coverage(bounds, t) == iv.overlapping
}

spec fn bounds_ok(bounds: Seq<(int, int)>) -> bool {
    forall|i: int| 0 <= i < bounds.len() ==> 0 <= #[trigger] bounds[i].0 <= bounds[i].1 <= u128::MAX
}

spec fn start_of(b: (int, int)) -> Endpoint {
    Endpoint { value: b.0 as u128, is_start: true }
}

spec fn end_of(b: (int, int)) -> Endpoint {
    Endpoint { value: b.1 as u128, is_start: false }
}

/// A start and an end endpoint for each interval, in the order of the intervals.
spec fn endpoints_of(bounds: Seq<(int, int)>) -> Seq<Endpoint>
    decreases bounds.len(),
{
    if bounds.len() == 0 {
        Seq::empty()
    } else {
        endpoints_of(bounds.drop_last()).push(start_of(bounds.last())).push(end_of(bounds.last()))
    }
}

spec fn lo_le(v: int) -> spec_fn((int, int)) -> bool {
    |b: (int, int)| b.0 <= v
}

spec fn lo_eq(v: int) -> spec_fn((int, int)) -> bool {
    |b: (int, int)| b.0 == v
}

spec fn up_lt(v: int) -> spec_fn((int, int)) -> bool {
    |b: (int, int)| b.1 < v
}

spec fn up_le(v: int) -> spec_fn((int, int)) -> bool {
    |b: (int, int)| b.1 <= v
}

spec fn up_eq(v: int) -> spec_fn((int, int)) -> bool {
    |b: (int, int)| b.1 == v
}

spec fn always() -> spec_fn(Endpoint) -> bool {
    |e: Endpoint| true
}

proof fn lemma_count_all(s: Seq<Endpoint>)
    ensures
        count_where(s, always()) == s.len(),
    decreases s.len(),
{
    if s.len() > 0 {
        lemma_count_all(s.drop_last());
    }
}

proof fn lemma_endpoints_len(bounds: Seq<(int, int)>)
    ensures
        endpoints_of(bounds).len() == 2 * bounds.len(),
    decreases bounds.len(),
{
    if bounds.len() > 0 {
        lemma_endpoints_len(bounds.drop_last());
    }
}

/// How the counts over the endpoints of `bounds` follow from the bounds.
proof fn lemma_endpoint_counts(bounds: Seq<(int, int)>, v: int)
    requires
        bounds_ok(bounds),
    ensures
        count_where(endpoints_of(bounds), st_le(v)) == count_where(bounds, lo_le(v)),
        count_where(endpoints_of(bounds), st_eq(v)) == count_where(bounds, lo_eq(v)),
        count_where(endpoints_of(bounds), en_lt(v)) == count_where(bounds, up_lt(v)),
        count_where(endpoints_of(bounds), en_le(v)) == count_where(bounds, up_le(v)),
        count_where(endpoints_of(bounds), en_eq(v)) == count_where(bounds, up_eq(v)),
        count_where(endpoints_of(bounds), is_st()) == bounds.len(),
        count_where(endpoints_of(bounds), is_en()) == bounds.len(),
    decreases bounds.len(),
{
    if bounds.len() > 0 {
        let rest = bounds.drop_last();
        let b = bounds.last();
        assert forall|i: int| 0 <= i < rest.len() implies 0 <= #[trigger] rest[i].0 <= rest[i].1 <= u128::MAX by {
            assert(rest[i] == bounds[i]);
        }
        lemma_endpoint_counts(rest, v);
        let e1 = endpoints_of(rest).push(start_of(b));
        assert(bounds[bounds.len() - 1] == b);
        lemma_count_push(endpoints_of(rest), start_of(b), st_le(v));
        lemma_count_push(e1, end_of(b), st_le(v));
        lemma_count_push(endpoints_of(rest), start_of(b), st_eq(v));
        lemma_count_push(e1, end_of(b), st_eq(v));
        lemma_count_push(endpoints_of(rest), start_of(b), en_lt(v));
        lemma_count_push(e1, end_of(b), en_lt(v));
        lemma_count_push(endpoints_of(rest), start_of(b), en_le(v));
        lemma_count_push(e1, end_of(b), en_le(v));
        lemma_count_push(endpoints_of(rest), start_of(b), en_eq(v));
        lemma_count_push(e1, end_of(b), en_eq(v));
        lemma_count_push(endpoints_of(rest), start_of(b), is_st());
        lemma_count_push(e1, end_of(b), is_st());
        lemma_count_push(endpoints_of(rest), start_of(b), is_en());
        lemma_count_push(e1, end_of(b), is_en());
    }
}

/// The coverage of an instant is the number of lower bounds at or before it
/// minus the number of upper bounds before it.
proof fn lemma_coverage_split(bounds: Seq<(int, int)>, v: int)
    requires
        bounds_ok(bounds),
    ensures
        coverage(bounds, v) == count_where(bounds, lo_le(v)) - count_where(bounds, up_lt(v)),
    decreases bounds.len(),
{
    if bounds.len() > 0 {
        let rest = bounds.drop_last();
        assert forall|i: int| 0 <= i < rest.len() implies 0 <= #[trigger] rest[i].0 <= rest[i].1 <= u128::MAX by {
            assert(rest[i] == bounds[i]);
        }
        lemma_coverage_split(rest, v);
        assert(bounds[bounds.len() - 1] == bounds.last());
    }
}

/// Ends at or before an instant are never more than starts at or before it.
proof fn lemma_ends_before_starts(bounds: Seq<(int, int)>, v: int)
    requires
        bounds_ok(bounds),
    ensures
        count_where(bounds, up_le(v)) <= count_where(bounds, lo_le(v)),
{
    assert forall|i: int| 0 <= i < bounds.len() && #[trigger] up_le(v)(bounds[i]) implies lo_le(v)(bounds[i]) by {}
    lemma_count_mono(bounds, up_le(v), lo_le(v));
}

/// Builds the endpoints of the samples, two per sample, in sample order.
fn collect_endpoints(samples: &[Sample]) -> (r: Vec<Endpoint>)
    ensures
        bounds_ok(sample_bounds(samples@)),
        r@ == endpoints_of(sample_bounds(samples@)),
{
    let ghost bounds = sample_bounds(samples@);
    let mut r: Vec<Endpoint> = Vec::new();
    let mut i: usize = 0;
    while i < samples.len()
        invariant
            i <= samples.len(),
            bounds == sample_bounds(samples@),
            bounds.len() == samples@.len(),
            bounds_ok(bounds.take(i as int)),
            r@ == endpoints_of(bounds.take(i as int)),
        decreases samples.len() - i,
    {
        let lower: u128 = samples[i].lower_bound();
        let upper: u128 = samples[i].upper_bound();
        r.push(Endpoint { value: lower, is_start: true });
        r.push(Endpoint { value: upper, is_start: false });
        proof {
            let next = bounds.take(i + 1);
            assert(next.drop_last() =~= bounds.take(i as int));
            assert(next.last() == (lower as int, upper as int));
            assert forall|j: int| 0 <= j < next.len() implies 0 <= #[trigger] next[j].0 <= next[j].1 <= u128::MAX by {
                if j < i {
                    assert(next[j] == bounds.take(i as int)[j]);
                }
            }
        }
        i = i + 1;
    }
    assert(bounds.take(samples.len() as int) =~= bounds);
    r
}

/// Applies Marzullo's algorithm to a set of samples.
///
/// Returns `None` exactly when there are no samples. Otherwise the result is
/// the consensus of the samples' intervals (see [`is_consensus`]): the
/// tightest interval consistent with the largest number of sources, that is
/// the first region, in time, where the most sample intervals overlap. Every
/// instant of it lies in that many sample intervals. All bounds are in
/// nanoseconds.
pub fn marzullo(samples: &[Sample]) -> (r: Option<Interval>)
    requires
        samples@.len() <= u32::MAX,
    ensures
        r is None <==> samples@.len() == 0,
        r matches Some(iv) ==> is_consensus(sample_bounds(samples@), iv@),
        r matches Some(iv) ==> forall|t: int| iv@.lower <= t <= iv@.upper
            ==> #[trigger] coverage(sample_bounds(samples@), t) == iv@.overlapping,
{
    if samples.len() == 0 {
        return None;
    }
    let ghost bounds = sample_bounds(samples@);
    let endpoints: Vec<Endpoint> = collect_endpoints(samples);
    let sorted_endpoints: Vec<Endpoint> = sort_endpoints(&endpoints);
    let ghost s = sorted_endpoints@;
    let ghost n = samples@.len() as int;
    proof {
        lemma_endpoint_counts(bounds, 0);
        assert(count_where(s, is_st()) == count_where(endpoints@, is_st()));
        assert(count_where(s, is_en()) == count_where(endpoints@, is_en()));
        lemma_count_all(s);
        lemma_count_all(endpoints@);
        assert(count_where(s, always()) == count_where(endpoints@, always()));
        lemma_endpoints_len(bounds);
    }

    let mut best_count: u32 = 0;
    let mut best_start: u128 = 0;
    let mut best_end: u128 = 0;
    let mut current_count: u32 = 0;
    let mut end_pending: bool = false;
    let ghost mut reach: int = 0;

    let mut k: usize = 0;
    while k < sorted_endpoints.len()
        invariant
            s == sorted_endpoints@,
            sorted(s),
            same_counts(s, endpoints@),
            endpoints@ == endpoints_of(bounds),
            bounds_ok(bounds),
            bounds.len() == n,
            1 <= n <= u32::MAX,
            s.len() == 2 * n,
            count_where(s, is_st()) == n,
            count_where(s, is_en()) == n,
            k <= s.len(),
            current_count == run(s, k as int),
            forall|j: int| 0 <= j <= k ==> run(s, j) <= best_count,
            k > 0 ==> best_count > 0,
            best_count > 0 ==> {
                &&& 0 <= reach < k
                &&& s[reach].is_start
                &&& run(s, reach + 1) == best_count
                &&& best_start == s[reach].value
                &&& forall|j: int| 0 <= j <= reach ==> run(s, j) < best_count
            },
            best_count == 0 ==> !end_pending,
            best_count > 0 && end_pending ==> k == reach + 1,
            best_count > 0 && !end_pending ==> {
                &&& reach + 1 < k
                &&& !s[reach + 1].is_start
                &&& best_end == s[reach + 1].value
            },
        decreases s.len() - k,
    {
        let endpoint: Endpoint = sorted_endpoints[k];
        proof {
            lemma_run_next(s, k as int);
        }
        if endpoint.is_start {
            current_count = current_count + 1;
            if current_count > best_count {
                best_count = current_count;
                best_start = endpoint.value;
                end_pending = true;
                proof {
                    reach = k as int;
                }
            }
        } else {
            proof {
                let v = endpoint.value as int;
                lemma_endpoint_counts(bounds, v);
                lemma_ends_before_starts(bounds, v);
                assert(count_where(s, en_le(v)) == count_where(endpoints@, en_le(v)));
                assert(count_where(s, st_le(v)) == count_where(endpoints@, st_le(v)));
                lemma_end_event(s, k as int);
            }
            if end_pending {
                best_end = endpoint.value;
                end_pending = false;
            }
            current_count = current_count - 1;
        }
        k = k + 1;
    }

    proof {
        assert(s.take(s.len() as int) =~= s);
        lemma_sweep_result(bounds, endpoints@, s, best_count as int, reach);
    }
    Some(Interval::new(best_start, best_end, best_count, samples.len() as u32))
}

/// The counts over the sorted endpoints, in terms of the bounds.
proof fn lemma_sorted_counts(bounds: Seq<(int, int)>, e: Seq<Endpoint>, s: Seq<Endpoint>, v: int)
    requires
        same_counts(s, e),
        e == endpoints_of(bounds),
        bounds_ok(bounds),
    ensures
        coverage(bounds, v) == count_where(s, st_le(v)) - count_where(s, en_lt(v)),
        count_where(s, en_le(v)) <= count_where(s, st_le(v)),
        count_where(s, st_eq(v)) == count_where(bounds, lo_eq(v)),
        count_where(s, en_eq(v)) == count_where(bounds, up_eq(v)),
{
    lemma_endpoint_counts(bounds, v);
    lemma_coverage_split(bounds, v);
    lemma_ends_before_starts(bounds, v);
    assert(count_where(s, st_le(v)) == count_where(e, st_le(v)));
    assert(count_where(s, en_lt(v)) == count_where(e, en_lt(v)));
    assert(count_where(s, en_le(v)) == count_where(e, en_le(v)));
    assert(count_where(s, st_eq(v)) == count_where(e, st_eq(v)));
    assert(count_where(s, en_eq(v)) == count_where(e, en_eq(v)));
}

/// What the sweep has found, once it has seen every event, is the consensus.
proof fn lemma_sweep_result(bounds: Seq<(int, int)>, e: Seq<Endpoint>, s: Seq<Endpoint>, best: int, reach: int)
    requires
        sorted(s),
        same_counts(s, e),
        e == endpoints_of(bounds),
        bounds_ok(bounds),
        forall|j: int| 0 <= j <= s.len() ==> run(s, j) <= best,
        best > 0,
        0 <= reach,
        reach + 1 < s.len(),
        s[reach].is_start,
        !s[reach + 1].is_start,
        run(s, reach + 1) == best,
        forall|j: int| 0 <= j <= reach ==> run(s, j) < best,
    ensures
        s[reach].value <= s[reach + 1].value,
        is_consensus(
            bounds,
            IntervalView {
                lower: s[reach].value as int,
                upper: s[reach + 1].value as int,
                overlapping: best as nat,
                total: bounds.len(),
            },
        ),
{
    let n = s.len() as int;
    let lo = s[reach].value as int;
    let hi = s[reach + 1].value as int;
    let m = best as nat;
    assert(key_le(s[reach], s[reach + 1]));
    lemma_endpoint_counts(bounds, 0);
    lemma_endpoints_len(bounds);

    // no instant is covered by more than `best` intervals
    assert forall|t: int| #[trigger] coverage(bounds, t) <= m by {
        lemma_sorted_counts(bounds, e, s, t);
        if count_where(s, st_le(t)) > 0 {
            let j = lemma_reached(s, t);
        }
    }

    // every instant of the region is covered by `best` intervals
    assert forall|t: int| lo <= t <= hi implies #[trigger] coverage(bounds, t) == m by {
        lemma_sorted_counts(bounds, e, s, t);
        lemma_between_events(s, reach, t);
    }

    // the lower bound
    lemma_sorted_counts(bounds, e, s, lo);
    lemma_count_witness_positive(s, st_eq(lo), reach);
    let il = lemma_count_first_witness(bounds, lo_eq(lo));
    assert forall|i: int| 0 <= i < bounds.len() && #[trigger] coverage(bounds, bounds[i].0) == m
        implies lo <= bounds[i].0 by {
        let l = bounds[i].0;
        lemma_sorted_counts(bounds, e, s, l);
        lemma_count_witness_positive(bounds, lo_eq(l), i);
        let q = lemma_count_last_witness(s, st_eq(l));
        if q + 1 < n {
            assert(!st_eq(l)(s[q + 1]));
        }
        lemma_start_event(s, q);
        assert(run(s, q + 1) == m);
        if q > reach {
            assert(key_le(s[reach], s[q]));
        }
    }

    // the upper bound
    lemma_sorted_counts(bounds, e, s, hi);
    lemma_count_witness_positive(s, en_eq(hi), reach + 1);
    let iu = lemma_count_first_witness(bounds, up_eq(hi));
    assert forall|i: int| 0 <= i < bounds.len() && lo <= #[trigger] bounds[i].1 implies hi <= bounds[i].1 by {
        let u = bounds[i].1;
        lemma_sorted_counts(bounds, e, s, u);
        lemma_count_witness_positive(bounds, up_eq(u), i);
        let j = lemma_count_first_witness(s, en_eq(u));
        if j <= reach {
            assert(key_le(s[j], s[reach]));
        } else if j > reach + 1 {
            assert(key_le(s[reach + 1], s[j]));
        }
    }
    assert(lo_eq(lo)(bounds[il]));
    assert(up_eq(hi)(bounds[iu]));
}

/// The interval that a probe response stands for: the peer's clock reading
/// plus or minus the response's margin, kept within the range of `u128`.
pub open spec fn response_bounds(r: ProbeResponseView) -> (int, int) {
    (reading_lower(r.remote_nanos() as int, r.margin() as int), reading_upper(r.remote_nanos() as int, r.margin() as int))
}

/// The predicate "the probe was answered" on probe outcomes.
pub open spec fn is_answered() -> spec_fn(Option<ProbeResponse>) -> bool {
    |o: Option<ProbeResponse>| o is Some
}

/// The intervals of the probes that were answered, in order; unanswered
/// probes are skipped.
pub open spec fn answered_bounds(outcomes: Seq<Option<ProbeResponse>>) -> Seq<(int, int)>
    decreases outcomes.len(),
{
    if outcomes.len() == 0 {
        Seq::empty()
    } else {
        let rest = answered_bounds(outcomes.drop_last());
        match outcomes.last() {
            Some(r) => rest.push(response_bounds(r@)),
            None => rest,
        }
    }
}

/// Computes the consensus of a round of probes, given what each probe of
/// `addresses[i]` returned in `outcomes[i]` (`None` for a probe that failed).
///
/// Each answered probe becomes a sample of its response, with its address as
/// the source; failed probes are skipped. The result is that of
/// [`marzullo`] on these samples: `None` exactly when no probe was answered.
pub fn consensus_from_probes(addresses: &[&str], outcomes: &[Option<ProbeResponse>]) -> (r: Option<Interval>)
    requires
        addresses@.len() == outcomes@.len(),
        answered_bounds(outcomes@).len() <= u32::MAX,
    ensures
        r is None <==> answered_bounds(outcomes@).len() == 0,
        r matches Some(iv) ==> is_consensus(answered_bounds(outcomes@), iv@),
        r matches Some(iv) ==> forall|t: int| iv@.lower <= t <= iv@.upper
            ==> #[trigger] coverage(answered_bounds(outcomes@), t) == iv@.overlapping,
{
    let mut samples: Vec<Sample> = Vec::new();
    let mut i: usize = 0;
    while i < outcomes.len()
        invariant
            i <= outcomes@.len(),
            addresses@.len() == outcomes@.len(),
            sample_bounds(samples@) == answered_bounds(outcomes@.take(i as int)),
        decreases outcomes@.len() - i,
    {
        proof {
            assert(outcomes@.take(i + 1).drop_last() =~= outcomes@.take(i as int));
            assert(outcomes@.take(i + 1).last() == outcomes@[i as int]);
        }
        match &outcomes[i] {
            Some(response) => {
                let sample: Sample = Sample::from_response(*response, addresses[i]);
                let ghost old_samples = samples@;
                samples.push(sample);
                proof {
                    assert(sample_bounds(samples@) =~= sample_bounds(old_samples).push(response_bounds(response@)));
                }
            },
            None => {},
        }
        i = i + 1;
    }
    proof {
        assert(outcomes@.take(outcomes@.len() as int) =~= outcomes@);
    }
    marzullo(samples.as_slice())
}

} // verus!
