//! What holds of every consensus: it is determined by the samples' intervals
//! alone, whatever their order; it counts between one and all sources; and
//! where every sample shares an instant it is the intersection of all. A
//! round of probes has the consensus of its answered probes' samples, and
//! failed probes change nothing.

use vstd::prelude::*;

use crate::count::{count_where, lemma_count_first_witness, lemma_count_full, lemma_count_le_len, lemma_count_witness_positive, same_counts};
use crate::interval::IntervalView;
use crate::response::ProbeResponse;
use crate::sample::Sample;
use crate::sync::{answered_bounds, coverage, covering, covers, is_answered, is_consensus, sample_bounds};

verus! {

/// Each interval's lower bound does not exceed its upper bound.
pub open spec fn well_formed_bounds(bounds: Seq<(int, int)>) -> bool {
    forall|i: int| 0 <= i < bounds.len() ==> #[trigger] bounds[i].0 <= bounds[i].1
}

/// The consensus of a sequence of intervals is unique: the contract of
/// `marzullo` determines its result.
pub proof fn lemma_consensus_unique(bounds: Seq<(int, int)>, a: IntervalView, b: IntervalView)
    requires
        is_consensus(bounds, a),
        is_consensus(bounds, b),
    ensures
        a == b,
{
    assert(coverage(bounds, a.lower) == a.overlapping);
    assert(coverage(bounds, b.lower) == b.overlapping);
    assert(coverage(bounds, a.lower) <= b.overlapping);
    assert(coverage(bounds, b.lower) <= a.overlapping);
    let ia = choose|i: int| 0 <= i < bounds.len() && #[trigger] bounds[i].0 == a.lower;
    let ib = choose|i: int| 0 <= i < bounds.len() && #[trigger] bounds[i].0 == b.lower;
    assert(coverage(bounds, bounds[ia].0) == b.overlapping);
    assert(coverage(bounds, bounds[ib].0) == a.overlapping);
    let ja = choose|i: int| 0 <= i < bounds.len() && #[trigger] bounds[i].1 == a.upper;
    let jb = choose|i: int| 0 <= i < bounds.len() && #[trigger] bounds[i].1 == b.upper;
    assert(a.lower <= bounds[jb].1);
    assert(b.lower <= bounds[ja].1);
}

/// The consensus does not depend on the order of the intervals: reordering
/// them keeps every consensus a consensus.
pub proof fn lemma_consensus_reorder(b1: Seq<(int, int)>, b2: Seq<(int, int)>, iv: IntervalView)
    requires
        same_counts(b1, b2),
        b1.len() == b2.len(),
        is_consensus(b1, iv),
    ensures
        is_consensus(b2, iv),
{
    assert forall|t: int| #[trigger] coverage(b2, t) == coverage(b1, t) by {
        assert(count_where(b1, covering(t)) == count_where(b2, covering(t)));
    }
    let lo = iv.lower;
    let hi = iv.upper;
    let il = choose|i: int| 0 <= i < b1.len() && #[trigger] b1[i].0 == lo;
    let iu = choose|i: int| 0 <= i < b1.len() && #[trigger] b1[i].1 == hi;
    let is_lo = |b: (int, int)| b.0 == lo;
    let is_hi = |b: (int, int)| b.1 == hi;
    lemma_count_witness_positive(b1, is_lo, il);
    lemma_count_witness_positive(b1, is_hi, iu);
    assert(count_where(b1, is_lo) == count_where(b2, is_lo));
    assert(count_where(b1, is_hi) == count_where(b2, is_hi));
    let jl = lemma_count_first_witness(b2, is_lo);
    let ju = lemma_count_first_witness(b2, is_hi);
    assert(b2[jl].0 == lo);
    assert(b2[ju].1 == hi);
    assert forall|i: int| 0 <= i < b2.len() && #[trigger] coverage(b2, b2[i].0) == iv.overlapping
        implies lo <= b2[i].0 by {
        let l = b2[i].0;
        let is_l = |b: (int, int)| b.0 == l;
        lemma_count_witness_positive(b2, is_l, i);
        assert(count_where(b1, is_l) == count_where(b2, is_l));
        let k = lemma_count_first_witness(b1, is_l);
        assert(coverage(b1, b1[k].0) == iv.overlapping);
    }
    assert forall|i: int| 0 <= i < b2.len() && lo <= #[trigger] b2[i].1 implies hi <= b2[i].1 by {
        let u = b2[i].1;
        let is_u = |b: (int, int)| b.1 == u;
        lemma_count_witness_positive(b2, is_u, i);
        assert(count_where(b1, is_u) == count_where(b2, is_u));
        let k = lemma_count_first_witness(b1, is_u);
        assert(lo <= b1[k].1);
    }
    assert forall|t: int| lo <= t <= hi implies #[trigger] coverage(b2, t) == iv.overlapping by {
        assert(coverage(b1, t) == iv.overlapping);
    }
}

/// Listing the same intervals in any order gives the same consensus.
pub proof fn lemma_consensus_order_independent(
    b1: Seq<(int, int)>,
    b2: Seq<(int, int)>,
    iv1: IntervalView,
    iv2: IntervalView,
)
    requires
        same_counts(b1, b2),
        b1.len() == b2.len(),
        is_consensus(b1, iv1),
        is_consensus(b2, iv2),
    ensures
        iv1 == iv2,
{
    lemma_consensus_reorder(b1, b2, iv1);
    lemma_consensus_unique(b2, iv1, iv2);
}

/// A consensus of well-formed intervals counts at least one and at most all
/// of the sources, and its lower bound does not exceed its upper bound.
pub proof fn lemma_consensus_sources(bounds: Seq<(int, int)>, iv: IntervalView)
    requires
        well_formed_bounds(bounds),
        is_consensus(bounds, iv),
    ensures
        1 <= iv.overlapping <= iv.total,
        iv.lower <= iv.upper,
{
    let lo = iv.lower;
    let i = choose|i: int| 0 <= i < bounds.len() && #[trigger] bounds[i].0 == lo;
    assert(covers(bounds[i], lo));
    lemma_count_witness_positive(bounds, covering(lo), i);
    lemma_count_le_len(bounds, covering(lo));
    assert(coverage(bounds, lo) == iv.overlapping);
}

/// Where some instant lies in every interval, the consensus counts every
/// source and is the intersection of all the intervals: its lower bound is
/// the greatest lower bound and its upper bound the least upper bound.
pub proof fn lemma_consensus_common_instant(bounds: Seq<(int, int)>, iv: IntervalView, t: int)
    requires
        is_consensus(bounds, iv),
        forall|i: int| 0 <= i < bounds.len() ==> covers(#[trigger] bounds[i], t),
    ensures
        iv.overlapping == bounds.len(),
        forall|i: int| 0 <= i < bounds.len() ==> bounds[i].0 <= iv.lower && iv.upper <= #[trigger] bounds[i].1,
{
    lemma_count_all_true(bounds, t);
    assert(coverage(bounds, t) <= iv.overlapping);
    assert(coverage(bounds, iv.lower) == iv.overlapping);
    assert(coverage(bounds, iv.upper) == iv.overlapping);
    lemma_count_le_len(bounds, covering(iv.lower));
    lemma_count_full(bounds, covering(iv.lower));
    lemma_count_full(bounds, covering(iv.upper));
    assert forall|i: int| 0 <= i < bounds.len() implies bounds[i].0 <= iv.lower && iv.upper <= #[trigger] bounds[i].1 by {
        assert(covering(iv.lower)(bounds[i]));
        assert(covering(iv.upper)(bounds[i]));
    }
}

proof fn lemma_count_all_true(bounds: Seq<(int, int)>, t: int)
    requires
        forall|i: int| 0 <= i < bounds.len() ==> covers(#[trigger] bounds[i], t),
    ensures
        coverage(bounds, t) == bounds.len(),
    decreases bounds.len(),
{
    if bounds.len() > 0 {
        let rest = bounds.drop_last();
        assert forall|i: int| 0 <= i < rest.len() implies covers(#[trigger] rest[i], t) by {
            assert(rest[i] == bounds[i]);
        }
        lemma_count_all_true(rest, t);
        assert(covers(bounds[bounds.len() - 1], t));
    }
}

/// Removing the failed probes leaves the answered intervals as they are, and
/// there is one interval per answered probe.
pub proof fn lemma_answered_bounds_skip_failures(outcomes: Seq<Option<ProbeResponse>>)
    ensures
        answered_bounds(outcomes.filter(is_answered())) == answered_bounds(outcomes),
        answered_bounds(outcomes).len() == count_where(outcomes, is_answered()),
    decreases outcomes.len(),
{
    reveal(Seq::filter);
    if outcomes.len() > 0 {
        let rest = outcomes.drop_last();
        lemma_answered_bounds_skip_failures(rest);
        let kept = rest.filter(is_answered());
        if outcomes.last() is Some {
            assert(outcomes.filter(is_answered()) == kept.push(outcomes.last()));
            assert(kept.push(outcomes.last()).drop_last() =~= kept);
        } else {
            assert(outcomes.filter(is_answered()) == kept);
        }
    }
}

/// Failed probes have no effect on the consensus of a round: dropping them
/// gives the same interval, whose total counts the answered probes.
pub proof fn lemma_consensus_skips_failures(
    outcomes: Seq<Option<ProbeResponse>>,
    iv: IntervalView,
    kept_iv: IntervalView,
)
    requires
        is_consensus(answered_bounds(outcomes), iv),
        is_consensus(answered_bounds(outcomes.filter(is_answered())), kept_iv),
    ensures
        iv == kept_iv,
        iv.total == count_where(outcomes, is_answered()),
{
    lemma_answered_bounds_skip_failures(outcomes);
    lemma_consensus_unique(answered_bounds(outcomes), iv, kept_iv);
}

/// The consensus of a round of probes is the consensus that `marzullo`
/// gives for the samples of the answered probes, in order.
pub proof fn lemma_probes_consensus_is_marzullo(
    outcomes: Seq<Option<ProbeResponse>>,
    samples: Seq<Sample>,
    round: IntervalView,
    direct: IntervalView,
)
    requires
        sample_bounds(samples) == answered_bounds(outcomes),
        is_consensus(answered_bounds(outcomes), round),
        is_consensus(sample_bounds(samples), direct),
    ensures
        round == direct,
{
    lemma_consensus_unique(answered_bounds(outcomes), round, direct);
}

} // verus!
