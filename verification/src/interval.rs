//! The consensus interval that Marzullo's algorithm produces.

use vstd::prelude::*;

use crate::ident::{nulid_from_nanos, nulid_from_parts_spec, nulid_nanos_spec, random_u64, RANDOM_MASK, TIMESTAMP_MASK};

verus! {

/// The mathematical content of an [`Interval`]: its bounds in nanoseconds,
/// the number of sources that agree on it and the number of sources sampled.
pub struct IntervalView {
    pub lower: int,
    pub upper: int,
    pub overlapping: nat,
    pub total: nat,
}

impl IntervalView {
    /// Width of the interval in nanoseconds.
    pub open spec fn width(self) -> int {
        self.upper - self.lower
    }

    /// Midpoint of the interval, rounded down, in nanoseconds.
    pub open spec fn midpoint(self) -> int {
        self.lower + self.width() / 2
    }
}

/// The consensus time interval produced by Marzullo's algorithm.
///
/// All time values are in nanoseconds. The lower bound never exceeds the
/// upper bound.
#[derive(Debug, Clone, Copy, PartialEq, Eq)]
pub struct Interval {
    lower: u128,
    upper: u128,
    confidence: u32,
    total_sources: u32,
}

impl View for Interval {
    type V = IntervalView;

    closed spec fn view(&self) -> IntervalView {
        IntervalView {
            lower: self.lower as int,
            upper: self.upper as int,
            overlapping: self.confidence as nat,
            total: self.total_sources as nat,
        }
    }
}

impl Interval {
    #[verifier::type_invariant]
    spec fn bounds_ordered(self) -> bool {
        self.lower <= self.upper
    }

    /// Creates an interval; an upper bound below the lower bound is raised to it.
    pub fn new(lower: u128, upper: u128, confidence: u32, total_sources: u32) -> (r: Self)
        ensures
            r@.lower == lower,
            r@.upper == if upper > lower { upper } else { lower },
            r@.overlapping == confidence,
            r@.total == total_sources,
    {
        let upper: u128 = if upper > lower { upper } else { lower };
        Interval { lower, upper, confidence, total_sources }
    }

    /// Lower bound of the consensus interval in nanoseconds.
    pub fn lower(&self) -> (r: u128)
        ensures
            r == self@.lower,
            self@.lower <= self@.upper,
    {
        proof { use_type_invariant(self); }
        self.lower
    }

    /// Upper bound of the consensus interval in nanoseconds.
    pub fn upper(&self) -> (r: u128)
        ensures
            r == self@.upper,
            self@.lower <= self@.upper,
    {
        proof { use_type_invariant(self); }
        self.upper
    }

    /// Width of the interval in nanoseconds.
    pub fn width(&self) -> (r: u128)
        ensures
            r == self@.width(),
            r + self@.lower == self@.upper,
            self@.lower <= self@.upper,
    {
        proof { use_type_invariant(self); }
        self.upper.saturating_sub(self.lower)
    }

    /// Midpoint (best estimate of true time) in nanoseconds.
    pub fn midpoint(&self) -> (r: u128)
        ensures
            r == self@.midpoint(),
            self@.lower <= r <= self@.upper,
            2 * r <= self@.lower + self@.upper <= 2 * r + 1,
    {
        proof { use_type_invariant(self); }
        let w: u128 = self.width();
        self.lower + w / 2
    }

    /// Number of sources whose intervals overlap at this consensus region.
    pub fn overlapping_sources(&self) -> (r: u32)
        ensures
            r == self@.overlapping,
    {
        self.confidence
    }

    /// Total number of sources that contributed samples.
    pub fn total_sources(&self) -> (r: u32)
        ensures
            r == self@.total,
    {
        self.total_sources
    }

    /// Generates a NULID value whose timestamp is the consensus midpoint,
    /// with fresh random bits in its lower 60 bits.
    ///
    /// The timestamp keeps the low 68 bits of the midpoint, which is all of
    /// it for any midpoint below 2^68 nanoseconds.
    pub fn nulid(&self) -> (id: u128)
        ensures
            nulid_nanos_spec(id) == (self@.midpoint() as u128) & TIMESTAMP_MASK,
            self@.midpoint() <= TIMESTAMP_MASK ==> nulid_nanos_spec(id) == self@.midpoint(),
            exists|random: u64| id == #[trigger] nulid_from_parts_spec(self@.midpoint() as u128, random),
    {
        let random: u64 = random_u64() & 0xFFF_FFFF_FFFF_FFFFu64;
        self.nulid_from_random(random)
    }

    /// The NULID value whose timestamp is the consensus midpoint and whose
    /// random part is the low 60 bits of `random`.
    pub fn nulid_from_random(&self, random: u64) -> (id: u128)
        ensures
            id == nulid_from_parts_spec(self@.midpoint() as u128, random),
            nulid_nanos_spec(id) == (self@.midpoint() as u128) & TIMESTAMP_MASK,
            self@.midpoint() <= TIMESTAMP_MASK ==> nulid_nanos_spec(id) == self@.midpoint(),
            id & RANDOM_MASK == (random as u128) & RANDOM_MASK,
            self@.upper <= TIMESTAMP_MASK ==> 2 * (id >> 60u128) <= self@.lower + self@.upper <= 2 * (id
                >> 60u128) + 1,
    {
        let nanos: u128 = self.midpoint();
        let id: u128 = nulid_from_nanos(nanos, random);
        proof {
            assert(((((nanos & 0xF_FFFF_FFFF_FFFF_FFFFu128) << 60u128) | ((random as u128) & 0xFFF_FFFF_FFFF_FFFFu128)) & 0xFFF_FFFF_FFFF_FFFFu128)
                == (random as u128) & 0xFFF_FFFF_FFFF_FFFFu128) by (bit_vector);
            assert(((((nanos & 0xF_FFFF_FFFF_FFFF_FFFFu128) << 60u128) | ((random as u128) & 0xFFF_FFFF_FFFF_FFFFu128)) >> 60u128)
                == nanos & 0xF_FFFF_FFFF_FFFF_FFFFu128) by (bit_vector);
            assert(nanos <= 0xF_FFFF_FFFF_FFFF_FFFFu128 ==> nanos & 0xF_FFFF_FFFF_FFFF_FFFFu128 == nanos) by (bit_vector);
        }
        id
    }
}

/// The midpoint of an interval is the average of its bounds, rounded down.
pub proof fn lemma_interval_midpoint_floor_average(v: IntervalView)
    requires
        v.lower <= v.upper,
    ensures
        v.lower <= v.midpoint() <= v.upper,
        2 * v.midpoint() <= v.lower + v.upper <= 2 * v.midpoint() + 1,
{
}

} // verus!
