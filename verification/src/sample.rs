//! Clock sample from a time source.

use vstd::prelude::*;

use crate::response::ProbeResponse;

verus! {

/// The mathematical content of a [`Sample`].
pub struct SampleView {
    pub lower: int,
    pub upper: int,
    pub remote_id: u128,
    pub source: Seq<char>,
}

impl SampleView {
    /// Width of the interval in nanoseconds.
    pub open spec fn width(self) -> int {
        self.upper - self.lower
    }

    /// Midpoint of the interval, rounded down, in nanoseconds.
    pub open spec fn midpoint(self) -> int {
        self.lower + self.width() / 2
    }
}

/// The lower bound of a sample built from a clock reading and a margin:
/// the reading minus the margin, or zero where that would be negative.
pub open spec fn reading_lower(nanos: int, margin: int) -> int {
    if nanos - margin < 0 { 0 } else { nanos - margin }
}

/// The upper bound of a sample built from a clock reading and a margin:
/// the reading plus the margin, or `u128::MAX` where that would exceed it.
pub open spec fn reading_upper(nanos: int, margin: int) -> int {
    if nanos + margin > u128::MAX { u128::MAX as int } else { nanos + margin }
}

/// A clock sample: an interval of possible true time in nanoseconds, the
/// NULID value the peer sent and the identifier of the source.
///
/// The lower bound never exceeds the upper bound.
#[derive(Debug, PartialEq, Eq)]
pub struct Sample {
    lower_bound: u128,
    upper_bound: u128,
    remote_id: u128,
    source: String,
}

impl View for Sample {
    type V = SampleView;

    closed spec fn view(&self) -> SampleView {
        SampleView {
            lower: self.lower_bound as int,
            upper: self.upper_bound as int,
            remote_id: self.remote_id,
            source: self.source@,
        }
    }
}

impl Clone for Sample {
    fn clone(&self) -> (r: Self)
        ensures
            r@ == self@,
    {
        proof { use_type_invariant(self); }
        Sample {
            lower_bound: self.lower_bound,
            upper_bound: self.upper_bound,
            remote_id: self.remote_id,
            source: self.source.clone(),
        }
    }
}

impl Sample {
    #[verifier::type_invariant]
    spec fn bounds_ordered(self) -> bool {
        self.lower_bound <= self.upper_bound
    }

    /// Creates a sample from a probe response and a source identifier: the
    /// peer's clock reading plus or minus the response's margin, kept within
    /// the range of `u128`.
    pub fn from_response(response: ProbeResponse, source: &str) -> (r: Self)
        ensures
            r@.lower == reading_lower(response@.remote_nanos() as int, response@.margin() as int),
            r@.upper == reading_upper(response@.remote_nanos() as int, response@.margin() as int),
            r@.lower <= response@.remote_nanos() <= r@.upper,
            ({
                let reading = (response@.remote_id >> 60u128) as int;
                let m = response@.rtt / 2 + response@.uncertainty;
                &&& m <= u128::MAX && m <= reading ==> r@.lower == reading - m
                &&& m <= u128::MAX && reading + m <= u128::MAX ==> r@.upper == reading + m
                &&& reading < m ==> r@.lower == 0
                &&& reading + m > u128::MAX ==> r@.upper == u128::MAX
            }),
            r@.remote_id == response@.remote_id,
            r@.source == source@,
    {
        let peer_nanos: u128 = response.remote_nanos();
        let margin: u128 = response.margin_nanos();
        Sample {
            lower_bound: peer_nanos.saturating_sub(margin),
            upper_bound: peer_nanos.saturating_add(margin),
            remote_id: response.remote_id(),
            source: source.to_owned(),
        }
    }

    /// Creates a sample with explicit nanosecond bounds; an upper bound below
    /// the lower bound is raised to it.
    pub fn new(lower_bound: u128, upper_bound: u128, remote_id: u128, source: &str) -> (r: Self)
        ensures
            r@.lower == lower_bound,
            r@.upper == if upper_bound > lower_bound { upper_bound } else { lower_bound },
            r@.remote_id == remote_id,
            r@.source == source@,
    {
        let upper: u128 = if upper_bound > lower_bound { upper_bound } else { lower_bound };
        Sample { lower_bound, upper_bound: upper, remote_id, source: source.to_owned() }
    }

    /// Lower bound of the time interval in nanoseconds.
    pub fn lower_bound(&self) -> (r: u128)
        ensures
            r == self@.lower,
            self@.lower <= self@.upper,
    {
        proof { use_type_invariant(self); }
        self.lower_bound
    }

    /// Upper bound of the time interval in nanoseconds.
    pub fn upper_bound(&self) -> (r: u128)
        ensures
            r == self@.upper,
            self@.lower <= self@.upper,
    {
        proof { use_type_invariant(self); }
        self.upper_bound
    }

    /// The NULID value received from the remote peer.
    pub fn remote_id(&self) -> (r: u128)
        ensures
            r == self@.remote_id,
    {
        self.remote_id
    }

    /// Identifier of the source that produced this sample.
    pub fn source(&self) -> (r: &str)
        ensures
            r@ == self@.source,
    {
        self.source.as_str()
    }

    /// Width of the interval in nanoseconds.
    pub fn width(&self) -> (r: u128)
        ensures
            r == self@.width(),
            r + self@.lower == self@.upper,
            self@.lower <= self@.upper,
    {
        proof { use_type_invariant(self); }
        self.upper_bound.saturating_sub(self.lower_bound)
    }

    /// Midpoint of the interval in nanoseconds.
    pub fn midpoint(&self) -> (r: u128)
        ensures
            r == self@.midpoint(),
            self@.lower <= r <= self@.upper,
            2 * r <= self@.lower + self@.upper <= 2 * r + 1,
    {
        proof { use_type_invariant(self); }
        let w: u128 = self.width();
        self.lower_bound + w / 2
    }
}

/// The bounds of a sample built from a clock reading and a margin lie the
/// margin away on each side of the reading, clipped to `0` below and to
/// `u128::MAX` above.
pub proof fn lemma_reading_bounds_symmetric(nanos: int, margin: int)
    requires
        0 <= nanos <= u128::MAX,
        0 <= margin <= u128::MAX,
    ensures
        0 <= reading_lower(nanos, margin) <= nanos <= reading_upper(nanos, margin) <= u128::MAX,
        margin <= nanos ==> nanos - reading_lower(nanos, margin) == margin,
        margin > nanos ==> reading_lower(nanos, margin) == 0,
        nanos + margin <= u128::MAX ==> reading_upper(nanos, margin) - nanos == margin,
        nanos + margin > u128::MAX ==> reading_upper(nanos, margin) == u128::MAX,
        margin <= nanos && nanos + margin <= u128::MAX ==> reading_upper(nanos, margin) - nanos == nanos
            - reading_lower(nanos, margin),
{
}

/// The midpoint of a sample is the average of its bounds, rounded down.
pub proof fn lemma_sample_midpoint_floor_average(v: SampleView)
    requires
        v.lower <= v.upper,
    ensures
        v.lower <= v.midpoint() <= v.upper,
        2 * v.midpoint() <= v.lower + v.upper <= 2 * v.midpoint() + 1,
{
}

} // verus!
