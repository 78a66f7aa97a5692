//! Probe response from a remote clock source.

use vstd::prelude::*;

use crate::ident::{nulid_nanos, nulid_nanos_spec};

verus! {

/// The mathematical content of a [`ProbeResponse`].
pub struct ProbeResponseView {
    pub remote_id: u128,
    pub rtt: nat,
    pub uncertainty: nat,
}

impl ProbeResponseView {
    /// The peer's clock reading in nanoseconds: the timestamp of its NULID.
    pub open spec fn remote_nanos(self) -> nat {
        nulid_nanos_spec(self.remote_id) as nat
    }

    /// Total one-sided error margin: half the round trip (rounded down), plus
    /// the uncertainty, saturating at `u128::MAX`.
    pub open spec fn margin(self) -> nat {
        if self.rtt / 2 + self.uncertainty > u128::MAX {
            u128::MAX as nat
        } else {
            self.rtt / 2 + self.uncertainty
        }
    }
}

/// Response from probing a remote time source.
///
/// Holds the remote peer's NULID value (whose timestamp is the peer's clock
/// reading in nanoseconds) with the round-trip time and an additional
/// uncertainty, both in nanoseconds.
#[derive(Debug, Clone, Copy, PartialEq, Eq)]
pub struct ProbeResponse {
    remote_id: u128,
    rtt_nanos: u128,
    uncertainty_nanos: u128,
}

impl View for ProbeResponse {
    type V = ProbeResponseView;

    closed spec fn view(&self) -> ProbeResponseView {
        ProbeResponseView {
            remote_id: self.remote_id,
            rtt: self.rtt_nanos as nat,
            uncertainty: self.uncertainty_nanos as nat,
        }
    }
}

impl ProbeResponse {
    /// Creates a probe response from the peer's NULID value, the round-trip
    /// time and the uncertainty the peer reported (`0` if none).
    pub fn new(remote_id: u128, rtt_nanos: u128, uncertainty_nanos: u128) -> (r: Self)
        ensures
            r@.remote_id == remote_id,
            r@.rtt == rtt_nanos,
            r@.uncertainty == uncertainty_nanos,
    {
        ProbeResponse { remote_id, rtt_nanos, uncertainty_nanos }
    }

    /// The NULID value received from the remote peer.
    pub fn remote_id(&self) -> (r: u128)
        ensures
            r == self@.remote_id,
    {
        self.remote_id
    }

    /// Nanosecond timestamp extracted from the remote NULID.
    pub fn remote_nanos(&self) -> (r: u128)
        ensures
            r == self@.remote_nanos(),
            r == self@.remote_id >> 60u128,
    {
        nulid_nanos(self.remote_id)
    }

    /// Round-trip time in nanoseconds.
    pub fn rtt_nanos(&self) -> (r: u128)
        ensures
            r == self@.rtt,
    {
        self.rtt_nanos
    }

    /// Additional uncertainty in nanoseconds.
    pub fn uncertainty_nanos(&self) -> (r: u128)
        ensures
            r == self@.uncertainty,
    {
        self.uncertainty_nanos
    }

    /// Total one-sided error margin: `rtt / 2 + uncertainty`, saturating at
    /// `u128::MAX`.
    pub fn margin_nanos(&self) -> (r: u128)
        ensures
            r == self@.margin(),
            r as int == if self@.rtt / 2 + self@.uncertainty > u128::MAX {
                u128::MAX as int
            } else {
                (self@.rtt / 2 + self@.uncertainty) as int
            },
            self@.rtt / 2 + self@.uncertainty <= u128::MAX ==> 2 * (r - self@.uncertainty) <= self@.rtt
                <= 2 * (r - self@.uncertainty) + 1,
    {
        (self.rtt_nanos / 2).saturating_add(self.uncertainty_nanos)
    }
}

/// The margin is half the round trip, rounded down, plus the uncertainty,
/// and `u128::MAX` where that sum does not fit: when it fits, twice the part
/// beyond the uncertainty is the round trip or one less.
pub proof fn lemma_margin_half_round_trip(r: ProbeResponseView)
    ensures
        r.margin() <= u128::MAX,
        r.rtt / 2 + r.uncertainty > u128::MAX ==> r.margin() == u128::MAX,
        r.rtt / 2 + r.uncertainty <= u128::MAX ==> {
            &&& r.margin() >= r.uncertainty
            &&& 2 * (r.margin() - r.uncertainty) <= r.rtt <= 2 * (r.margin() - r.uncertainty) + 1
        },
{
}

} // verus!
