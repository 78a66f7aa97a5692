//! The 128-bit NULID values handled by the library, and the calls into the
//! `nulid` and `rand` crates that build and read them.

use vstd::prelude::*;

verus! {

/// Mask of the 68 timestamp bits of a NULID, before they are shifted into place.
pub const TIMESTAMP_MASK: u128 = 0xF_FFFF_FFFF_FFFF_FFFF;

/// Mask of the 60 random bits of a NULID.
pub const RANDOM_MASK: u128 = 0xFFF_FFFF_FFFF_FFFF;

/// The timestamp, in nanoseconds, that a NULID value carries: its upper 68 bits.
pub open spec fn nulid_nanos_spec(id: u128) -> u128 {
    id >> 60u128
}

/// The NULID value built from a timestamp and random bits: the timestamp
/// masked to 68 bits in the upper bits, the random value masked to 60 bits
/// in the lower bits.
pub open spec fn nulid_from_parts_spec(nanos: u128, random: u64) -> u128 {
    ((nanos & TIMESTAMP_MASK) << 60u128) | ((random as u128) & RANDOM_MASK)
}

/// Reads the timestamp of a NULID value with `nulid::Nulid::nanos`.
///
/// Trusted: `Nulid::nanos` shifts the inner `u128` right by the 60 random
/// bits, which is what the contract states.
#[verifier::external_body]
pub fn nulid_nanos(id: u128) -> (nanos: u128)
    ensures
        nanos == nulid_nanos_spec(id),
{
    nulid::Nulid::from_u128(id).nanos()
}

/// Builds a NULID value with `nulid::Nulid::from_nanos`.
///
/// Trusted: `Nulid::from_nanos` masks the timestamp to 68 bits and the random
/// value to 60 bits, shifts the timestamp above the random bits and joins
/// them with a bitwise or, which is what the contract states.
#[verifier::external_body]
pub fn nulid_from_nanos(nanos: u128, random: u64) -> (id: u128)
    ensures
        id == nulid_from_parts_spec(nanos, random),
{
    nulid::Nulid::from_nanos(nanos, random).as_u128()
}

/// Draws a random `u64` from the thread-local generator of `rand`
/// (`rand::rng().random::<u64>()`).
///
/// Trusted, with nothing stated of the result: it depends on chance alone.
/// The generator panics when it first cannot seed itself from the operating
/// system; that depends on the machine, not on any argument, so no
/// precondition can rule it out.
#[verifier::external_body]
pub fn random_u64() -> u64 {
    rand::Rng::random::<u64>(&mut rand::rng())
}

} // verus!
