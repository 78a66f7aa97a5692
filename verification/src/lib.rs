//! Fault-tolerant clock synchronization using Marzullo's algorithm over
//! nanosecond-precision NULID timestamps.
//!
//! A NULID is carried through the library as its 128-bit value: the upper
//! 68 bits hold a timestamp in nanoseconds and the lower 60 bits are random.
//! The `nulid` crate packs and unpacks these values (see [`ident`]).

pub mod count;
pub mod ident;
pub mod interval;
pub mod laws;
pub mod response;
pub mod sample;
mod sort;
mod sweep;
pub mod sync;

pub use interval::Interval;
pub use response::ProbeResponse;
pub use sample::Sample;
pub use sync::{consensus_from_probes, marzullo};
