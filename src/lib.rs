//! Parallel ranged download support: splitting a resource into byte ranges,
//! encoding their `Range` headers, reading the content length, and a
//! throughput aggregator with a bounded rolling window of per-second counts.
use vstd::prelude::*;

pub mod header;
pub mod range;
pub mod report;
pub mod throughput;

verus! {

} // verus!
