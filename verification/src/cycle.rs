//! The synthetic workload descriptor derived from one distribution bucket.

use vstd::prelude::*;

verus! {

/// An immutable pair derived from one bucket: `periodicity` is the bucket
/// index, read as a representative reuse interval, and `data_size` is
/// `floor(periodicity * probability)` truncated to 32 bits.
#[derive(Clone, Copy, Debug, PartialEq, Eq, Structural)]
pub struct Cycle {
    pub data_size: u32,
    pub periodicity: usize,
}

impl Cycle {
    /// Pair the two components of a cycle.
    pub fn build(data_size: u32, periodicity: usize) -> (c: Cycle)
        ensures
            c.data_size == data_size,
            c.periodicity == periodicity,
    {
        Cycle { data_size, periodicity }
    }
}

} // verus!
