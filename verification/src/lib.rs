//! Sublog histogram decomposition.
//!
//! A trace of reuse intervals (distances between successive references to the
//! same location) is folded into a fixed-size histogram through a log-linear
//! bucket index, a per-bucket probability is derived from the histogram, and
//! one synthetic workload descriptor (a [`cycle::Cycle`]) is emitted per
//! bucket.

use vstd::prelude::*;

use crate::counter::Counter;
use crate::cycle::Cycle;
use crate::distribution::Distribution;
use crate::histogram::Histogram;
use vstd::arithmetic::div_mod::{
    lemma_add_mod_noop, lemma_fundamental_div_mod, lemma_hoist_over_denominator,
    lemma_mul_mod_noop_general,
};

pub mod codec;
pub mod counter;
pub mod cycle;
pub mod distribution;
pub mod histogram;
pub mod sublog;

verus! {

/// The ways an operation of this crate can fail.
///
/// Every failure aborts the operation that raised it; no partial results are
/// produced and no recovery is attempted.
#[derive(Clone, Copy, Debug, PartialEq, Eq, Structural)]
pub enum HistogramError {
    /// A value or index falls outside the allocated counter array, or outside
    /// a configured bounded domain.
    Bounds,
    /// A malformed line was met while reading the serialized histogram form.
    Parse,
    /// An invalid precision was given at histogram construction.
    Config,
}

/// The data size of the cycle for bucket `i`: the bucket index scaled by its
/// probability `numerator / n`, rounded down and truncated to 32 bits.
pub open spec fn cycle_data_size(i: nat, numerator: nat, n: nat) -> nat
    recommends
        n >= 1,
{
    ((i * numerator) / n) % 0x100000000
}

/// `floor(index * numerator / num_of_bins)` truncated to 32 bits, computed
/// without ever overflowing a `u128`.
fn scaled_data_size(index: usize, numerator: u128, num_of_bins: usize) -> (r: u32)
    requires
        1 <= num_of_bins,
        index < num_of_bins,
        num_of_bins <= u64::MAX,
    ensures
        r as nat == cycle_data_size(index as nat, numerator as nat, num_of_bins as nat),
{
    let n: u128 = num_of_bins as u128;
    let i: u128 = index as u128;
    let q: u128 = numerator / n;
    let rem: u128 = numerator % n;
    proof {
        lemma_fundamental_div_mod(numerator as int, n as int);
        assert(i * rem <= u64::MAX as u128 * u64::MAX as u128) by (nonlinear_arith)
            requires
                i <= u64::MAX as u128 && rem <= u64::MAX as u128,
        ;
    }
    let t2: u128 = (i * rem) / n;
    let m: u128 = 0x100000000;
    proof {
        assert((i as int % m as int) * (q as int % m as int) < 0x10000000000000000)
            by (nonlinear_arith)
            requires
                0 <= (i as int % m as int) < 0x100000000,
                0 <= (q as int % m as int) < 0x100000000,
        ;
    }
    let t1: u128 = ((i % m) * (q % m)) % m;
    let truncated: u128 = (t1 + (t2 % m)) % m;
    proof {
        let ii = i as int;
        let nn = n as int;
        let v = numerator as int;
        let qq = q as int;
        let rr = rem as int;
        // i * v splits into a multiple of n and the small remainder part.
        assert(ii * v == ii * rr + (ii * qq) * nn) by (nonlinear_arith)
            requires
                v == nn * qq + rr,
        ;
        lemma_hoist_over_denominator(ii * rr, ii * qq, n as nat);
        assert((ii * v) / nn == ii * qq + t2 as int);
        // Truncation distributes over the sum and the product.
        lemma_add_mod_noop(ii * qq, t2 as int, m as int);
        lemma_mul_mod_noop_general(ii, qq, m as int);
        assert((ii * v) / nn % (m as int) == truncated as int);
    }
    truncated as u32
}

/// The terminal output of the pipeline: one cycle per distribution bucket, in
/// bucket order.
pub struct Decomposer {
    /// The derived cycles.
    pub cycles: Vec<Cycle>,
}

impl Decomposer {
    /// Consume a histogram: derive its distribution, then emit one cycle per
    /// bucket, whose `periodicity` is the bucket index and whose `data_size`
    /// is the index scaled by the bucket's probability.
    pub fn initialize<T: Counter>(histogram: Histogram<T>) -> (d: Decomposer)
        requires
            histogram.wf(),
        ensures
            d.cycles@.len() == histogram.counts().len(),
            forall|i: int|
                0 <= i < d.cycles@.len() ==> d.cycles@[i] == (Cycle {
                    data_size: cycle_data_size(
                        i as nat,
                        histogram.counts()[i],
                        histogram.counts().len() as nat,
                    ) as u32,
                    periodicity: i as usize,
                }),
    {
        let ghost initial_counts = histogram.counts();
        let distribution: Distribution = Distribution::build(histogram);
        let num_of_bins: usize = distribution.num_of_bins;
        let mut cycles: Vec<Cycle> = Vec::new();
        let mut reuse_interval: usize = 0;
        while reuse_interval < distribution.distribution.len()
            invariant
                distribution.wf(),
                distribution.num_of_bins == num_of_bins,
                distribution.numerators() == initial_counts,
                reuse_interval <= distribution.distribution@.len(),
                cycles@.len() == reuse_interval,
                forall|i: int|
                    0 <= i < cycles@.len() ==> cycles@[i] == (Cycle {
                        data_size: cycle_data_size(
                            i as nat,
                            initial_counts[i],
                            initial_counts.len() as nat,
                        ) as u32,
                        periodicity: i as usize,
                    }),
            decreases distribution.distribution@.len() - reuse_interval,
        {
            let numerator: u128 = distribution.distribution[reuse_interval];
            let data_size: u32 = scaled_data_size(reuse_interval, numerator, num_of_bins);
            let cycle: Cycle = Cycle::build(data_size, reuse_interval);
            cycles.push(cycle);
            reuse_interval = reuse_interval + 1;
        }
        Decomposer { cycles }
    }

    /// The cycles, in bucket order.
    pub fn cycles(&self) -> (c: &Vec<Cycle>)
        ensures
            c@ == self.cycles@,
    {
        &self.cycles
    }
}

} // verus!

