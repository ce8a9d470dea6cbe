//! The per-bucket probability vector derived from a histogram.
//!
//! Bucket `i` holds the probability `count[i] / N`, where `N` is the bucket
//! count — deliberately the bucket count and not the total observation count,
//! so the probabilities need not sum to one. Each probability is kept as an
//! exact rational: a numerator per bucket over the common denominator `N`.

use vstd::prelude::*;

use crate::HistogramError;
use crate::counter::Counter;
use crate::histogram::Histogram;
use crate::sublog::lemma_histogram_size_pos;

verus! {

/// One bucket probability, exactly: `numerator / denominator`.
#[derive(Clone, Copy, Debug, PartialEq, Eq, Structural)]
pub struct Probability {
    pub numerator: u128,
    pub denominator: usize,
}

/// The probability vector of a histogram.
pub struct Distribution {
    /// Per-bucket probability numerators, in bucket order.
    pub distribution: Vec<u128>,
    /// The common denominator: the number of buckets of the source histogram.
    pub num_of_bins: usize,
}

impl Distribution {
    /// The probability numerators, as mathematical numbers.
    pub open spec fn numerators(&self) -> Seq<nat> {
        self.distribution@.map(|_i: int, c: u128| c as nat)
    }

    /// Well-formed: one numerator per bucket, and at least one bucket, so the
    /// common denominator is never zero.
    pub open spec fn wf(&self) -> bool {
        &&& self.distribution@.len() == self.num_of_bins
        &&& self.num_of_bins >= 1
    }

    /// Derive the probability vector of a histogram: for each bucket `i`, the
    /// probability is `count[i]` over the bucket count.
    pub fn build<T: Counter>(histogram: Histogram<T>) -> (d: Distribution)
        requires
            histogram.wf(),
        ensures
            d.wf(),
            d.num_of_bins == histogram.counts().len(),
            d.numerators() == histogram.counts(),
    {
        proof {
            lemma_histogram_size_pos(histogram.sublog_bits);
        }
        let num_of_bins: usize = histogram.length();
        let values = histogram.get_histgram_vec();
        let mut distribution: Vec<u128> = Vec::new();
        let mut i: usize = 0;
        while i < values.len()
            invariant
                i <= values@.len(),
                distribution@.len() == i,
                values@.len() == histogram.counts().len(),
                forall|k: int| 0 <= k < values@.len() ==> values@[k].count()
                    == histogram.counts()[k],
                forall|k: int| 0 <= k < i ==> distribution@[k] as nat == histogram.counts()[k],
            decreases values@.len() - i,
        {
            distribution.push(values[i].widen());
            i = i + 1;
        }
        let d = Distribution { distribution, num_of_bins };
        proof {
            assert(d.numerators() =~= histogram.counts());
        }
        d
    }

    /// The probability of bucket `index`; an index outside the vector is
    /// rejected.
    pub fn get_probability(&self, index: usize) -> (r: Result<Probability, HistogramError>)
        ensures
            r is Ok <==> index < self.numerators().len(),
            r matches Ok(p) ==> p.numerator as nat == self.numerators()[index as int]
                && p.denominator == self.num_of_bins,
            r matches Err(e) ==> e == HistogramError::Bounds,
    {
        if index >= self.distribution.len() {
            return Err(HistogramError::Bounds);
        }
        Ok(Probability { numerator: self.distribution[index], denominator: self.num_of_bins })
    }

    /// The whole vector of probability numerators, in bucket order.
    pub fn get_distribution(&self) -> (v: &Vec<u128>)
        ensures
            v@.map(|_i: int, c: u128| c as nat) == self.numerators(),
    {
        &self.distribution
    }

    /// Raise the probability of bucket `index` by `1 / num_of_bins`: its
    /// numerator grows by one. An index outside the vector, or a numerator
    /// already at its maximum, is rejected and nothing changes.
    pub fn add_by_index(&mut self, index: usize) -> (r: Result<(), HistogramError>)
        ensures
            final(self).num_of_bins == old(self).num_of_bins,
            final(self).wf() == old(self).wf(),
            r is Ok <==> (index < old(self).numerators().len() && old(self).numerators()[index as int] < u128::MAX as nat),
            r is Ok ==> final(self).numerators() == old(self).numerators().update(
                index as int,
                (old(self).numerators()[index as int] + 1) as nat,
            ),
            r matches Err(e) ==> *final(self) == *old(self) && e == HistogramError::Bounds,
    {
        if index >= self.distribution.len() {
            return Err(HistogramError::Bounds);
        }
        let current: u128 = self.distribution[index];
        if current == u128::MAX {
            return Err(HistogramError::Bounds);
        }
        self.distribution.set(index, current + 1);
        proof {
            assert(final(self).numerators() =~= old(self).numerators().update(
                index as int,
                (old(self).numerators()[index as int] + 1) as nat,
            ));
        }
        Ok(())
    }
}

} // verus!
