//! The fixed-size frequency histogram, addressed through the sublog mapper.
//!
//! The counter array always has `(65 - sublog_bits) * 2^sublog_bits` entries,
//! so every 64-bit reuse interval lands in bounds. A histogram can optionally
//! be configured with a bounded domain: operations then accept only reuse
//! intervals in `1..=max_reuse_interval` and reject all others.

use vstd::prelude::*;

use crate::HistogramError;
use crate::counter::{Counter, saturated_inc};
use crate::sublog::{
    bucket_index, convert_reuse_interval_to_index, lemma_histogram_size_fits_u64,
    spec_histogram_size, valid_sublog_bits,
};

verus! {

/// The observed range of one bucket: the smallest and largest reuse interval
/// counted into it, and their running sum. The mapper is lossy, so this is
/// what tells a reader which values a bucket actually covered; the bucket's
/// own counter keeps the frequency.
#[derive(Clone, Copy, Debug, PartialEq, Eq, Structural)]
pub struct BucketSpan {
    /// The smallest reuse interval counted into the bucket.
    pub min_seen: u64,
    /// The largest reuse interval counted into the bucket.
    pub max_seen: u64,
    /// The sum of all reuse intervals counted into the bucket, saturating.
    pub total: u128,
}

/// A span widened by one more observation.
pub open spec fn span_extended(span: Option<BucketSpan>, reuse_interval: u64) -> BucketSpan {
    match span {
        None => BucketSpan {
            min_seen: reuse_interval,
            max_seen: reuse_interval,
            total: reuse_interval as u128,
        },
        Some(s) => BucketSpan {
            min_seen: if reuse_interval < s.min_seen {
                reuse_interval
            } else {
                s.min_seen
            },
            max_seen: if reuse_interval > s.max_seen {
                reuse_interval
            } else {
                s.max_seen
            },
            total: if s.total + reuse_interval <= u128::MAX {
                (s.total + reuse_interval) as u128
            } else {
                u128::MAX
            },
        },
    }
}

/// A histogram of frequency counters, one per sublog bucket.
pub struct Histogram<T> {
    /// The configured precision: how many mantissa bits each magnitude band
    /// keeps. Fixed for the lifetime of the histogram.
    pub sublog_bits: u64,
    /// An optional bounded domain: with `Some(m)`, only reuse intervals in
    /// `1..=m` are accepted; with `None` every 64-bit value is.
    pub max_reuse_interval: Option<u64>,
    /// The frequency counters, addressed by bucket index.
    pub values: Vec<T>,
    /// The optional range enrichment: one observed span per bucket, kept up
    /// to date by [`Histogram::add`]. `None` for a plain scalar histogram.
    pub ranges: Option<Vec<Option<BucketSpan>>>,
}

impl<T: Counter> Histogram<T> {
    /// The per-bucket counts, as mathematical numbers.
    pub open spec fn counts(&self) -> Seq<nat> {
        self.values@.map(|_i: int, c: T| c.count())
    }

    /// Well-formed: an accepted precision, the counter array sized by the
    /// `(65 - sublog_bits) * 2^sublog_bits` formula, and one span per bucket
    /// where the range enrichment is configured.
    pub open spec fn wf(&self) -> bool {
        &&& valid_sublog_bits(self.sublog_bits)
        &&& self.values@.len() == spec_histogram_size(self.sublog_bits as nat)
        &&& match self.ranges {
            Some(r) => r@.len() == self.values@.len(),
            None => true,
        }
    }

    /// Whether the histogram carries the range enrichment layer.
    pub open spec fn enriched(&self) -> bool {
        self.ranges is Some
    }

    /// The per-bucket observed spans of an enriched histogram.
    pub open spec fn spans_of(&self) -> Seq<Option<BucketSpan>> {
        match self.ranges {
            Some(r) => r@,
            None => Seq::empty(),
        }
    }

    /// The spans after one more observation of `reuse_interval`: the span of
    /// its bucket widens, and a plain scalar histogram stays without spans.
    pub open spec fn spans_with(&self, reuse_interval: u64) -> Seq<Option<BucketSpan>> {
        if self.enriched() {
            self.spans_of().update(
                self.index_of(reuse_interval),
                Some(span_extended(self.spans_of()[self.index_of(reuse_interval)], reuse_interval)),
            )
        } else {
            self.spans_of()
        }
    }

    /// Whether a reuse interval lies in the configured domain.
    pub open spec fn in_domain(&self, reuse_interval: u64) -> bool {
        match self.max_reuse_interval {
            Some(m) => 1 <= reuse_interval <= m,
            None => true,
        }
    }

    /// The bucket index a reuse interval takes in this histogram.
    pub open spec fn index_of(&self, reuse_interval: u64) -> int {
        bucket_index(self.sublog_bits as nat, reuse_interval as nat) as int
    }

    /// Precision, domain and enrichment configuration survive an operation
    /// unchanged.
    pub open spec fn same_config(&self, other: &Self) -> bool {
        &&& self.sublog_bits == other.sublog_bits
        &&& self.max_reuse_interval == other.max_reuse_interval
        &&& self.enriched() == other.enriched()
    }

    /// Number of buckets the formula assigns to a precision.
    ///
    /// The counter array of every well-formed histogram has exactly this
    /// length: `(65 - sublog_bits) * 2^sublog_bits`.
    pub fn sublog_to_histogram_size(sublog_bits: u64) -> (size: u128)
        requires
            sublog_bits <= 62,
        ensures
            size == spec_histogram_size(sublog_bits as nat),
    {
        proof {
            lemma_histogram_size_fits_u64(sublog_bits);
            vstd::arithmetic::power2::lemma2_to64();
            vstd::arithmetic::power2::lemma2_to64_rest();
            if sublog_bits < 62 {
                vstd::arithmetic::power2::lemma_pow2_strictly_increases(sublog_bits as nat, 62);
            }
            vstd::bits::lemma_u64_shl_is_mul(1u64, sublog_bits);
        }
        ((65 - sublog_bits) * (1u64 << sublog_bits)) as u128
    }

    /// Constructor for an unbounded histogram at an accepted precision:
    /// zero-filled counters, sized by the formula.
    pub fn new_single(sublog_bits: u64) -> (h: Histogram<T>)
        requires
            valid_sublog_bits(sublog_bits),
        ensures
            h.wf(),
            h.sublog_bits == sublog_bits,
            h.max_reuse_interval is None,
            h.counts().len() == spec_histogram_size(sublog_bits as nat),
            forall|i: int| 0 <= i < h.counts().len() ==> h.counts()[i] == 0,
            !h.enriched(),
    {
        let size128: u128 = Self::sublog_to_histogram_size(sublog_bits);
        let size: usize = size128 as usize;
        let mut values: Vec<T> = Vec::new();
        while values.len() < size
            invariant
                values@.len() <= size,
                size == spec_histogram_size(sublog_bits as nat),
                forall|i: int| 0 <= i < values@.len() ==> values@[i].count() == 0,
            decreases size - values.len(),
        {
            values.push(T::zero());
        }
        Histogram { sublog_bits, max_reuse_interval: None, values, ranges: None }
    }

    /// Checked constructor: rejects an invalid precision with a configuration
    /// error instead of failing later.
    pub fn new(sublog_bits: u64) -> (r: Result<Histogram<T>, HistogramError>)
        ensures
            r is Ok <==> valid_sublog_bits(sublog_bits),
            r matches Ok(h) ==> {
                &&& h.wf()
                &&& h.sublog_bits == sublog_bits
                &&& h.max_reuse_interval is None
                &&& !h.enriched()
                &&& forall|i: int| 0 <= i < h.counts().len() ==> h.counts()[i] == 0
            },
            r matches Err(e) ==> e == HistogramError::Config,
    {
        if sublog_bits > 62 {
            return Err(HistogramError::Config);
        }
        let size128: u128 = Self::sublog_to_histogram_size(sublog_bits);
        if size128 > usize::MAX as u128 {
            return Err(HistogramError::Config);
        }
        Ok(Self::new_single(sublog_bits))
    }

    /// Checked constructor for a bounded domain: as [`Histogram::new`], but
    /// operations will accept only reuse intervals in `1..=max_reuse_interval`.
    pub fn new_bounded(sublog_bits: u64, max_reuse_interval: u64) -> (r: Result<
        Histogram<T>,
        HistogramError,
    >)
        ensures
            r is Ok <==> valid_sublog_bits(sublog_bits),
            r matches Ok(h) ==> {
                &&& h.wf()
                &&& h.sublog_bits == sublog_bits
                &&& h.max_reuse_interval == Some(max_reuse_interval)
                &&& !h.enriched()
                &&& forall|i: int| 0 <= i < h.counts().len() ==> h.counts()[i] == 0
            },
            r matches Err(e) ==> e == HistogramError::Config,
    {
        Self::new_configured(sublog_bits, Some(max_reuse_interval), false)
    }

    /// Checked constructor taking the whole configuration: an optional
    /// bounded domain and the choice between plain scalar counters and the
    /// range-enriched form that also tracks each bucket's observed span.
    pub fn new_configured(
        sublog_bits: u64,
        max_reuse_interval: Option<u64>,
        range_enriched: bool,
    ) -> (r: Result<Histogram<T>, HistogramError>)
        ensures
            r is Ok <==> valid_sublog_bits(sublog_bits),
            r matches Ok(h) ==> {
                &&& h.wf()
                &&& h.sublog_bits == sublog_bits
                &&& h.max_reuse_interval == max_reuse_interval
                &&& h.enriched() == range_enriched
                &&& forall|i: int| 0 <= i < h.counts().len() ==> h.counts()[i] == 0
                &&& h.spans_of().len() == (if range_enriched {
                    h.counts().len() as int
                } else {
                    0int
                })
                &&& forall|i: int| 0 <= i < h.spans_of().len() ==> h.spans_of()[i] is None
            },
            r matches Err(e) ==> e == HistogramError::Config,
    {
        let mut h: Histogram<T> = match Self::new(sublog_bits) {
            Ok(h) => h,
            Err(e) => {
                return Err(e);
            },
        };
        let ghost zero_counts = h.counts();
        h.max_reuse_interval = max_reuse_interval;
        if range_enriched {
            let size: usize = h.values.len();
            let mut spans: Vec<Option<BucketSpan>> = Vec::new();
            while spans.len() < size
                invariant
                    spans@.len() <= size,
                    forall|i: int| 0 <= i < spans@.len() ==> spans@[i] is None,
                decreases size - spans.len(),
            {
                spans.push(None);
            }
            let ghost initial_spans = spans@;
            h.ranges = Some(spans);
            proof {
                assert(h.spans_of() == initial_spans);
            }
        }
        proof {
            assert(h.counts() =~= zero_counts);
        }
        Ok(h)
    }

    /// Number of buckets this histogram owns.
    pub fn length(&self) -> (n: usize)
        ensures
            n == self.counts().len(),
    {
        self.values.len()
    }

    /// The configured precision.
    pub fn get_sublog_bits(&self) -> (r: u64)
        ensures
            r == self.sublog_bits,
    {
        self.sublog_bits
    }

    /// Overwrite the counter at a bucket index; positions outside the
    /// allocated array are rejected.
    pub fn set_frequency_via_index(&mut self, index: usize, frequency: T) -> (r: Result<
        (),
        HistogramError,
    >)
        ensures
            final(self).same_config(old(self)),
            final(self).wf() == old(self).wf(),
            r is Ok <==> index < old(self).counts().len(),
            r is Ok ==> final(self).counts() == old(self).counts().update(
                index as int,
                frequency.count(),
            ),
            final(self).ranges == old(self).ranges,
            r matches Err(e) ==> *final(self) == *old(self) && e == HistogramError::Bounds,
    {
        if index >= self.values.len() {
            return Err(HistogramError::Bounds);
        }
        self.values.set(index, frequency);
        proof {
            assert(final(self).counts() =~= old(self).counts().update(
                index as int,
                frequency.count(),
            ));
        }
        Ok(())
    }

    /// The counter of the bucket that `reuse_interval` maps to; a value
    /// outside a configured bounded domain is rejected.
    pub fn get_frequency(&self, reuse_interval: u64) -> (r: Result<T, HistogramError>)
        requires
            self.wf(),
        ensures
            r is Ok <==> self.in_domain(reuse_interval),
            r matches Ok(c) ==> c.count() == self.counts()[self.index_of(reuse_interval)],
            r matches Err(e) ==> e == HistogramError::Bounds,
    {
        if !self.check_domain(reuse_interval) {
            return Err(HistogramError::Bounds);
        }
        let index: usize = convert_reuse_interval_to_index(self.sublog_bits, reuse_interval);
        Ok(self.values[index])
    }

    /// Count one more observation of `reuse_interval`: the counter of its
    /// bucket grows by one (saturating at the counter's maximum), and on an
    /// enriched histogram the bucket's observed span widens to cover the
    /// value. A value outside a configured bounded domain is rejected and
    /// nothing changes.
    pub fn add(&mut self, reuse_interval: u64) -> (r: Result<(), HistogramError>)
        requires
            old(self).wf(),
        ensures
            final(self).wf(),
            final(self).same_config(old(self)),
            r is Ok <==> old(self).in_domain(reuse_interval),
            r is Ok ==> final(self).counts() == old(self).counts().update(
                old(self).index_of(reuse_interval),
                saturated_inc(old(self).counts()[old(self).index_of(reuse_interval)], T::max_count()),
            ),
            r is Ok ==> final(self).spans_of() == old(self).spans_with(reuse_interval),
            r matches Err(e) ==> *final(self) == *old(self) && e == HistogramError::Bounds,
    {
        if !self.check_domain(reuse_interval) {
            return Err(HistogramError::Bounds);
        }
        let index: usize = convert_reuse_interval_to_index(self.sublog_bits, reuse_interval);
        let bumped: T = self.values[index].saturating_inc();
        proof {
            old(self).values@[index as int].lemma_count_in_range();
        }
        self.values.set(index, bumped);
        match &mut self.ranges {
            Some(spans) => {
                let widened: BucketSpan = extend_span(&spans[index], reuse_interval);
                spans.set(index, Some(widened));
            },
            None => {},
        }
        proof {
            assert(final(self).counts() =~= old(self).counts().update(
                old(self).index_of(reuse_interval),
                saturated_inc(
                    old(self).counts()[old(self).index_of(reuse_interval)],
                    T::max_count(),
                ),
            ));
            if old(self).enriched() {
                assert(final(self).spans_of() =~= old(self).spans_with(reuse_interval));
            }
        }
        Ok(())
    }

    /// The observed span of a bucket of an enriched histogram: `None` while
    /// nothing was counted into the bucket. A histogram without the
    /// enrichment layer, or an index outside the array, is rejected.
    pub fn get_bucket_span(&self, index: usize) -> (r: Result<
        Option<BucketSpan>,
        HistogramError,
    >)
        ensures
            r is Ok <==> (self.enriched() && index < self.spans_of().len()),
            r matches Ok(s) ==> s == self.spans_of()[index as int],
            r matches Err(e) ==> e == HistogramError::Bounds,
    {
        match &self.ranges {
            Some(spans) => {
                if index >= spans.len() {
                    Err(HistogramError::Bounds)
                } else {
                    Ok(spans[index])
                }
            },
            None => Err(HistogramError::Bounds),
        }
    }

    /// Overwrite the counter of the bucket that `reuse_interval` maps to; a
    /// value outside a configured bounded domain is rejected.
    pub fn set_frequency_via_reuse_interval(&mut self, reuse_interval: u64, frequency: T) -> (r:
        Result<(), HistogramError>)
        requires
            old(self).wf(),
        ensures
            final(self).wf(),
            final(self).same_config(old(self)),
            r is Ok <==> old(self).in_domain(reuse_interval),
            r is Ok ==> final(self).counts() == old(self).counts().update(
                old(self).index_of(reuse_interval),
                frequency.count(),
            ),
            final(self).ranges == old(self).ranges,
            r matches Err(e) ==> *final(self) == *old(self) && e == HistogramError::Bounds,
    {
        if !self.check_domain(reuse_interval) {
            return Err(HistogramError::Bounds);
        }
        let index: usize = convert_reuse_interval_to_index(self.sublog_bits, reuse_interval);
        self.values.set(index, frequency);
        proof {
            assert(final(self).counts() =~= old(self).counts().update(
                old(self).index_of(reuse_interval),
                frequency.count(),
            ));
        }
        Ok(())
    }

    /// An independent copy of the counter array, in bucket order.
    pub fn get_histgram_vec(&self) -> (v: Vec<T>)
        ensures
            v@.len() == self.counts().len(),
            forall|i: int| 0 <= i < v@.len() ==> v@[i].count() == self.counts()[i],
    {
        let mut v: Vec<T> = Vec::new();
        let mut i: usize = 0;
        while i < self.values.len()
            invariant
                i <= self.values@.len(),
                v@.len() == i,
                forall|k: int| 0 <= k < i ==> v@[k].count() == self.counts()[k],
            decreases self.values@.len() - i,
        {
            v.push(self.values[i]);
            i = i + 1;
        }
        v
    }

    /// Whether a reuse interval lies in the configured domain, executably.
    fn check_domain(&self, reuse_interval: u64) -> (r: bool)
        ensures
            r == self.in_domain(reuse_interval),
    {
        match self.max_reuse_interval {
            Some(m) => 1 <= reuse_interval && reuse_interval <= m,
            None => true,
        }
    }
}

/// Widen a bucket's observed span by one more observation, executably.
fn extend_span(span: &Option<BucketSpan>, reuse_interval: u64) -> (r: BucketSpan)
    ensures
        r == span_extended(*span, reuse_interval),
{
    match span {
        None => BucketSpan {
            min_seen: reuse_interval,
            max_seen: reuse_interval,
            total: reuse_interval as u128,
        },
        Some(s) => {
            let min_seen: u64 = if reuse_interval < s.min_seen {
                reuse_interval
            } else {
                s.min_seen
            };
            let max_seen: u64 = if reuse_interval > s.max_seen {
                reuse_interval
            } else {
                s.max_seen
            };
            let total: u128 = if s.total <= u128::MAX - (reuse_interval as u128) {
                s.total + (reuse_interval as u128)
            } else {
                u128::MAX
            };
            BucketSpan { min_seen, max_seen, total }
        },
    }
}

} // verus!
