//! The numeric capability a histogram counter needs: a zero, a saturating
//! increment, an ordering, and a widening into `u128`. The histogram is
//! parametric over this, so counters of different widths can be chosen per
//! overflow risk profile.

use vstd::prelude::*;

verus! {

/// An unsigned-integer-like frequency counter.
pub trait Counter: Sized + Copy {
    /// The counted value.
    spec fn count(&self) -> nat;

    /// The largest value this counter can hold.
    spec fn max_count() -> nat;

    /// A counter never exceeds its maximum, and the maximum fits a `u128`.
    proof fn lemma_count_in_range(&self)
        ensures
            self.count() <= Self::max_count(),
            Self::max_count() <= u128::MAX as nat,
    ;

    /// The zero counter.
    fn zero() -> (r: Self)
        ensures
            r.count() == 0,
    ;

    /// One more, stuck at the maximum instead of overflowing.
    fn saturating_inc(&self) -> (r: Self)
        ensures
            r.count() == saturated_inc(self.count(), Self::max_count()),
    ;

    /// Ordering of two counters.
    fn le(&self, other: &Self) -> (r: bool)
        ensures
            r == (self.count() <= other.count()),
    ;

    /// The counted value, widened.
    fn widen(&self) -> (r: u128)
        ensures
            r as nat == self.count(),
    ;
}

/// One more than `c`, unless the maximum `m` has been reached.
pub open spec fn saturated_inc(c: nat, m: nat) -> nat {
    if c < m {
        c + 1
    } else {
        m
    }
}

impl Counter for u64 {
    open spec fn count(&self) -> nat {
        *self as nat
    }

    open spec fn max_count() -> nat {
        u64::MAX as nat
    }

    proof fn lemma_count_in_range(&self) {
    }

    fn zero() -> (r: Self) {
        0u64
    }

    fn saturating_inc(&self) -> (r: Self) {
        if *self < u64::MAX {
            *self + 1
        } else {
            *self
        }
    }

    fn le(&self, other: &Self) -> (r: bool) {
        *self <= *other
    }

    fn widen(&self) -> (r: u128) {
        *self as u128
    }
}

impl Counter for u128 {
    open spec fn count(&self) -> nat {
        *self as nat
    }

    open spec fn max_count() -> nat {
        u128::MAX as nat
    }

    proof fn lemma_count_in_range(&self) {
    }

    fn zero() -> (r: Self) {
        0u128
    }

    fn saturating_inc(&self) -> (r: Self) {
        if *self < u128::MAX {
            *self + 1
        } else {
            *self
        }
    }

    fn le(&self, other: &Self) -> (r: bool) {
        *self <= *other
    }

    fn widen(&self) -> (r: u128) {
        *self
    }
}

} // verus!
