//! Closed ranges of double-precision numbers, each number given by its bits.

use vstd::prelude::*;
use crate::double::{
    at_most, is_number, lemma_keys_order_as_values, less, magnitude, scaled_value, spec_at_most,
    spec_less, INFINITY,
};

verus! {

/// Bits of the largest finite number.
pub const LARGEST: u64 = 0x7FEF_FFFF_FFFF_FFFF;

/// Bits of the smallest finite number, the negative of the largest.
pub const SMALLEST: u64 = 0xFFEF_FFFF_FFFF_FFFF;

/// Bits of zero.
pub const ZERO: u64 = 0;

/// The bits encode a finite number.
pub open spec fn is_finite(bits: u64) -> bool {
    magnitude(bits) < INFINITY
}

/// The range from `min` to `max`, both included. Nothing requires that `min`
/// be at most `max`: a range where it is not holds no number.
#[derive(Clone, Copy, Debug)]
pub struct Interval {
    pub min: u64,
    pub max: u64,
}

impl Interval {
    /// `v` lies in the range, its ends included.
    pub open spec fn spec_contains(&self, v: u64) -> bool {
        spec_at_most(self.min, v) && spec_at_most(v, self.max)
    }

    /// `v` lies in the range and is neither of its ends.
    pub open spec fn spec_surrounds(&self, v: u64) -> bool {
        spec_less(self.min, v) && spec_less(v, self.max)
    }

    /// The lower end where `v` is below it, else the upper end where `v` is
    /// above it, else `v` itself; so what is not a number stays what it is.
    pub open spec fn spec_clamp(&self, v: u64) -> u64 {
        if spec_less(v, self.min) {
            self.min
        } else if spec_less(self.max, v) {
            self.max
        } else {
            v
        }
    }

    /// The range from `min` to `max`.
    pub fn new(min: u64, max: u64) -> (range: Interval)
        ensures
            range.min == min,
            range.max == max,
    {
        Interval { min, max }
    }

    /// The range that holds no number.
    pub fn empty() -> (range: Interval)
        ensures
            range.min == LARGEST,
            range.max == SMALLEST,
            forall|v: u64| !range.spec_contains(v),
    {
        let range = Interval { min: LARGEST, max: SMALLEST };
        proof {
            assert forall|v: u64| !range.spec_contains(v) by {
                if is_number(v) {
                    lemma_keys_order_as_values(LARGEST, v);
                    lemma_keys_order_as_values(v, SMALLEST);
                }
            }
        }
        range
    }

    /// The range of all finite numbers.
    pub fn universe() -> (range: Interval)
        ensures
            range.min == SMALLEST,
            range.max == LARGEST,
            forall|v: u64| range.spec_contains(v) <==> is_finite(v),
    {
        let range = Interval { min: SMALLEST, max: LARGEST };
        proof {
            assert forall|v: u64| range.spec_contains(v) <==> is_finite(v) by {
                if is_number(v) {
                    lemma_keys_order_as_values(SMALLEST, v);
                    lemma_keys_order_as_values(v, LARGEST);
                }
            }
        }
        range
    }

    /// The range of the finite numbers from zero up.
    pub fn positive() -> (range: Interval)
        ensures
            range.min == ZERO,
            range.max == LARGEST,
            forall|v: u64| range.spec_contains(v) <==> is_finite(v) && scaled_value(v) >= 0,
    {
        let range = Interval { min: ZERO, max: LARGEST };
        proof {
            assert forall|v: u64| range.spec_contains(v) <==> is_finite(v) && scaled_value(v)
                >= 0 by {
                if is_number(v) {
                    lemma_keys_order_as_values(ZERO, v);
                    lemma_keys_order_as_values(v, LARGEST);
                }
            }
        }
        range
    }

    /// The range of the finite numbers from zero down.
    pub fn negative() -> (range: Interval)
        ensures
            range.min == SMALLEST,
            range.max == ZERO,
            forall|v: u64| range.spec_contains(v) <==> is_finite(v) && scaled_value(v) <= 0,
    {
        let range = Interval { min: SMALLEST, max: ZERO };
        proof {
            assert forall|v: u64| range.spec_contains(v) <==> is_finite(v) && scaled_value(v)
                <= 0 by {
                if is_number(v) {
                    lemma_keys_order_as_values(SMALLEST, v);
                    lemma_keys_order_as_values(v, ZERO);
                }
            }
        }
        range
    }

    /// Brings `v` into the range: a number below the range becomes its lower
    /// end, one above it its upper end, and anything else stays. Where the
    /// lower end is at most the upper, the result of clamping a number lies
    /// in the range, and a number in the range stays as it is.
    pub fn clamp(&self, v: u64) -> (clamped: u64)
        ensures
            clamped == self.spec_clamp(v),
            self.spec_contains(v) ==> clamped == v,
            is_number(v) && spec_at_most(self.min, self.max) ==> self.spec_contains(clamped),
    {
        if less(v, self.min) {
            self.min
        } else if less(self.max, v) {
            self.max
        } else {
            v
        }
    }

    /// Whether `v` lies in the range, its ends included.
    pub fn contains(&self, v: u64) -> (inside: bool)
        ensures
            inside == self.spec_contains(v),
    {
        at_most(self.min, v) && at_most(v, self.max)
    }

    /// Whether `v` lies in the range without being one of its ends.
    pub fn surrounds(&self, v: u64) -> (inside: bool)
        ensures
            inside == self.spec_surrounds(v),
    {
        less(self.min, v) && less(v, self.max)
    }
}

} // verus!
