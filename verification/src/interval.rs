//! Ranges of scalars, used to accept ray parameters and to bound colour
//! channels.
use vstd::prelude::*;
use crate::scalar::{Scalar, INFINITY, MINUS_INFINITY};

verus! {

/// The range from `min` to `max`. A range whose `min` exceeds its `max`
/// holds nothing.
#[derive(Clone, Copy, Debug)]
pub struct Interval {
    pub min: Scalar,
    pub max: Scalar,
}

impl Interval {
    /// Whether `x` lies in the range, the bounds included.
    pub open spec fn contains_spec(self, x: Scalar) -> bool {
        self.min.le_spec(x) && x.le_spec(self.max)
    }

    /// Whether `x` lies in the range, the bounds excluded.
    pub open spec fn surrounds_spec(self, x: Scalar) -> bool {
        self.min.lt_spec(x) && x.lt_spec(self.max)
    }

    /// The nearest scalar to `x` in the range. An `x` that compares with
    /// neither bound, a NaN, is handed back.
    pub open spec fn clamp_spec(self, x: Scalar) -> Scalar {
        if x.gt_spec(self.max) {
            self.max
        } else if x.lt_spec(self.min) {
            self.min
        } else {
            x
        }
    }

    /// The range that holds every scalar.
    pub open spec fn universe_spec() -> Interval {
        Interval { min: Scalar::lit(MINUS_INFINITY), max: Scalar::lit(INFINITY) }
    }

    /// The range that holds no scalar.
    pub open spec fn empty_spec() -> Interval {
        Interval { min: Scalar::lit(INFINITY), max: Scalar::lit(MINUS_INFINITY) }
    }

    /// The range that holds every scalar.
    pub fn new() -> (r: Interval)
        ensures
            r == Interval::universe_spec(),
    {
        Interval { min: Scalar::neg_infinity(), max: Scalar::infinity() }
    }

    /// The range from `min` to `max`.
    pub fn with_min_max(min: Scalar, max: Scalar) -> (r: Interval)
        ensures
            r.min == min,
            r.max == max,
    {
        Interval { min, max }
    }

    /// The range that holds no scalar.
    pub fn empty() -> (r: Interval)
        ensures
            r == Interval::empty_spec(),
    {
        Interval { min: Scalar::infinity(), max: Scalar::neg_infinity() }
    }

    /// The range that holds every scalar.
    pub fn universe() -> (r: Interval)
        ensures
            r == Interval::universe_spec(),
    {
        Interval::new()
    }

    /// Whether `x` lies in the range, the bounds included.
    pub fn contains(&self, x: Scalar) -> (r: bool)
        ensures
            r == self.contains_spec(x),
    {
        self.min <= x && x <= self.max
    }

    /// Whether `x` lies in the range, the bounds excluded.
    pub fn surrounds(&self, x: Scalar) -> (r: bool)
        ensures
            r == self.surrounds_spec(x),
    {
        self.min < x && x < self.max
    }

    /// The nearest scalar to `x` in the range; a NaN is handed back.
    pub fn clamp(&self, x: Scalar) -> (r: Scalar)
        ensures
            r == self.clamp_spec(x),
    {
        if x > self.max {
            self.max
        } else if x < self.min {
            self.min
        } else {
            x
        }
    }
}

/// The empty range holds nothing, and the universal range holds whatever is
/// not a NaN.
pub proof fn lemma_named_intervals(x: Scalar)
    ensures
        !Interval::empty_spec().contains_spec(x),
        !Interval::empty_spec().surrounds_spec(x),
        Interval::universe_spec().contains_spec(x) <==> !x.is_nan_spec(),
{
    let inf = Scalar::lit(INFINITY);
    let minus = Scalar::lit(MINUS_INFINITY);
    assert(inf.pattern() == 0x7f80_0000 && !inf.sign());
    assert(minus.pattern() == 0x7f80_0000 && minus.sign());
    crate::scalar::lemma_grid_compare(x.pattern(), 0x7f80_0000);
    crate::scalar::lemma_grid_compare(0, 0x7f80_0000);
}

/// A clamped scalar lies in the range, provided the range is not empty and
/// the scalar is not a NaN.
pub proof fn lemma_clamp_contained(i: Interval, x: Scalar)
    requires
        i.min.le_spec(i.max),
        !x.is_nan_spec(),
    ensures
        i.contains_spec(i.clamp_spec(x)),
{
}

} // verus!
