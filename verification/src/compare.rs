//! The comparison operators on scalars.
//!
//! They compare as binary32 does: a NaN is neither below, above nor equal
//! to anything, itself included, and the two zeros are equal.
use vstd::prelude::*;
use vstd::std_specs::cmp::{PartialEqSpecImpl, PartialOrdSpecImpl};
use core::cmp::Ordering;
use crate::scalar::Scalar;

verus! {

impl PartialEq for Scalar {
    fn eq(&self, other: &Scalar) -> (r: bool) {
        Scalar::eq(*self, *other)
    }
}

impl PartialEqSpecImpl for Scalar {
    open spec fn obeys_eq_spec() -> bool {
        true
    }

    open spec fn eq_spec(&self, other: &Scalar) -> bool {
        Scalar::eq_spec(*self, *other)
    }
}

impl PartialOrd for Scalar {
    fn partial_cmp(&self, other: &Scalar) -> (r: Option<Ordering>) {
        if self.is_nan() || other.is_nan() {
            None
        } else if Scalar::lt(*self, *other) {
            Some(Ordering::Less)
        } else if Scalar::gt(*self, *other) {
            Some(Ordering::Greater)
        } else {
            Some(Ordering::Equal)
        }
    }
}

impl PartialOrdSpecImpl for Scalar {
    open spec fn obeys_partial_cmp_spec() -> bool {
        true
    }

    open spec fn partial_cmp_spec(&self, other: &Scalar) -> Option<Ordering> {
        if self.is_nan_spec() || other.is_nan_spec() {
            None
        } else if self.value() < other.value() {
            Some(Ordering::Less)
        } else if self.value() > other.value() {
            Some(Ordering::Greater)
        } else {
            Some(Ordering::Equal)
        }
    }
}

} // verus!
