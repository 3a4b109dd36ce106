//! Numeric ordering of rationals and times.
//!
//! Values are compared by cross-multiplication, so `1/3 < 1/2` and times at
//! different rates order by the instant they name.

use vstd::prelude::*;
use std::cmp::Ordering;
use vstd::std_specs::cmp::PartialOrdSpecImpl;
use crate::arith::value_lt;
use crate::time::{Rational, Time};

verus! {

impl PartialOrdSpecImpl for Rational {
    open spec fn obeys_partial_cmp_spec() -> bool {
        true
    }

    open spec fn partial_cmp_spec(&self, other: &Rational) -> Option<Ordering> {
        if value_lt(self@, other@) {
            Some(Ordering::Less)
        } else if value_lt(other@, self@) {
            Some(Ordering::Greater)
        } else {
            Some(Ordering::Equal)
        }
    }
}

impl PartialOrd for Rational {
    fn partial_cmp(&self, other: &Rational) -> (r: Option<Ordering>) {
        if self.less_than(*other) {
            Some(Ordering::Less)
        } else if other.less_than(*self) {
            Some(Ordering::Greater)
        } else {
            Some(Ordering::Equal)
        }
    }
}

impl PartialOrdSpecImpl for Time {
    open spec fn obeys_partial_cmp_spec() -> bool {
        true
    }

    open spec fn partial_cmp_spec(&self, other: &Time) -> Option<Ordering> {
        if value_lt(self@, other@) {
            Some(Ordering::Less)
        } else if value_lt(other@, self@) {
            Some(Ordering::Greater)
        } else {
            Some(Ordering::Equal)
        }
    }
}

impl PartialOrd for Time {
    fn partial_cmp(&self, other: &Time) -> (r: Option<Ordering>) {
        if self.earlier_than(*other) {
            Some(Ordering::Less)
        } else if other.earlier_than(*self) {
            Some(Ordering::Greater)
        } else {
            Some(Ordering::Equal)
        }
    }
}

} // verus!
