use vstd::prelude::*;
use core::cmp::Ordering;
use crate::types::Ffix;

verus! {

impl PartialEq for Ffix {
    /// Whether the two numbers are equal. Formats and ranges do not count.
    fn eq(&self, other: &Self) -> (r: bool) {
        let pair: (i128, i128) = self.common(other);
        pair.0 == pair.1
    }
}

impl vstd::std_specs::cmp::PartialEqSpecImpl for Ffix {
    open spec fn obeys_eq_spec() -> bool {
        true
    }

    open spec fn eq_spec(&self, other: &Self) -> bool {
        self.same_number(*other)
    }
}

impl PartialOrd for Ffix {
    /// The order of the two numbers. Formats and ranges do not count, and
    /// any two values can be ordered.
    fn partial_cmp(&self, other: &Self) -> (r: Option<Ordering>) {
        let pair: (i128, i128) = self.common(other);
        if pair.0 < pair.1 {
            Some(Ordering::Less)
        } else if pair.0 == pair.1 {
            Some(Ordering::Equal)
        } else {
            Some(Ordering::Greater)
        }
    }
}

impl vstd::std_specs::cmp::PartialOrdSpecImpl for Ffix {
    open spec fn obeys_partial_cmp_spec() -> bool {
        true
    }

    open spec fn partial_cmp_spec(&self, other: &Self) -> Option<Ordering> {
        if self.below(*other) {
            Some(Ordering::Less)
        } else if self.same_number(*other) {
            Some(Ordering::Equal)
        } else {
            Some(Ordering::Greater)
        }
    }
}

} // verus!
