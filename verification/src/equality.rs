//! Equality of vectors, entry by entry as binary32 values.

use crate::binary32::equal;
use crate::compare::feq;
use crate::model::same_entries;
use crate::vector::Vector;
use vstd::prelude::*;

verus! {

impl PartialEq for Vector {
    fn eq(&self, other: &Vector) -> (r: bool) {
        if self.dim() != other.dim() {
            return false;
        }
        let mut i: usize = 0;
        while i < self.dim()
            invariant
                i <= self@.len(),
                self@.len() == other@.len(),
                forall|j: int| 0 <= j < i ==> equal(self@[j], other@[j]),
            decreases self@.len() - i,
        {
            if !feq(self.entry(i), other.entry(i)) {
                return false;
            }
            i = i + 1;
        }
        true
    }
}

impl vstd::std_specs::cmp::PartialEqSpecImpl for Vector {
    open spec fn obeys_eq_spec() -> bool {
        true
    }

    open spec fn eq_spec(&self, other: &Vector) -> bool {
        same_entries(self@, other@)
    }
}

} // verus!
