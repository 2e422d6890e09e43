//! The order of vectors: lexicographic, by the order of binary32 values.

use crate::binary32::{equal, is_nan, rank};
use crate::compare::{feq, flt};
use crate::model::{same_entries, suffix, suffix_after};
use crate::vector::Vector;
use core::cmp::Ordering;
use vstd::prelude::*;
use vstd::std_specs::cmp::PartialOrdSpecImpl;

verus! {

/// How two binary32 values compare: not at all when either is a NaN.
pub open spec fn compared(a: u32, b: u32) -> Option<Ordering> {
    if is_nan(a) || is_nan(b) {
        None
    } else if rank(a) < rank(b) {
        Some(Ordering::Less)
    } else if rank(a) == rank(b) {
        Some(Ordering::Equal)
    } else {
        Some(Ordering::Greater)
    }
}

/// How two vectors compare: by the first position at which their entries are
/// not equal, and by their dimensions when one runs out before that.
pub open spec fn lexicographic(u: Seq<u32>, v: Seq<u32>) -> Option<Ordering>
    decreases u.len(),
{
    if u.len() == 0 || v.len() == 0 {
        if u.len() < v.len() {
            Some(Ordering::Less)
        } else if u.len() == v.len() {
            Some(Ordering::Equal)
        } else {
            Some(Ordering::Greater)
        }
    } else if compared(u[0], v[0]) == Some(Ordering::Equal) {
        lexicographic(u.drop_first(), v.drop_first())
    } else {
        compared(u[0], v[0])
    }
}

/// Two vectors are equal exactly when they compare as equal.
pub proof fn law_equal_is_ordered_equal(u: Seq<u32>, v: Seq<u32>)
    ensures
        same_entries(u, v) <==> lexicographic(u, v) == Some(Ordering::Equal),
    decreases u.len(),
{
    if u.len() > 0 && v.len() > 0 {
        let ut = u.drop_first();
        let vt = v.drop_first();
        law_equal_is_ordered_equal(ut, vt);
        if same_entries(u, v) {
            assert(equal(u[0], v[0]));
            assert forall|i: int| 0 <= i < ut.len() implies equal(#[trigger] ut[i], vt[i]) by {
                assert(equal(u[i + 1], v[i + 1]));
            }
        }
        if compared(u[0], v[0]) == Some(Ordering::Equal) && same_entries(ut, vt) {
            assert forall|i: int| 0 <= i < u.len() implies equal(#[trigger] u[i], v[i]) by {
                if i > 0 {
                    assert(equal(ut[i - 1], vt[i - 1]));
                }
            }
        }
    }
}

/// Compares two binary32 patterns as values.
pub fn compare_values(a: u32, b: u32) -> (r: Option<Ordering>)
    ensures
        r == compared(a, b),
{
    if flt(a, b) {
        Some(Ordering::Less)
    } else if feq(a, b) {
        Some(Ordering::Equal)
    } else if flt(b, a) {
        Some(Ordering::Greater)
    } else {
        None
    }
}

impl PartialOrd for Vector {
    fn partial_cmp(&self, other: &Vector) -> (r: Option<Ordering>) {
        let mut i: usize = 0;
        assert(suffix(self@, i) =~= self@ && suffix(other@, i) =~= other@);
        while i < self.dim() && i < other.dim()
            invariant
                i <= self@.len(),
                i <= other@.len(),
                lexicographic(self@, other@) == lexicographic(suffix(self@, i), suffix(other@, i)),
            decreases self@.len() - i,
        {
            let step = compare_values(self.entry(i), other.entry(i));
            proof {
                let u = suffix(self@, i);
                let v = suffix(other@, i);
                assert(u.drop_first() =~= suffix_after(self@, i));
                assert(v.drop_first() =~= suffix_after(other@, i));
            }
            match step {
                Some(Ordering::Equal) => {},
                _ => {
                    return step;
                },
            }
            i = i + 1;
        }
        if self.dim() < other.dim() {
            Some(Ordering::Less)
        } else if self.dim() == other.dim() {
            Some(Ordering::Equal)
        } else {
            Some(Ordering::Greater)
        }
    }
}

impl PartialOrdSpecImpl for Vector {
    open spec fn obeys_partial_cmp_spec() -> bool {
        true
    }

    open spec fn partial_cmp_spec(&self, other: &Vector) -> Option<Ordering> {
        lexicographic(self@, other@)
    }
}

} // verus!
