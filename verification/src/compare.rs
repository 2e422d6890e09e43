//! Equality and order of binary32 patterns.

use crate::binary32::{equal, less, rank, INFINITY, SIGN_BIT};
use vstd::prelude::*;

verus! {

/// The place of a pattern in the order of values; see [`rank`].
fn rank_of(x: u32) -> (k: i64)
    ensures
        k == rank(x),
{
    let m: u32 = x % SIGN_BIT;
    if x >= SIGN_BIT {
        -(m as i64)
    } else {
        m as i64
    }
}

/// Whether two patterns are equal as binary32 values.
pub fn feq(a: u32, b: u32) -> (r: bool)
    ensures
        r == equal(a, b),
{
    a % SIGN_BIT <= INFINITY && b % SIGN_BIT <= INFINITY && rank_of(a) == rank_of(b)
}

/// Whether the first pattern is less than the second as binary32 values.
pub fn flt(a: u32, b: u32) -> (r: bool)
    ensures
        r == less(a, b),
{
    a % SIGN_BIT <= INFINITY && b % SIGN_BIT <= INFINITY && rank_of(a) < rank_of(b)
}

} // verus!
