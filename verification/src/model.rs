//! The mathematical model of the vector operations, over sequences of
//! binary32 patterns.

use crate::binary32::{difference, equal, product, root, sum, ZERO};
use vstd::prelude::*;

verus! {

/// One of the three binary32 operations that vectors apply entry by entry.
#[derive(Debug, Clone, Copy, PartialEq, Eq, Structural)]
pub enum Operation {
    Add,
    Subtract,
    Multiply,
}

/// The result of one operation on two patterns.
pub open spec fn applied(op: Operation, a: u32, b: u32) -> u32 {
    match op {
        Operation::Add => sum(a, b),
        Operation::Subtract => difference(a, b),
        Operation::Multiply => product(a, b),
    }
}

/// The zero vector of dimension `n`.
pub open spec fn zeros(n: nat) -> Seq<u32> {
    Seq::new(n, |i: int| ZERO)
}

/// Equality of vectors: the same dimension, and entries that are equal as
/// binary32 values.
pub open spec fn same_entries(u: Seq<u32>, v: Seq<u32>) -> bool {
    u.len() == v.len() && forall|i: int| 0 <= i < u.len() ==> equal(#[trigger] u[i], v[i])
}

/// The entries of a vector from position `i` on.
pub open spec fn suffix(u: Seq<u32>, i: usize) -> Seq<u32> {
    u.skip(i as int)
}

/// The entries of a vector after position `i`.
pub open spec fn suffix_after(u: Seq<u32>, i: usize) -> Seq<u32> {
    u.skip(i + 1)
}

/// Two vectors of one dimension combined entry by entry.
pub open spec fn elementwise(op: Operation, u: Seq<u32>, v: Seq<u32>) -> Seq<u32> {
    Seq::new(u.len(), |i: int| applied(op, u[i], v[i]))
}

/// Every entry of a vector combined with one scalar on its right.
pub open spec fn broadcast(op: Operation, u: Seq<u32>, c: u32) -> Seq<u32> {
    Seq::new(u.len(), |i: int| applied(op, u[i], c))
}

/// The dot product of two vectors of one dimension: starting from positive
/// zero, the products of the entries are added from the first to the last,
/// each addition rounding.
pub open spec fn dot_product(u: Seq<u32>, v: Seq<u32>) -> u32
    decreases u.len(),
{
    if u.len() == 0 {
        ZERO
    } else {
        sum(dot_product(u.drop_last(), v.drop_last()), product(u.last(), v[u.len() - 1]))
    }
}

/// The Euclidean length of a vector, each step in binary32.
pub open spec fn norm(u: Seq<u32>) -> u32 {
    root(dot_product(u, u))
}

} // verus!
