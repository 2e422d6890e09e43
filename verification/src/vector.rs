//! Vectors of binary32 values and their dimension-checked arithmetic.

use crate::arith::{fadd, fmul, fsub};
use crate::binary32::{is_zero, SIGN_BIT, ZERO};
use crate::error::Error;
use crate::model::{applied, broadcast, dot_product, elementwise, norm, zeros, Operation};
use crate::root::fsqrt;
use vstd::prelude::*;

verus! {

/// An ordered sequence of binary32 values of fixed dimension, each held as
/// its bit pattern.
#[derive(Debug)]
pub struct Vector(Vec<u32>);

impl View for Vector {
    type V = Seq<u32>;

    closed spec fn view(&self) -> Seq<u32> {
        self.0@
    }
}

impl Clone for Vector {
    fn clone(&self) -> (r: Vector)
        ensures
            r@ == self@,
    {
        Vector(self.0.clone())
    }
}

impl AsRef<Vector> for Vector {
    fn as_ref(&self) -> (r: &Vector)
        ensures
            r@ == self@,
    {
        self
    }
}

/// What a dimension check returns for two dimensions.
pub open spec fn dimension_check(expected: nat, got: nat) -> Result<(), Error> {
    if expected == got {
        Ok(())
    } else {
        Err(Error::UnevenVectorLengths { expected: expected as usize, got: got as usize })
    }
}

/// What a dimension-checked operation returns whose result on vectors of one
/// dimension is `value`.
pub open spec fn guarded<T>(u: Seq<u32>, v: Seq<u32>, value: T) -> Result<T, Error> {
    match dimension_check(u.len(), v.len()) {
        Ok(_) => Ok(value),
        Err(e) => Err(e),
    }
}

/// Whether `r` is what a dimension-checked operation returns whose result on
/// vectors of one dimension is the vector with the entries `entries`.
pub open spec fn checked_vector(
    u: Seq<u32>,
    v: Seq<u32>,
    entries: Seq<u32>,
    r: Result<Vector, Error>,
) -> bool {
    match dimension_check(u.len(), v.len()) {
        Ok(_) => r is Ok && r->Ok_0@ == entries,
        Err(e) => r is Err && r->Err_0 == e,
    }
}

/// One operation on two patterns.
pub(crate) fn apply(op: Operation, a: u32, b: u32) -> (r: u32)
    ensures
        r == applied(op, a, b),
{
    match op {
        Operation::Add => fadd(a, b),
        Operation::Subtract => fsub(a, b),
        Operation::Multiply => fmul(a, b),
    }
}

/// Replaces each entry of the first store by its combination with the entry
/// of the second at its position.
fn combine_into(op: Operation, u: &mut Vec<u32>, v: &Vec<u32>)
    requires
        old(u).len() == v.len(),
    ensures
        final(u)@ == elementwise(op, old(u)@, v@),
{
    let mut i: usize = 0;
    while i < u.len()
        invariant
            i <= u.len(),
            u.len() == v.len(),
            u.len() == old(u).len(),
            forall|j: int| 0 <= j < i ==> u[j] == applied(op, old(u)[j], v[j]),
            forall|j: int| i <= j < u.len() ==> u[j] == old(u)[j],
        decreases u.len() - i,
    {
        let x: u32 = apply(op, u[i], v[i]);
        u.set(i, x);
        i = i + 1;
    }
    assert(u@ =~= elementwise(op, old(u)@, v@));
}

/// Replaces each entry of a store by its combination with one scalar.
fn spread_into(op: Operation, u: &mut Vec<u32>, c: u32)
    ensures
        final(u)@ == broadcast(op, old(u)@, c),
{
    let mut i: usize = 0;
    while i < u.len()
        invariant
            i <= u.len(),
            u.len() == old(u).len(),
            forall|j: int| 0 <= j < i ==> u[j] == applied(op, old(u)[j], c),
            forall|j: int| i <= j < u.len() ==> u[j] == old(u)[j],
        decreases u.len() - i,
    {
        let x: u32 = apply(op, u[i], c);
        u.set(i, x);
        i = i + 1;
    }
    assert(u@ =~= broadcast(op, old(u)@, c));
}

/// Combines two stores of one length entry by entry.
fn combine(op: Operation, u: &Vec<u32>, v: &Vec<u32>) -> (r: Vec<u32>)
    requires
        u.len() == v.len(),
    ensures
        r@ == elementwise(op, u@, v@),
{
    let mut r: Vec<u32> = u.clone();
    combine_into(op, &mut r, v);
    r
}

/// Combines every entry of a store with one scalar.
fn spread(op: Operation, u: &Vec<u32>, c: u32) -> (r: Vec<u32>)
    ensures
        r@ == broadcast(op, u@, c),
{
    let mut r: Vec<u32> = u.clone();
    spread_into(op, &mut r, c);
    r
}

impl Vector {
    /// The zero vector of dimension `len`.
    pub fn new(len: usize) -> (v: Vector)
        ensures
            v@ == zeros(len as nat),
    {
        let mut inner: Vec<u32> = Vec::new();
        let mut i: usize = 0;
        while i < len
            invariant
                i <= len,
                inner.len() == i,
                forall|j: int| 0 <= j < i ==> inner[j] == ZERO,
            decreases len - i,
        {
            inner.push(ZERO);
            i = i + 1;
        }
        assert(inner@ =~= zeros(len as nat));
        Vector(inner)
    }

    /// The vector of the given values, in their order.
    pub fn from_iter(values: Vec<u32>) -> (v: Vector)
        ensures
            v@ == values@,
    {
        Vector(values)
    }

    /// The values of the vector, in their order.
    pub fn to_vec(self) -> (values: Vec<u32>)
        ensures
            values@ == self@,
    {
        self.0
    }

    /// The number of entries.
    pub fn dim(&self) -> (n: usize)
        ensures
            n == self@.len(),
    {
        self.0.len()
    }

    /// The entry at position `i`.
    pub(crate) fn entry(&self, i: usize) -> (x: u32)
        requires
            i < self@.len(),
        ensures
            x == self@[i as int],
    {
        self.0[i]
    }

    /// Whether the two vectors have the same dimension.
    pub fn dim_eq(&self, other: &Vector) -> (same: bool)
        ensures
            same == (self@.len() == other@.len()),
    {
        self.0.len() == other.0.len()
    }

    /// Refuses a right operand whose dimension is not that of `self`.
    pub fn validate_dimensions(&self, other: &Vector) -> (r: Result<(), Error>)
        ensures
            r == dimension_check(self@.len(), other@.len()),
    {
        let self_dim: usize = self.dim();
        let other_dim: usize = other.dim();
        if self_dim != other_dim {
            return Err(Error::UnevenVectorLengths { expected: self_dim, got: other_dim });
        }
        Ok(())
    }

    /// The Euclidean length.
    pub fn length(&self) -> (r: u32)
        ensures
            r == norm(self@),
    {
        fsqrt(dot_kernel(&self.0, &self.0))
    }

    /// The dot product with a vector of the same dimension.
    pub fn dot(&self, other: &Vector) -> (r: Result<u32, Error>)
        ensures
            r == guarded(self@, other@, dot_product(self@, other@)),
    {
        match self.validate_dimensions(other) {
            Ok(_) => Ok(dot_kernel(&self.0, &other.0)),
            Err(e) => Err(e),
        }
    }

    /// The Euclidean length of the difference of the two vectors.
    pub fn distance(&self, other: &Vector) -> (r: Result<u32, Error>)
        ensures
            r == guarded(self@, other@, norm(elementwise(Operation::Subtract, self@, other@))),
    {
        match self.zip(Operation::Subtract, other) {
            Ok(diff) => Ok(diff.length()),
            Err(e) => Err(e),
        }
    }

    /// Whether the dot product of the two vectors is exactly zero, of either
    /// sign.
    pub fn is_orthogonal_with(&self, other: &Vector) -> (r: Result<bool, Error>)
        ensures
            r == guarded(self@, other@, is_zero(dot_product(self@, other@))),
    {
        match self.dot(other) {
            Ok(d) => Ok(d % SIGN_BIT == 0),
            Err(e) => Err(e),
        }
    }

    /// A new vector whose entries combine those of `self` with those of a
    /// vector of the same dimension.
    pub(crate) fn zip(&self, op: Operation, rhs: &Vector) -> (r: Result<Vector, Error>)
        ensures
            checked_vector(self@, rhs@, elementwise(op, self@, rhs@), r),
    {
        match self.validate_dimensions(rhs) {
            Ok(_) => Ok(Vector(combine(op, &self.0, &rhs.0))),
            Err(e) => Err(e),
        }
    }

    /// A new vector whose entries combine those of `self` with one scalar.
    pub(crate) fn map(&self, op: Operation, c: u32) -> (r: Vector)
        ensures
            r@ == broadcast(op, self@, c),
    {
        Vector(spread(op, &self.0, c))
    }

    /// Replaces the entries of `self` by their combination with those of a
    /// vector of the same dimension; on a mismatch `self` is left as it was.
    fn zip_assign(&mut self, op: Operation, rhs: &Vector) -> (r: Result<(), Error>)
        ensures
            r == dimension_check(old(self)@.len(), rhs@.len()),
            final(self)@ == (if r is Ok {
                elementwise(op, old(self)@, rhs@)
            } else {
                old(self)@
            }),
    {
        match self.validate_dimensions(rhs) {
            Ok(_) => {
                combine_into(op, &mut self.0, &rhs.0);
                Ok(())
            },
            Err(e) => Err(e),
        }
    }

    /// Adds a vector of the same dimension to `self`, entry by entry.
    pub fn add_assign(&mut self, rhs: &Vector) -> (r: Result<(), Error>)
        ensures
            r == dimension_check(old(self)@.len(), rhs@.len()),
            final(self)@ == (if r is Ok {
                elementwise(Operation::Add, old(self)@, rhs@)
            } else {
                old(self)@
            }),
    {
        self.zip_assign(Operation::Add, rhs)
    }

    /// Subtracts a vector of the same dimension from `self`, entry by entry.
    pub fn sub_assign(&mut self, rhs: &Vector) -> (r: Result<(), Error>)
        ensures
            r == dimension_check(old(self)@.len(), rhs@.len()),
            final(self)@ == (if r is Ok {
                elementwise(Operation::Subtract, old(self)@, rhs@)
            } else {
                old(self)@
            }),
    {
        self.zip_assign(Operation::Subtract, rhs)
    }

    /// Multiplies `self` by a vector of the same dimension, entry by entry.
    pub fn mul_assign(&mut self, rhs: &Vector) -> (r: Result<(), Error>)
        ensures
            r == dimension_check(old(self)@.len(), rhs@.len()),
            final(self)@ == (if r is Ok {
                elementwise(Operation::Multiply, old(self)@, rhs@)
            } else {
                old(self)@
            }),
    {
        self.zip_assign(Operation::Multiply, rhs)
    }

    /// Replaces the entries of `self` by their combination with one scalar.
    pub(crate) fn map_assign(&mut self, op: Operation, c: u32)
        ensures
            final(self)@ == broadcast(op, old(self)@, c),
    {
        spread_into(op, &mut self.0, c);
    }
}

/// The dot product of two stores of one length.
fn dot_kernel(u: &Vec<u32>, v: &Vec<u32>) -> (r: u32)
    requires
        u.len() == v.len(),
    ensures
        r == dot_product(u@, v@),
{
    let mut acc: u32 = ZERO;
    let mut i: usize = 0;
    while i < u.len()
        invariant
            i <= u.len(),
            u.len() == v.len(),
            acc == dot_product(u@.take(i as int), v@.take(i as int)),
        decreases u.len() - i,
    {
        proof {
            let un = u@.take(i + 1);
            let vn = v@.take(i + 1);
            assert(un.drop_last() =~= u@.take(i as int));
            assert(vn.drop_last() =~= v@.take(i as int));
        }
        acc = fadd(acc, fmul(u[i], v[i]));
        i = i + 1;
    }
    assert(u@.take(i as int) =~= u@);
    assert(v@.take(i as int) =~= v@);
    acc
}

} // verus!
