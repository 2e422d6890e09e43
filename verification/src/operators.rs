//! The arithmetic operators on vectors.
//!
//! Each operator is a thin layer over the one kernel of its operation, in an
//! owned and a borrowed form that return the same. Where an operator returns
//! a vector, its contract stands on the method itself, over the views of the
//! operands, and the operator specification of `vstd` is declared as not
//! describing the result.
//!
//! The in-place forms with a scalar are the assignment operators. Those
//! with a vector can fail, which an assignment operator cannot report: they
//! are the methods `add_assign`, `sub_assign` and `mul_assign` of [`Vector`].

use crate::error::Error;
use crate::model::{broadcast, dot_product, elementwise, Operation};
use crate::vector::{checked_vector, guarded, Vector};
use core::ops::{Add, AddAssign, Mul, MulAssign, Sub, SubAssign};
use vstd::prelude::*;
use vstd::std_specs::ops::{AddSpecImpl, MulSpecImpl, SubSpecImpl};

verus! {

/// The entry-by-entry sum of two vectors of one dimension, borrowed form.
impl Add<&Vector> for &Vector {
    type Output = Result<Vector, Error>;

    fn add(self, rhs: &Vector) -> (r: Result<Vector, Error>)
        ensures
            checked_vector(self@, rhs@, elementwise(Operation::Add, self@, rhs@), r),
    {
        self.zip(Operation::Add, rhs)
    }
}

impl AddSpecImpl<&Vector> for &Vector {
    open spec fn obeys_add_spec() -> bool {
        false
    }

    open spec fn add_req(self, rhs: &Vector) -> bool {
        true
    }

    open spec fn add_spec(self, rhs: &Vector) -> Result<Vector, Error> {
        arbitrary()
    }
}

/// The entry-by-entry sum of two vectors of one dimension, owned form.
impl Add<&Vector> for Vector {
    type Output = Result<Vector, Error>;

    fn add(self, rhs: &Vector) -> (r: Result<Vector, Error>)
        ensures
            checked_vector(self@, rhs@, elementwise(Operation::Add, self@, rhs@), r),
    {
        (&self).zip(Operation::Add, rhs)
    }
}

impl AddSpecImpl<&Vector> for Vector {
    open spec fn obeys_add_spec() -> bool {
        false
    }

    open spec fn add_req(self, rhs: &Vector) -> bool {
        true
    }

    open spec fn add_spec(self, rhs: &Vector) -> Result<Vector, Error> {
        arbitrary()
    }
}

/// The vector with a scalar added to every entry, borrowed form. It never
/// fails.
impl Add<u32> for &Vector {
    type Output = Result<Vector, Error>;

    fn add(self, rhs: u32) -> (r: Result<Vector, Error>)
        ensures
            r is Ok && r->Ok_0@ == broadcast(Operation::Add, self@, rhs),
    {
        Ok(self.map(Operation::Add, rhs))
    }
}

impl AddSpecImpl<u32> for &Vector {
    open spec fn obeys_add_spec() -> bool {
        false
    }

    open spec fn add_req(self, rhs: u32) -> bool {
        true
    }

    open spec fn add_spec(self, rhs: u32) -> Result<Vector, Error> {
        arbitrary()
    }
}

/// The vector with a scalar added to every entry, owned form. It never
/// fails.
impl Add<u32> for Vector {
    type Output = Result<Vector, Error>;

    fn add(self, rhs: u32) -> (r: Result<Vector, Error>)
        ensures
            r is Ok && r->Ok_0@ == broadcast(Operation::Add, self@, rhs),
    {
        Ok((&self).map(Operation::Add, rhs))
    }
}

impl AddSpecImpl<u32> for Vector {
    open spec fn obeys_add_spec() -> bool {
        false
    }

    open spec fn add_req(self, rhs: u32) -> bool {
        true
    }

    open spec fn add_spec(self, rhs: u32) -> Result<Vector, Error> {
        arbitrary()
    }
}

/// The entry-by-entry difference of two vectors of one dimension, borrowed form.
impl Sub<&Vector> for &Vector {
    type Output = Result<Vector, Error>;

    fn sub(self, rhs: &Vector) -> (r: Result<Vector, Error>)
        ensures
            checked_vector(self@, rhs@, elementwise(Operation::Subtract, self@, rhs@), r),
    {
        self.zip(Operation::Subtract, rhs)
    }
}

impl SubSpecImpl<&Vector> for &Vector {
    open spec fn obeys_sub_spec() -> bool {
        false
    }

    open spec fn sub_req(self, rhs: &Vector) -> bool {
        true
    }

    open spec fn sub_spec(self, rhs: &Vector) -> Result<Vector, Error> {
        arbitrary()
    }
}

/// The entry-by-entry difference of two vectors of one dimension, owned form.
impl Sub<&Vector> for Vector {
    type Output = Result<Vector, Error>;

    fn sub(self, rhs: &Vector) -> (r: Result<Vector, Error>)
        ensures
            checked_vector(self@, rhs@, elementwise(Operation::Subtract, self@, rhs@), r),
    {
        (&self).zip(Operation::Subtract, rhs)
    }
}

impl SubSpecImpl<&Vector> for Vector {
    open spec fn obeys_sub_spec() -> bool {
        false
    }

    open spec fn sub_req(self, rhs: &Vector) -> bool {
        true
    }

    open spec fn sub_spec(self, rhs: &Vector) -> Result<Vector, Error> {
        arbitrary()
    }
}

/// The vector with a scalar subtracted from every entry, borrowed form.
impl Sub<u32> for &Vector {
    type Output = Vector;

    fn sub(self, rhs: u32) -> (r: Vector)
        ensures
            r@ == broadcast(Operation::Subtract, self@, rhs),
    {
        self.map(Operation::Subtract, rhs)
    }
}

impl SubSpecImpl<u32> for &Vector {
    open spec fn obeys_sub_spec() -> bool {
        false
    }

    open spec fn sub_req(self, rhs: u32) -> bool {
        true
    }

    open spec fn sub_spec(self, rhs: u32) -> Vector {
        arbitrary()
    }
}

/// The vector with a scalar subtracted from every entry, owned form.
impl Sub<u32> for Vector {
    type Output = Vector;

    fn sub(self, rhs: u32) -> (r: Vector)
        ensures
            r@ == broadcast(Operation::Subtract, self@, rhs),
    {
        (&self).map(Operation::Subtract, rhs)
    }
}

impl SubSpecImpl<u32> for Vector {
    open spec fn obeys_sub_spec() -> bool {
        false
    }

    open spec fn sub_req(self, rhs: u32) -> bool {
        true
    }

    open spec fn sub_spec(self, rhs: u32) -> Vector {
        arbitrary()
    }
}

/// The vector with every entry multiplied by a scalar, borrowed form.
impl Mul<u32> for &Vector {
    type Output = Vector;

    fn mul(self, rhs: u32) -> (r: Vector)
        ensures
            r@ == broadcast(Operation::Multiply, self@, rhs),
    {
        self.map(Operation::Multiply, rhs)
    }
}

impl MulSpecImpl<u32> for &Vector {
    open spec fn obeys_mul_spec() -> bool {
        false
    }

    open spec fn mul_req(self, rhs: u32) -> bool {
        true
    }

    open spec fn mul_spec(self, rhs: u32) -> Vector {
        arbitrary()
    }
}

/// The vector with every entry multiplied by a scalar, owned form.
impl Mul<u32> for Vector {
    type Output = Vector;

    fn mul(self, rhs: u32) -> (r: Vector)
        ensures
            r@ == broadcast(Operation::Multiply, self@, rhs),
    {
        (&self).map(Operation::Multiply, rhs)
    }
}

impl MulSpecImpl<u32> for Vector {
    open spec fn obeys_mul_spec() -> bool {
        false
    }

    open spec fn mul_req(self, rhs: u32) -> bool {
        true
    }

    open spec fn mul_spec(self, rhs: u32) -> Vector {
        arbitrary()
    }
}

/// The dot product of two vectors of one dimension, borrowed form: a scalar,
/// not the entry-by-entry product.
impl Mul<&Vector> for &Vector {
    type Output = Result<u32, Error>;

    fn mul(self, rhs: &Vector) -> (r: Result<u32, Error>)
        ensures
            r == guarded(self@, rhs@, dot_product(self@, rhs@)),
    {
        self.dot(rhs)
    }
}

impl MulSpecImpl<&Vector> for &Vector {
    open spec fn obeys_mul_spec() -> bool {
        true
    }

    open spec fn mul_req(self, rhs: &Vector) -> bool {
        true
    }

    open spec fn mul_spec(self, rhs: &Vector) -> Result<u32, Error> {
        guarded(self@, rhs@, dot_product(self@, rhs@))
    }
}

/// The dot product of two vectors of one dimension, owned form: a scalar,
/// not the entry-by-entry product.
impl Mul<&Vector> for Vector {
    type Output = Result<u32, Error>;

    fn mul(self, rhs: &Vector) -> (r: Result<u32, Error>)
        ensures
            r == guarded(self@, rhs@, dot_product(self@, rhs@)),
    {
        (&self).dot(rhs)
    }
}

impl MulSpecImpl<&Vector> for Vector {
    open spec fn obeys_mul_spec() -> bool {
        true
    }

    open spec fn mul_req(self, rhs: &Vector) -> bool {
        true
    }

    open spec fn mul_spec(self, rhs: &Vector) -> Result<u32, Error> {
        guarded(self@, rhs@, dot_product(self@, rhs@))
    }
}

/// Adds a scalar to every entry of the vector, in place.
impl AddAssign<u32> for Vector {
    fn add_assign(&mut self, rhs: u32)
        ensures
            final(self)@ == broadcast(Operation::Add, old(self)@, rhs),
    {
        self.map_assign(Operation::Add, rhs)
    }
}

/// Subtracts a scalar from every entry of the vector, in place.
impl SubAssign<u32> for Vector {
    fn sub_assign(&mut self, rhs: u32)
        ensures
            final(self)@ == broadcast(Operation::Subtract, old(self)@, rhs),
    {
        self.map_assign(Operation::Subtract, rhs)
    }
}

/// Multiplies every entry of the vector by a scalar, in place.
impl MulAssign<u32> for Vector {
    fn mul_assign(&mut self, rhs: u32)
        ensures
            final(self)@ == broadcast(Operation::Multiply, old(self)@, rhs),
    {
        self.map_assign(Operation::Multiply, rhs)
    }
}

} // verus!
