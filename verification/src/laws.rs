//! What holds of the vector operations for all vectors.

use crate::binary32::{
    equal, is_nan, is_negative, magnitude, magnitude_bits, product, root, sum, value, INFINITY,
    NEG_ZERO, ONE, ZERO,
};
use crate::error::Error;
use crate::model::{broadcast, dot_product, elementwise, norm, same_entries, zeros, Operation};
use crate::root::lemma_round_root_finite;
use crate::rounding::{lemma_round_exact, lemma_round_zero};
use crate::vector::{checked_vector, dimension_check, guarded, Vector};
use vstd::arithmetic::power2::{lemma2_to64, lemma_pow2_adds, lemma_pow2_pos, pow2};
use vstd::prelude::*;

verus! {

/// Whether no entry of a vector is a NaN.
pub open spec fn free_of_nan(u: Seq<u32>) -> bool {
    forall|i: int| 0 <= i < u.len() ==> !is_nan(#[trigger] u[i])
}

/// Adding positive zero to a value that is no NaN gives an equal value: the
/// same pattern, but for negative zero, which becomes positive zero.
pub proof fn lemma_sum_zero(x: u32)
    requires
        !is_nan(x),
    ensures
        equal(sum(x, ZERO), x),
        x != NEG_ZERO ==> sum(x, ZERO) == x,
{
    let b = magnitude_bits(x);
    assert(magnitude(0) == 0) by (nonlinear_arith)
        requires
            magnitude(0) == 0 * pow2(0),
    ;
    if b < INFINITY {
        assert(magnitude(b) * 1 == magnitude(b)) by (nonlinear_arith);
        lemma_round_exact(b, 1);
        if value(x) == 0 {
            lemma_round_zero(1);
            assert(b == 0);
        }
    }
}

/// Multiplying a value that is no NaN by one gives the same pattern.
pub proof fn lemma_product_one(x: u32)
    requires
        !is_nan(x),
    ensures
        product(x, ONE) == x,
{
    let b = magnitude_bits(x);
    lemma2_to64();
    assert(magnitude(ONE as nat) == pow2(149)) by {
        lemma_pow2_adds(23, 126);
    }
    lemma_pow2_pos(149);
    if b < INFINITY {
        lemma_round_exact(b, pow2(149));
    }
}

/// Whether a pattern is positive zero, a positive value or positive
/// infinity: no NaN, and the sign bit clear.
pub open spec fn at_least_zero(x: u32) -> bool {
    x <= INFINITY
}

/// The square of a value that is no NaN is at least zero.
pub proof fn lemma_square_sign(x: u32)
    requires
        !is_nan(x),
    ensures
        at_least_zero(product(x, x)),
{
}

/// The sum of two values that are at least zero is at least zero.
pub proof fn lemma_sum_sign(a: u32, b: u32)
    requires
        at_least_zero(a),
        at_least_zero(b),
    ensures
        at_least_zero(sum(a, b)),
{
}

/// The square root of a value that is at least zero is at least zero.
pub proof fn lemma_root_sign(x: u32)
    requires
        at_least_zero(x),
    ensures
        at_least_zero(root(x)),
{
    if 0 < x < INFINITY {
        lemma_round_root_finite(x as nat);
    }
}

/// The dot product of a vector without NaN with itself is at least zero.
pub proof fn lemma_square_sum_sign(u: Seq<u32>)
    requires
        free_of_nan(u),
    ensures
        at_least_zero(dot_product(u, u)),
    decreases u.len(),
{
    if u.len() > 0 {
        lemma_square_sum_sign(u.drop_last());
        lemma_square_sign(u.last());
        lemma_sum_sign(dot_product(u.drop_last(), u.drop_last()), product(u.last(), u.last()));
    }
}

/// The dot product of two zero vectors is positive zero.
pub proof fn lemma_dot_zeros(n: nat)
    ensures
        dot_product(zeros(n), zeros(n)) == ZERO,
    decreases n,
{
    if n > 0 {
        lemma_dot_zeros((n - 1) as nat);
        assert(zeros(n).drop_last() =~= zeros((n - 1) as nat));
        lemma_pow2_pos(149);
        assert(magnitude(0) * magnitude(0) == 0) by (nonlinear_arith)
            requires
                magnitude(0) == 0 * pow2(0),
        ;
        lemma_round_zero(pow2(149));
    }
}

/// The sum of two vectors of one dimension has that dimension, and each of
/// its entries is the binary32 sum of the two entries at its position.
pub proof fn law_sum_entries(u: Seq<u32>, v: Seq<u32>, i: int)
    requires
        u.len() == v.len(),
        0 <= i < u.len(),
    ensures
        elementwise(Operation::Add, u, v).len() == u.len(),
        elementwise(Operation::Add, u, v)[i] == sum(u[i], v[i]),
{
}

/// Every operation that checks dimensions refuses two vectors of unequal
/// dimensions, whatever it would have returned, with an error that holds
/// the dimension of the left operand as `expected` and that of the right one
/// as `got`.
pub proof fn law_unequal_dimensions_refused<T>(
    u: Seq<u32>,
    v: Seq<u32>,
    value: T,
    entries: Seq<u32>,
    r: Result<Vector, Error>,
)
    requires
        u.len() != v.len(),
        u.len() <= usize::MAX,
        v.len() <= usize::MAX,
    ensures
        dimension_check(u.len(), v.len()) == Err::<(), Error>(
            Error::UnevenVectorLengths { expected: u.len() as usize, got: v.len() as usize },
        ),
        guarded(u, v, value) == Err::<T, Error>(
            Error::UnevenVectorLengths { expected: u.len() as usize, got: v.len() as usize },
        ),
        checked_vector(u, v, entries, r) ==> r == Err::<Vector, Error>(
            Error::UnevenVectorLengths { expected: u.len() as usize, got: v.len() as usize },
        ),
{
}

/// Adding the zero vector of its dimension to a vector without NaN gives a
/// vector equal to it.
pub proof fn law_add_zero(u: Seq<u32>)
    requires
        free_of_nan(u),
    ensures
        same_entries(elementwise(Operation::Add, u, zeros(u.len())), u),
{
    let w = elementwise(Operation::Add, u, zeros(u.len()));
    assert forall|i: int| 0 <= i < w.len() implies equal(#[trigger] w[i], u[i]) by {
        lemma_sum_zero(u[i]);
    }
}

/// Multiplying a vector without NaN by the scalar one gives a vector equal
/// to it, and with the same patterns.
pub proof fn law_scale_one(u: Seq<u32>)
    requires
        free_of_nan(u),
    ensures
        broadcast(Operation::Multiply, u, ONE) == u,
        same_entries(broadcast(Operation::Multiply, u, ONE), u),
{
    let w = broadcast(Operation::Multiply, u, ONE);
    assert forall|i: int| 0 <= i < w.len() implies w[i] == u[i] by {
        lemma_product_one(u[i]);
    }
    assert(w =~= u);
}

/// A vector rebuilt from the values that it was consumed into has the same
/// patterns in the same order, and equals the first when that has no NaN.
/// Here `values` is what `to_vec` gave for `v`, and `rebuilt` what
/// `from_iter` gave for `values`.
pub proof fn law_round_trip(v: Vector, values: Vec<u32>, rebuilt: Vector)
    requires
        values@ == v@,
        rebuilt@ == values@,
    ensures
        rebuilt@ == v@,
        free_of_nan(v@) ==> same_entries(rebuilt@, v@),
{
}

/// A vector equals itself exactly when it has no NaN.
pub proof fn law_equal_to_itself(u: Seq<u32>)
    ensures
        same_entries(u, u) <==> free_of_nan(u),
{
    if same_entries(u, u) {
        assert forall|i: int| 0 <= i < u.len() implies !is_nan(#[trigger] u[i]) by {
            assert(equal(u[i], u[i]));
        }
    }
}

/// The length of a vector without NaN is no NaN and is not negative.
pub proof fn law_length_sign(u: Seq<u32>)
    requires
        free_of_nan(u),
    ensures
        !is_nan(norm(u)),
        !is_negative(norm(u)),
{
    lemma_square_sum_sign(u);
    lemma_root_sign(dot_product(u, u));
}

/// The length of a zero vector is positive zero.
pub proof fn law_length_of_zeros(n: nat)
    ensures
        norm(zeros(n)) == ZERO,
{
    lemma_dot_zeros(n);
}

} // verus!
