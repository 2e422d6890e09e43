use linrustgebra::{Error, Vector};

fn vector(values: &[f32]) -> Vector {
    Vector::from_iter(values.iter().map(|x| x.to_bits()).collect())
}

fn floats(v: &Vector) -> Vec<f32> {
    v.clone().to_vec().into_iter().map(f32::from_bits).collect()
}

fn init_vectors() -> (Vector, Vector, Vector, Vector) {
    let u = vector(&[-1., 2.]);
    let v = vector(&[2., 3.]);
    let w = vector(&[3., -1., -5.]);
    let x = vector(&[6., -2., 3.]);

    (u, v, w, x)
}

#[test]
fn operators_can_calculate_vector_addition() {
    let (u, v, _, _) = init_vectors();

    let res = &u + &v;

    let sums: Vec<f32> = floats(&u).iter().zip(floats(&v).iter()).map(|(x, y)| x + y).collect();
    let expected = vector(&sums);

    assert_eq!(res, Ok(expected));
}

#[test]
fn operators_can_calculate_vector_addition_with_number() {
    let (u, _, _, _) = init_vectors();

    let res = &u + 1f32.to_bits();
    let sums: Vec<f32> = floats(&u).iter().map(|x| x + 1.).collect();
    let expected = vector(&sums);
    assert_eq!(res, Ok(expected));
}

#[test]
fn can_add_and_assign_in_vector_addition() {
    let (mut u, v, _, _) = init_vectors();

    let sums: Vec<f32> = floats(&u).iter().zip(floats(&v).iter()).map(|(x, y)| x + y).collect();
    let expected = vector(&sums);

    assert_eq!(u.add_assign(&v), Ok(()));

    assert_eq!(u, expected);
}

#[test]
fn can_add_and_assign_in_vector_addition_with_number() {
    let (mut u, _, _, _) = init_vectors();

    let sums: Vec<f32> = floats(&u).iter().map(|x| x + 1.).collect();
    let expected = vector(&sums);

    u += 1f32.to_bits();

    assert_eq!(u, expected);
}

#[test]
fn operators_can_calculate_vector_subtraction() {
    let (u, v, _, _) = init_vectors();

    let res = &u - &v;

    let differences: Vec<f32> =
        floats(&u).iter().zip(floats(&v).iter()).map(|(x, y)| x - y).collect();
    let expected = vector(&differences);

    assert_eq!(res, Ok(expected));
}

#[test]
fn operators_can_calculate_vector_subtraction_with_number() {
    let (u, _, _, _) = init_vectors();

    let res = &u - 1f32.to_bits();
    let differences: Vec<f32> = floats(&u).iter().map(|x| x - 1.).collect();
    let expected = vector(&differences);

    assert_eq!(res, expected);
}

#[test]
fn can_subtract_and_assign_in_vector_subtraction() {
    let (mut u, v, _, _) = init_vectors();

    let differences: Vec<f32> =
        floats(&u).iter().zip(floats(&v).iter()).map(|(x, y)| x - y).collect();
    let expected = vector(&differences);

    assert_eq!(u.sub_assign(&v), Ok(()));

    assert_eq!(u, expected);
}

#[test]
fn can_substract_assign_in_vector_subtraction_with_number() {
    let (mut u, _, _, _) = init_vectors();

    let differences: Vec<f32> = floats(&u).iter().map(|x| x - 1.).collect();
    let expected = vector(&differences);

    u -= 1f32.to_bits();

    assert_eq!(u, expected);
}

#[test]
fn operators_can_calculate_vector_multiplication() {
    let (u, v, _, _) = init_vectors();

    let res = &u * &v;

    assert_eq!(res.map(f32::from_bits), Ok(4.));
}

#[test]
fn operators_can_calculate_vector_multiplication_with_number() {
    let (u, _, _, _) = init_vectors();

    let res = &u * 2f32.to_bits();

    let products: Vec<f32> = floats(&u).iter().map(|x| x * 2.).collect();
    let expected = vector(&products);

    assert_eq!(res, expected);
}

#[test]
fn can_multiply_and_assign_in_vector_multiplication() {
    let (mut u, v, _, _) = init_vectors();

    let products: Vec<f32> =
        floats(&u).iter().zip(floats(&v).iter()).map(|(x, y)| x * y).collect();
    let expected = vector(&products);

    assert_eq!(u.mul_assign(&v), Ok(()));

    assert_eq!(u, expected);
}

#[test]
fn can_multiply_assign_in_vector_multiplication_with_number() {
    let (mut u, _, _, _) = init_vectors();

    let products: Vec<f32> = floats(&u).iter().map(|x| x * 1.).collect();
    let expected = vector(&products);

    u *= 1f32.to_bits();

    assert_eq!(u, expected);
}

#[test]
fn operators_can_calculate_square() {
    let (u, _, _, _) = init_vectors();
    let res = &u * &u;

    assert_eq!(res.map(f32::from_bits), Ok(5.));
}

#[test]
fn exact_entries_of_each_operator() {
    let (u, v, _, _) = init_vectors();
    assert_eq!(floats(&(&u + &v).unwrap()), vec![1., 5.]);
    assert_eq!(floats(&(&u - &v).unwrap()), vec![-3., -1.]);
    assert_eq!(floats(&(&u + 1f32.to_bits()).unwrap()), vec![0., 3.]);
    assert_eq!(floats(&(&u - 1f32.to_bits())), vec![-2., 1.]);
    assert_eq!(floats(&(&u * 2f32.to_bits())), vec![-2., 4.]);
    let mut p = u.clone();
    assert_eq!(p.mul_assign(&v), Ok(()));
    assert_eq!(floats(&p), vec![-2., 6.]);
}

#[test]
fn owned_and_borrowed_forms_agree() {
    let (u, v, _, _) = init_vectors();
    let c = 0.75f32.to_bits();
    assert_eq!(u.clone() + &v, &u + &v);
    assert_eq!(u.clone() - &v, &u - &v);
    assert_eq!(u.clone() * &v, &u * &v);
    assert_eq!(u.clone() + c, &u + c);
    assert_eq!(u.clone() - c, &u - c);
    assert_eq!(u.clone() * c, &u * c);
    // the borrowed operands are as they were
    assert_eq!(floats(&u), vec![-1., 2.]);
    assert_eq!(floats(&v), vec![2., 3.]);
}

#[test]
fn assign_forms_agree_with_value_forms() {
    let (u, v, _, _) = init_vectors();
    let c = 0.3f32.to_bits();
    let mut a = u.clone();
    assert_eq!(a.add_assign(&v), Ok(()));
    assert_eq!(Ok(a), &u + &v);
    let mut s = u.clone();
    assert_eq!(s.sub_assign(&v), Ok(()));
    assert_eq!(Ok(s), &u - &v);
    let mut a = u.clone();
    a += c;
    assert_eq!(Ok(a), &u + c);
    let mut s = u.clone();
    s -= c;
    assert_eq!(s, &u - c);
    let mut m = u.clone();
    m *= c;
    assert_eq!(m, &u * c);
}

#[test]
fn mismatched_operands_are_refused_by_every_operator() {
    let (u, _, w, _) = init_vectors();
    let mismatch = Error::UnevenVectorLengths { expected: 2, got: 3 };
    assert_eq!(&u + &w, Err(mismatch));
    assert_eq!(u.clone() + &w, Err(mismatch));
    assert_eq!(&u - &w, Err(mismatch));
    assert_eq!(u.clone() - &w, Err(mismatch));
    assert_eq!(&u * &w, Err(mismatch));
    assert_eq!(u.clone() * &w, Err(mismatch));
    assert_eq!(&w * &u, Err(Error::UnevenVectorLengths { expected: 3, got: 2 }));
}

#[test]
fn mismatched_assignments_change_nothing() {
    let (u, _, w, _) = init_vectors();
    let mismatch = Error::UnevenVectorLengths { expected: 2, got: 3 };
    let mut a = u.clone();
    assert_eq!(a.add_assign(&w), Err(mismatch));
    assert_eq!(a.clone().to_vec(), u.clone().to_vec());
    assert_eq!(a.sub_assign(&w), Err(mismatch));
    assert_eq!(a.clone().to_vec(), u.clone().to_vec());
    assert_eq!(a.mul_assign(&w), Err(mismatch));
    assert_eq!(a.to_vec(), u.to_vec());
}
