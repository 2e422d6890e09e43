use linrustgebra::{Error, Vector};
use std::cmp::Ordering;

fn vector(values: &[f32]) -> Vector {
    Vector::from_iter(values.iter().map(|x| x.to_bits()).collect())
}

fn floats(v: &Vector) -> Vec<f32> {
    v.clone().to_vec().into_iter().map(f32::from_bits).collect()
}

fn init_vectors() -> (Vector, Vector, Vector, Vector) {
    let u = vector(&[-1., 2.]);
    let v = vector(&[2., 3.]);
    let w = vector(&[3., -1., -5.]);
    let x = vector(&[6., -2., 3.]);

    (u, v, w, x)
}

#[test]
fn lib_can_calculate_vector_addition() {
    let (u, v, _, _) = init_vectors();

    let res = &u + &v;

    let sums: Vec<f32> = floats(&u).iter().zip(floats(&v).iter()).map(|(x, y)| x + y).collect();
    let expected = vector(&sums);

    assert_eq!(res, Ok(expected));
}

#[test]
fn lib_can_calculate_vector_addition_with_number() {
    let (u, _, _, _) = init_vectors();

    let res = &u + 1f32.to_bits();
    let sums: Vec<f32> = floats(&u).iter().map(|x| x + 1.).collect();
    let expected = vector(&sums);
    assert_eq!(res, Ok(expected));
}

#[test]
fn lib_can_calculate_vector_subtraction() {
    let (u, v, _, _) = init_vectors();

    let res = &u - &v;

    let differences: Vec<f32> =
        floats(&u).iter().zip(floats(&v).iter()).map(|(x, y)| x - y).collect();
    let expected = vector(&differences);

    assert_eq!(res, Ok(expected));
}

#[test]
fn lib_can_calculate_vector_subtraction_with_number() {
    let (u, _, _, _) = init_vectors();

    let res = &u - 1f32.to_bits();
    let differences: Vec<f32> = floats(&u).iter().map(|x| x - 1.).collect();
    let expected = vector(&differences);

    assert_eq!(res, expected);
}

#[test]
fn lib_can_calculate_vector_multiplication() {
    let (u, v, _, _) = init_vectors();

    let res = &u * &v;

    assert_eq!(res.map(f32::from_bits), Ok(4.));
}

#[test]
fn lib_can_calculate_vector_multiplication_with_number() {
    let (u, _, _, _) = init_vectors();

    let res = &u * 2f32.to_bits();

    let products: Vec<f32> = floats(&u).iter().map(|x| x * 2.).collect();
    let expected = vector(&products);

    assert_eq!(res, expected);
}

#[test]
fn lib_can_calculate_square() {
    let (u, _, _, _) = init_vectors();
    let res = &u * &u;

    assert_eq!(res.map(f32::from_bits), Ok(5.));
}

#[test]
fn can_calculate_dot_product() {
    let (u, v, _, _) = init_vectors();
    let res = u * &v;

    assert_eq!(res.map(f32::from_bits), Ok(4.));
}

#[test]
fn can_calculate_length() {
    let (_, _, w, _) = init_vectors();
    let res = w.length();

    assert_eq!(f32::from_bits(res), f32::sqrt(35.0));
}

#[test]
fn can_calculate_distance() {
    let (u, v, _, _) = init_vectors();
    let res = u.distance(&v);

    assert_eq!(res.map(f32::from_bits), Ok(f32::sqrt(10.0)));
}

#[test]
fn can_calculate_orthogonality() -> Result<(), Error> {
    let u = vector(&[2., 4., 1.]);
    let v = vector(&[2., 1., -8.]);

    assert!(u.is_orthogonal_with(&v)?);

    Ok(())
}

#[test]
fn new_is_zero_filled() {
    assert_eq!(Vector::new(4).to_vec(), vec![0u32; 4]);
    assert_eq!(Vector::new(0).to_vec(), Vec::<u32>::new());
    assert_eq!(Vector::new(0).dim(), 0);
}

#[test]
fn from_iter_keeps_order_and_count() {
    let v = vector(&[3., -1., -5., 0.25]);
    assert_eq!(v.dim(), 4);
    assert_eq!(floats(&v), vec![3., -1., -5., 0.25]);
}

#[test]
fn a_vector_refers_to_itself() {
    let (u, _, _, _) = init_vectors();
    let same: &Vector = u.as_ref();
    assert_eq!(same.clone().to_vec(), u.clone().to_vec());
    assert_eq!(u.clone().to_vec(), vec![(-1f32).to_bits(), 2f32.to_bits()]);
}

#[test]
fn dim_eq_compares_dimensions_only() {
    let (u, v, w, _) = init_vectors();
    assert!(u.dim_eq(&v));
    assert!(!u.dim_eq(&w));
    assert!(Vector::new(0).dim_eq(&Vector::new(0)));
}

#[test]
fn validate_dimensions_reports_both_dimensions() {
    let (u, v, w, _) = init_vectors();
    assert_eq!(u.validate_dimensions(&v), Ok(()));
    assert_eq!(
        u.validate_dimensions(&w),
        Err(Error::UnevenVectorLengths { expected: 2, got: 3 })
    );
    assert_eq!(
        w.validate_dimensions(&u),
        Err(Error::UnevenVectorLengths { expected: 3, got: 2 })
    );
}

#[test]
fn length_of_empty_vector_is_zero() {
    assert_eq!(Vector::new(0).length(), 0);
    assert_eq!(f32::from_bits(Vector::new(0).length()), 0.0);
}

#[test]
fn dot_product_adds_in_order() {
    // 1e8 + 1 rounds back to 1e8, so the order of the additions shows
    let u = vector(&[1e8, 1., -1e8]);
    let ones = vector(&[1., 1., 1.]);
    assert_eq!(u.dot(&ones).map(f32::from_bits), Ok(0.));
    let u = vector(&[1e8, -1e8, 1.]);
    assert_eq!(u.dot(&ones).map(f32::from_bits), Ok(1.));
}

#[test]
fn orthogonality_is_exact() {
    let u = vector(&[1., 1.]);
    let v = vector(&[1., -1.]);
    assert_eq!(u.is_orthogonal_with(&v), Ok(true));
    let nearly = vector(&[1., -0.99999994]);
    assert_eq!(u.is_orthogonal_with(&nearly), Ok(false));
    // a dot product of negative zero counts as zero
    let a = vector(&[-0.0]);
    let b = vector(&[0.0]);
    assert_eq!(a.is_orthogonal_with(&b), Ok(true));
    // a NaN is not zero
    let n = vector(&[f32::NAN]);
    assert_eq!(n.is_orthogonal_with(&b), Ok(false));
}

#[test]
fn nan_and_infinity_pass_through() {
    let inf = vector(&[f32::INFINITY, 1.]);
    let res = (&inf - &inf).unwrap();
    let entries = floats(&res);
    assert!(entries[0].is_nan());
    assert_eq!(entries[1], 0.);
    assert_eq!(f32::from_bits(inf.length()), f32::INFINITY);
    let big = vector(&[3e38, 3e38]);
    assert_eq!(f32::from_bits(big.length()), f32::INFINITY);
    assert_eq!(floats(&(&big + &big).unwrap()), vec![f32::INFINITY, f32::INFINITY]);
    let n = vector(&[f32::NAN, 1.]);
    assert!(f32::from_bits(n.length()).is_nan());
    assert!(f32::from_bits(n.dot(&inf).unwrap()).is_nan());
}

#[test]
fn equality_is_that_of_the_values() {
    assert_eq!(vector(&[0.0, 1.]), vector(&[-0.0, 1.]));
    assert_ne!(vector(&[1., 2.]), vector(&[1., 2., 0.]));
    assert_ne!(vector(&[1., 2.]), vector(&[1., 3.]));
    let n = vector(&[f32::NAN]);
    assert_ne!(n, n.clone());
    assert_eq!(Vector::new(0), Vector::new(0));
}

#[test]
fn order_is_lexicographic() {
    assert_eq!(vector(&[1., 2.]).partial_cmp(&vector(&[1., 3.])), Some(Ordering::Less));
    assert_eq!(vector(&[1., 2.]).partial_cmp(&vector(&[1., 2.])), Some(Ordering::Equal));
    assert_eq!(vector(&[2.]).partial_cmp(&vector(&[1., 3.])), Some(Ordering::Greater));
    assert_eq!(vector(&[1.]).partial_cmp(&vector(&[1., -3.])), Some(Ordering::Less));
    assert_eq!(vector(&[1., 0.]).partial_cmp(&vector(&[1.])), Some(Ordering::Greater));
    assert_eq!(vector(&[-0.0]).partial_cmp(&vector(&[0.0])), Some(Ordering::Equal));
    assert_eq!(vector(&[1., f32::NAN]).partial_cmp(&vector(&[1., 3.])), None);
    assert_eq!(vector(&[0., f32::NAN]).partial_cmp(&vector(&[1., 3.])), Some(Ordering::Less));
    assert!(vector(&[-1., 5.]) < vector(&[-0.5]));
    assert!(vector(&[f32::NEG_INFINITY]) < vector(&[-3e38]));
}

#[test]
fn order_agrees_with_that_of_float_vectors() {
    let values = [0.0f32, -0.0, 1., -1., 2.5, f32::INFINITY, f32::NEG_INFINITY, f32::NAN, 1e-45];
    let mut lists: Vec<Vec<f32>> = vec![vec![]];
    for &a in &values {
        lists.push(vec![a]);
        for &b in &values {
            lists.push(vec![a, b]);
        }
    }
    for p in &lists {
        for q in &lists {
            assert_eq!(vector(p).partial_cmp(&vector(q)), p.partial_cmp(q), "{p:?} {q:?}");
            assert_eq!(vector(p) == vector(q), p == q, "{p:?} {q:?}");
        }
    }
}
