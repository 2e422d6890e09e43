use linrustgebra::{Error, Matrix};

#[test]
fn matrix_without_rows_or_columns_is_refused() {
    assert!(matches!(Matrix::new(0, 3), Err(Error::InvalidInitialMatrixDimensions)));
    assert!(matches!(Matrix::new(3, 0), Err(Error::InvalidInitialMatrixDimensions)));
    assert!(matches!(Matrix::new(0, 0), Err(Error::InvalidInitialMatrixDimensions)));
}

#[test]
fn matrix_starts_as_rows_of_zeros() {
    let m = match Matrix::new(2, 3) {
        Ok(m) => m,
        Err(e) => panic!("{e:?}"),
    };
    assert_eq!(m.rows(), 2);
    assert_eq!(m.cols(), 3);
    let rows = m.into_rows();
    assert_eq!(rows.len(), 2);
    for row in rows {
        assert_eq!(row.to_vec(), vec![0u32, 0, 0]);
    }
}

#[test]
fn smallest_matrix() {
    let m = match Matrix::new(1, 1) {
        Ok(m) => m,
        Err(e) => panic!("{e:?}"),
    };
    assert_eq!(m.rows(), 1);
    assert_eq!(m.cols(), 1);
}
