use deep_tch::errors::AutodiffError;
use deep_tch::matrix::Matrix;
use deep_tch::scalar::Scalar;

fn row(values: &[i64]) -> Vec<Scalar> {
    values.iter().map(|&v| Scalar::from_int(v)).collect()
}

#[test]
fn test_weird_matrix() {
    let m = Matrix::new(vec![row(&[1])]).unwrap();
    assert_eq!(m.data, vec![row(&[1])]);
}

#[test]
fn test_invalid_matrix() {
    let m = Matrix::new(vec![row(&[1]), row(&[2, 3])]);
    assert!(m.is_err());
}

#[test]
fn test_matmul() {
    let m = Matrix::new(vec![row(&[1, 2]), row(&[3, 4])]).unwrap();
    let n = Matrix::new(vec![row(&[5, 6]), row(&[7, 8])]).unwrap();
    let p = m.matmul(&n).unwrap();
    assert_eq!(p.data, vec![row(&[19, 22]), row(&[43, 50])]);
}

#[test]
fn test_get() {
    let m = Matrix::new(vec![row(&[1, 2]), row(&[3, 4])]).unwrap();
    assert_eq!(m.get(1, 1).unwrap(), Scalar::from_int(4));
}

#[test]
fn test_set() {
    let mut m = Matrix::new(vec![row(&[1, 2]), row(&[3, 4])]).unwrap();
    m.set(1, 1, Scalar::from_int(69)).unwrap();
    assert_eq!(m.get(1, 1).unwrap(), Scalar::from_int(69));
}

#[test]
fn test_transpose() {
    let m = Matrix::new(vec![row(&[1, 2]), row(&[3, 4])]).unwrap();
    let p = m.transpose();
    assert_eq!(p.data, vec![row(&[1, 3]), row(&[2, 4])]);
}

#[test]
fn test_matmul_shape_law() {
    let a = Matrix::zeros(2, 3);
    let b = Matrix::zeros(3, 4);
    let p = a.matmul(&b).unwrap();
    assert_eq!(p.rows, 2);
    assert_eq!(p.cols, 4);

    let c = Matrix::zeros(4, 4);
    match a.matmul(&c) {
        Err(AutodiffError::ShapeMismatch { left_rows, left_cols, right_rows, right_cols }) => {
            assert_eq!((left_rows, left_cols, right_rows, right_cols), (2, 3, 4, 4));
        },
        _ => panic!("mismatched inner dimensions must report both shapes"),
    }
}

#[test]
fn test_dot_matches_matmul() {
    let m = Matrix::new(vec![row(&[2, 0]), row(&[0, 2])]).unwrap();
    let n = Matrix::new(vec![row(&[1, 2]), row(&[3, 4])]).unwrap();
    let p = m.dot(&n).unwrap();
    assert_eq!(p.data, vec![row(&[2, 4]), row(&[6, 8])]);
}

#[test]
fn test_transpose_involution() {
    let m = Matrix::new(vec![row(&[1, 2, 3]), row(&[4, 5, 6])]).unwrap();
    let back = m.transpose().transpose();
    assert_eq!(back.rows, m.rows);
    assert_eq!(back.cols, m.cols);
    assert_eq!(back.data, m.data);
}

#[test]
fn test_ones_and_new_empty() {
    let m = Matrix::ones(2, 2);
    assert_eq!(m.get(0, 1).unwrap(), Scalar::one());
    let e = Matrix::new_empty(3, 2);
    assert_eq!(e.rows, 3);
    assert_eq!(e.cols, 2);
    assert_eq!(e.get(2, 1).unwrap(), Scalar::zero());
}

#[test]
fn test_random_unit_interval() {
    let m = Matrix::random(3, 3);
    assert_eq!(m.rows, 3);
    assert_eq!(m.cols, 3);
    let mut saw_nonzero = false;
    for i in 0..3 {
        for j in 0..3 {
            let v = m.get(i, j).unwrap();
            assert!(0 <= v.num() && v.num() <= v.den());
            if v.num() != 0 {
                saw_nonzero = true;
            }
        }
    }
    assert!(saw_nonzero);
}

#[test]
fn test_dot_vector() {
    let m = Matrix::new(vec![row(&[1, 2, 3]), row(&[4, 5, 6])]).unwrap();
    let v = row(&[7, 8, 9]);
    let out = m.dot_vector(v).unwrap();
    assert_eq!(out.len(), 2);
    assert_eq!(out[0], Scalar::from_int(50));
    assert_eq!(out[1], Scalar::from_int(122));
    assert!(matches!(
        m.dot_vector(row(&[1, 2])),
        Err(AutodiffError::ShapeMismatch { .. })
    ));
}

#[test]
fn test_matrix_get_out_of_bounds() {
    let m = Matrix::zeros(2, 2);
    assert_eq!(m.get(2, 0), Err(AutodiffError::IndexOutOfBounds));
}
