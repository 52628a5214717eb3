use deep_tch::common_ops::add_lists;
use deep_tch::errors::AutodiffError;
use deep_tch::math_ops;
use deep_tch::scalar::Scalar;
use deep_tch::vector::dot_product;

fn s(n: i64) -> Scalar {
    Scalar::from_int(n)
}

fn frac(num: i64, den: i64) -> Scalar {
    Scalar::new(num, den).unwrap()
}

fn list(values: &[i64]) -> Vec<Scalar> {
    values.iter().map(|&v| Scalar::from_int(v)).collect()
}

#[test]
fn test_dot_product() {
    let a = list(&[1, 2, 3]);
    let b = list(&[4, 5, 6]);
    let c = dot_product(&a, &b).unwrap();
    assert!(c.same_value(&s(32)));
}

#[test]
fn test_add_lists() {
    let out = add_lists(list(&[1, 2, 3]), list(&[10, 20, 30])).unwrap();
    assert_eq!(out.len(), 3);
    assert!(out[0].same_value(&s(11)));
    assert!(out[1].same_value(&s(22)));
    assert!(out[2].same_value(&s(33)));
    assert!(matches!(
        add_lists(list(&[1]), list(&[1, 2])),
        Err(AutodiffError::ShapeMismatch { .. })
    ));
}

#[test]
fn test_scalar_helpers() {
    assert!(math_ops::mul(s(6), s(7)).unwrap().same_value(&s(42)));
    assert!(math_ops::add(s(6), s(7)).unwrap().same_value(&s(13)));
    assert!(math_ops::id(s(9)).same_value(&s(9)));
    assert!(math_ops::neg(s(9)).same_value(&s(-9)));
    assert!(math_ops::lt(s(1), s(2)).same_value(&s(1)));
    assert!(math_ops::lt(s(2), s(1)).same_value(&s(0)));
    assert!(math_ops::eq(frac(2, 4), frac(1, 2)).same_value(&s(1)));
    assert!(math_ops::eq(s(1), s(2)).same_value(&s(0)));
    assert!(math_ops::max(s(3), s(5)).same_value(&s(5)));
    assert!(math_ops::max(s(5), s(3)).same_value(&s(5)));
}

#[test]
fn test_relu_and_back() {
    assert!(math_ops::relu(s(4)).same_value(&s(4)));
    assert!(math_ops::relu(s(-4)).same_value(&s(0)));
    assert!(math_ops::relu_back(s(4), s(7)).same_value(&s(7)));
    assert!(math_ops::relu_back(s(-4), s(7)).same_value(&s(0)));
    // The fixed tie-break at exactly zero passes the gradient through.
    assert!(math_ops::relu_back(s(0), s(7)).same_value(&s(7)));
}

#[test]
fn test_inv_and_log_back() {
    assert!(math_ops::inv(s(4)).unwrap().same_value(&frac(1, 4)));
    assert!(matches!(math_ops::inv(s(0)), Err(AutodiffError::DivisionByZero)));
    // The gradient divided by the operand plus the logarithm's epsilon:
    // 8 / (4 + 1/1000000).
    assert!(math_ops::log_back(s(4), s(8)).unwrap().same_value(&frac(8000000, 4000001)));
    // The shifted operand can itself be zero.
    assert!(matches!(
        math_ops::log_back(frac(-1, 1000000), s(8)),
        Err(AutodiffError::DivisionByZero)
    ));
}

#[test]
fn test_is_close() {
    assert!(math_ops::is_close(s(5), s(5)));
    assert!(math_ops::is_close(s(1), frac(1005, 1000)));
    // The tolerance is strict: a difference of exactly one hundredth is
    // not close.
    assert!(!math_ops::is_close(s(1), frac(101, 100)));
    assert!(!math_ops::is_close(s(1), s(2)));
}

#[test]
fn test_scalar_construction() {
    let v = Scalar::new(-4, -6).unwrap();
    assert_eq!(v.num(), 4);
    assert_eq!(v.den(), 6);
    assert!(v.same_value(&frac(2, 3)));
    assert!(matches!(Scalar::new(1, 0), Err(AutodiffError::DivisionByZero)));
}

#[test]
fn test_dot_product_overflow() {
    let big = Scalar::new(i64::MAX - 1, 1).unwrap();
    let a = vec![big, big];
    let b = vec![big, big];
    assert!(matches!(dot_product(&a, &b), Err(AutodiffError::Overflow)));
}
