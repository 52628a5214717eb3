use deep_tch::errors::AutodiffError;
use deep_tch::scalar::Scalar;
use deep_tch::variable::Variable;

fn s(n: i64) -> Scalar {
    Scalar::from_int(n)
}

fn frac(num: i64, den: i64) -> Scalar {
    Scalar::new(num, den).unwrap()
}

#[test]
fn test_add() {
    let a = Variable::new_no_gradients(s(2));
    let b = Variable::new_no_gradients(s(3));
    let c = a.add(b).unwrap();
    assert!(c.value.same_value(&s(5)));
}

#[test]
fn test_sub() {
    let a = Variable::new_no_gradients(s(2));
    let b = Variable::new_no_gradients(s(3));
    let c = a.sub(b).unwrap();
    assert!(c.value.same_value(&s(-1)));
}

#[test]
fn test_multiply() {
    let a = Variable::new_no_gradients(s(2));
    let b = Variable::new_no_gradients(s(3));
    let c = a.mul(b).unwrap();
    assert!(c.value.same_value(&s(6)));
}

#[test]
fn test_div() {
    let a = Variable::new_no_gradients(s(2));
    let b = Variable::new_no_gradients(s(3));
    let c = a.div(b).unwrap();
    assert!(c.value.same_value(&frac(2, 3)));
}

#[test]
fn test_fwd_ad_add() {
    let a = Variable::new_no_gradients(s(3));
    let b = Variable::new_no_gradients(s(4));
    let result = a.add(b).unwrap();
    assert_eq!(result.gradients.len(), 2);
    assert!(result.gradients[0].value_wrt.same_value(&s(3)));
    assert!(result.gradients[1].value_wrt.same_value(&s(4)));
    assert!(result.gradients[0].gradient_wrt_value.same_value(&s(1)));
    assert!(result.gradients[1].gradient_wrt_value.same_value(&s(1)));
}

#[test]
fn test_fwd_ad_sub() {
    let a = Variable::new_no_gradients(s(3));
    let b = Variable::new_no_gradients(s(4));
    let result = a.sub(b).unwrap();
    assert_eq!(result.gradients.len(), 2);
    assert!(result.gradients[0].value_wrt.same_value(&s(3)));
    assert!(result.gradients[1].value_wrt.same_value(&s(4)));
    assert!(result.gradients[0].gradient_wrt_value.same_value(&s(1)));
    assert!(result.gradients[1].gradient_wrt_value.same_value(&s(-1)));
}

#[test]
fn test_fwd_ad_mul() {
    let a = Variable::new_no_gradients(s(3));
    let b = Variable::new_no_gradients(s(4));
    let result = a.mul(b).unwrap();
    assert_eq!(result.gradients.len(), 2);
    assert!(result.gradients[0].value_wrt.same_value(&s(3)));
    assert!(result.gradients[1].value_wrt.same_value(&s(4)));
    assert!(result.gradients[0].gradient_wrt_value.same_value(&s(4)));
    assert!(result.gradients[1].gradient_wrt_value.same_value(&s(3)));
}

#[test]
fn test_fwd_ad_div() {
    let a = Variable::new_no_gradients(s(3));
    let b = Variable::new_no_gradients(s(4));
    let result = a.div(b).unwrap();
    assert_eq!(result.gradients.len(), 2);
    assert!(result.gradients[0].value_wrt.same_value(&s(3)));
    assert!(result.gradients[1].value_wrt.same_value(&s(4)));
    assert!(result.gradients[0].gradient_wrt_value.same_value(&frac(1, 16)));
    assert!(result.gradients[1].gradient_wrt_value.same_value(&frac(-3, 16)));
}

#[test]
fn test_fwd_mul_scenario() {
    let a = Variable::new_no_gradients(s(3));
    let b = Variable::new_no_gradients(s(4));
    let result = a.mul(b).unwrap();
    assert!(result.value.same_value(&s(12)));
    assert!(result.gradients[0].gradient_wrt_value.same_value(&s(4)));
    assert!(result.gradients[1].gradient_wrt_value.same_value(&s(3)));
}

#[test]
fn test_fwd_div_scenario() {
    let a = Variable::new_no_gradients(s(2));
    let b = Variable::new_no_gradients(s(3));
    let result = a.div(b).unwrap();
    assert!(result.value.same_value(&frac(2, 3)));
    assert!(result.gradients[0].gradient_wrt_value.same_value(&frac(1, 9)));
    assert!(result.gradients[1].gradient_wrt_value.same_value(&frac(-2, 9)));
}

#[test]
fn test_div_by_zero() {
    let a = Variable::new_no_gradients(s(2));
    let b = Variable::new_no_gradients(s(0));
    assert!(matches!(a.div(b), Err(AutodiffError::DivisionByZero)));
}

#[test]
fn test_overflow_reported() {
    let big = Scalar::new(i64::MAX - 1, 1).unwrap();
    let a = Variable::new_no_gradients(big);
    let b = Variable::new_no_gradients(big);
    assert!(matches!(a.add(b), Err(AutodiffError::Overflow)));
}
