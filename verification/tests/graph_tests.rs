use deep_tch::errors::AutodiffError;
use deep_tch::graph::{Function, Graph};
use deep_tch::scalar::Scalar;
use random::Source;

fn s(n: i64) -> Scalar {
    Scalar::from_int(n)
}

fn frac(num: i64, den: i64) -> Scalar {
    Scalar::new(num, den).unwrap()
}

fn to_f64(v: Scalar) -> f64 {
    v.num() as f64 / v.den() as f64
}

fn deriv_f64(g: &Graph, id: usize) -> f64 {
    to_f64(g.derivative(id).expect("derivative expected"))
}

#[test]
fn test_mul_scenario() {
    let mut g = Graph::new();
    let a = g.leaf(s(3), true);
    let b = g.leaf(s(4), true);
    let p = g.apply(Function::Mul, vec![a, b]).unwrap();
    assert!(g.value(p).same_value(&s(12)));
    g.backward(p, Scalar::one()).unwrap();
    assert!(g.derivative(a).unwrap().same_value(&s(4)));
    assert!(g.derivative(b).unwrap().same_value(&s(3)));
}

#[test]
fn test_div_scenario() {
    let mut g = Graph::new();
    let a = g.leaf(s(2), true);
    let b = g.leaf(s(3), true);
    let q = g.apply(Function::Div, vec![a, b]).unwrap();
    assert!(g.value(q).same_value(&frac(2, 3)));
    g.backward(q, Scalar::one()).unwrap();
    // The engine's quotient rule: d(a/b)/da = 1/b, d(a/b)/db = -a/b².
    assert!(g.derivative(a).unwrap().same_value(&frac(1, 3)));
    assert!(g.derivative(b).unwrap().same_value(&frac(-2, 9)));
}

#[test]
fn test_fanout_accumulation() {
    // x feeds two products whose outputs are summed: the derivative on x
    // is the sum of the two paths' local gradients, y + z = 9.
    let mut g = Graph::new();
    let x = g.leaf(s(3), true);
    let y = g.leaf(s(4), false);
    let z = g.leaf(s(5), false);
    let c1 = g.apply(Function::Mul, vec![x, y]).unwrap();
    let c2 = g.apply(Function::Mul, vec![x, z]).unwrap();
    let sum = g.apply(Function::Add, vec![c1, c2]).unwrap();
    g.backward(sum, Scalar::one()).unwrap();
    assert!(g.derivative(x).unwrap().same_value(&s(9)));
}

#[test]
fn test_no_grad_leaf_untouched() {
    // A leaf that asks for no gradient never receives one, however many
    // backward passes run.
    let mut g = Graph::new();
    let x = g.leaf(s(3), true);
    let y = g.leaf(s(4), false);
    let p = g.apply(Function::Mul, vec![x, y]).unwrap();
    g.backward(p, Scalar::one()).unwrap();
    assert!(g.derivative(y).is_none());
    g.backward(p, s(2)).unwrap();
    assert!(g.derivative(y).is_none());
    assert!(g.derivative(x).unwrap().same_value(&s(12)));
}

#[test]
fn test_backward_on_plain_leaf_is_noop() {
    let mut g = Graph::new();
    let x = g.leaf(s(3), false);
    g.backward(x, Scalar::one()).unwrap();
    assert!(g.derivative(x).is_none());
}

#[test]
fn test_no_grad_inputs_make_leaf_result() {
    let mut g = Graph::new();
    let a = g.leaf(s(2), false);
    let b = g.leaf(s(3), false);
    let p = g.apply(Function::Mul, vec![a, b]).unwrap();
    assert!(!g.history_present(p));
    let c = g.leaf(s(5), true);
    let q = g.apply(Function::Mul, vec![c, p]).unwrap();
    assert!(g.history_present(q));
}

#[test]
fn test_apply_argument_errors() {
    let mut g = Graph::new();
    let a = g.leaf(s(2), true);
    assert!(matches!(
        g.apply(Function::Mul, vec![a]),
        Err(AutodiffError::ArgumentOutOfBounds)
    ));
    assert!(matches!(
        g.apply(Function::Relu, vec![7]),
        Err(AutodiffError::IndexOutOfBounds)
    ));
    let zero = g.leaf(s(0), true);
    assert!(matches!(
        g.apply(Function::Div, vec![a, zero]),
        Err(AutodiffError::DivisionByZero)
    ));
    assert!(matches!(
        g.apply(Function::Inv, vec![zero]),
        Err(AutodiffError::DivisionByZero)
    ));
}

#[test]
fn test_accumulate_and_zero_derivative() {
    let mut g = Graph::new();
    let a = g.leaf(s(2), true);
    g.accumulate_derivative(a, s(3)).unwrap();
    g.accumulate_derivative(a, s(4)).unwrap();
    assert!(g.derivative(a).unwrap().same_value(&s(7)));
    assert!(g.grad(a).unwrap().same_value(&s(7)));
    g.zero_derivative_(a);
    assert!(g.derivative(a).is_none());
    g.zero_grad_(a);
    assert!(g.derivative(a).is_none());
}

#[test]
fn test_requires_grad_toggle() {
    let mut g = Graph::new();
    let a = g.leaf(s(2), false);
    assert!(!g.requires_grad(a));
    g.requires_grad_(a, true);
    assert!(g.requires_grad(a));
}

#[test]
fn test_relu_gradients() {
    let mut g = Graph::new();
    let pos = g.leaf(s(3), true);
    let r = g.apply(Function::Relu, vec![pos]).unwrap();
    assert!(g.value(r).same_value(&s(3)));
    g.backward(r, Scalar::one()).unwrap();
    assert!(g.derivative(pos).unwrap().same_value(&s(1)));

    let neg = g.leaf(s(-3), true);
    let r2 = g.apply(Function::Relu, vec![neg]).unwrap();
    assert!(g.value(r2).same_value(&s(0)));
    g.backward(r2, Scalar::one()).unwrap();
    assert!(g.derivative(neg).unwrap().same_value(&s(0)));

    // The fixed convention at exactly zero: the gradient passes through.
    let zero = g.leaf(s(0), true);
    let r3 = g.apply(Function::Relu, vec![zero]).unwrap();
    g.backward(r3, s(5)).unwrap();
    assert!(g.derivative(zero).unwrap().same_value(&s(5)));
}

fn central_difference(f: &dyn Fn(&[f64]) -> f64, values: &[f64], arg: usize, eps: f64) -> f64 {
    let mut lo = values.to_vec();
    let mut hi = values.to_vec();
    lo[arg] -= eps;
    hi[arg] += eps;
    (f(&hi) - f(&lo)) / (2.0 * eps)
}

#[test]
fn test_chain_rule_against_central_difference() {
    // For every built-in operation, on pseudo-random operand values, the
    // analytic backward gradient agrees with a finite-difference estimate
    // within 1e-2.
    let mut src = random::default(42);
    for _trial in 0..20 {
        let an = (src.read_u64() % 400 + 10) as i64;
        let bn = (src.read_u64() % 400 + 10) as i64;
        let a_val = frac(an, 10);
        let b_val = frac(bn, 10);
        let af = to_f64(a_val);
        let bf = to_f64(b_val);
        let eps = 1e-6;

        let binary: [(Function, Box<dyn Fn(&[f64]) -> f64>); 4] = [
            (Function::Add, Box::new(|v: &[f64]| v[0] + v[1])),
            (Function::Sub, Box::new(|v: &[f64]| v[0] - v[1])),
            (Function::Mul, Box::new(|v: &[f64]| v[0] * v[1])),
            (Function::Div, Box::new(|v: &[f64]| v[0] / v[1])),
        ];
        for (func, f) in binary.iter() {
            let mut g = Graph::new();
            let a = g.leaf(a_val, true);
            let b = g.leaf(b_val, true);
            let out = g.apply(*func, vec![a, b]).unwrap();
            g.backward(out, Scalar::one()).unwrap();
            for (arg, id) in [(0usize, a), (1usize, b)] {
                let approx = central_difference(f.as_ref(), &[af, bf], arg, eps);
                assert!((deriv_f64(&g, id) - approx).abs() < 1e-2);
            }
        }

        let unary: [(Function, Box<dyn Fn(&[f64]) -> f64>); 2] = [
            (Function::Relu, Box::new(|v: &[f64]| if v[0] > 0.0 { v[0] } else { 0.0 })),
            (Function::Inv, Box::new(|v: &[f64]| 1.0 / v[0])),
        ];
        for (func, f) in unary.iter() {
            let mut g = Graph::new();
            let a = g.leaf(a_val, true);
            let out = g.apply(*func, vec![a]).unwrap();
            g.backward(out, Scalar::one()).unwrap();
            let approx = central_difference(f.as_ref(), &[af], 0, eps);
            assert!((deriv_f64(&g, a) - approx).abs() < 1e-2);
        }
    }
}

#[test]
fn test_chained_graph_gradient() {
    // d/dx of (x * x + x) at x = 3 is 2x + 1 = 7.
    let mut g = Graph::new();
    let x = g.leaf(s(3), true);
    let sq = g.apply(Function::Mul, vec![x, x]).unwrap();
    let out = g.apply(Function::Add, vec![sq, x]).unwrap();
    assert!(g.value(out).same_value(&s(12)));
    g.backward(out, Scalar::one()).unwrap();
    assert!(g.derivative(x).unwrap().same_value(&s(7)));
}
