use vstd::prelude::*;

use crate::graph::{
    backward_grads, init_grads, local_fits, local_grad, node_wf, step, sweep, Function, Node,
};
use crate::scalar::{
    frac_add, frac_div, frac_eq, frac_fits, frac_int, frac_lt, frac_mul, frac_neg, frac_sub, Frac,
};

verus! {

/// The value of an operation on raw fraction operands (unary operations
/// read only the first).
pub open spec fn eval_at(f: Function, x: Frac, y: Frac) -> Frac {
    match f {
        Function::Add => frac_add(x, y),
        Function::Sub => frac_sub(x, y),
        Function::Mul => frac_mul(x, y),
        Function::Div => frac_div(x, y),
        Function::Relu => if x.num > 0 {
            x
        } else {
            frac_int(0)
        },
        Function::Inv => frac_div(frac_int(1), x),
    }
}

/// The exact symmetric difference quotient with respect to the first
/// operand: `(f(x+e, y) - f(x-e, y)) / 2e`.
pub open spec fn central_diff_first(f: Function, x: Frac, y: Frac, e: Frac) -> Frac {
    frac_div(
        frac_sub(eval_at(f, frac_add(x, e), y), eval_at(f, frac_sub(x, e), y)),
        frac_add(e, e),
    )
}

/// The exact symmetric difference quotient with respect to the second
/// operand: `(f(x, y+e) - f(x, y-e)) / 2e`.
pub open spec fn central_diff_second(f: Function, x: Frac, y: Frac, e: Frac) -> Frac {
    frac_div(
        frac_sub(eval_at(f, x, frac_add(y, e)), eval_at(f, x, frac_sub(y, e))),
        frac_add(e, e),
    )
}

proof fn lemma_div_sub_eq(a: Frac, b: Frac, t: Frac, g: Frac)
    requires
        t.num != 0,
        (a.num * b.den - b.num * a.den) * (t.den * g.den) == g.num * ((a.den * b.den) * t.num),
    ensures
        frac_eq(frac_div(frac_sub(a, b), t), g),
{
    let s = frac_sub(a, b);
    let cd = frac_div(s, t);
    if t.num >= 0 {
        assert(cd.num * g.den == g.num * cd.den) by (nonlinear_arith)
            requires
                cd.num == s.num * t.den,
                cd.den == s.den * t.num,
                s.num == a.num * b.den - b.num * a.den,
                s.den == a.den * b.den,
                (a.num * b.den - b.num * a.den) * (t.den * g.den) == g.num * ((a.den * b.den)
                    * t.num),
        ;
    } else {
        assert(cd.num * g.den == g.num * cd.den) by (nonlinear_arith)
            requires
                cd.num == -(s.num * t.den),
                cd.den == -(s.den * t.num),
                s.num == a.num * b.den - b.num * a.den,
                s.den == a.den * b.den,
                (a.num * b.den - b.num * a.den) * (t.den * g.den) == g.num * ((a.den * b.den)
                    * t.num),
        ;
    }
}

/// When the two ends of the difference share a denominator, the whole
/// quotient reduces to one identity over the numerator difference.
proof fn lemma_div_sub_same_den(a: Frac, b: Frac, t: Frac, g: Frac, nn: int)
    requires
        b.den == a.den,
        a.den > 0,
        t.num != 0,
        a.num - b.num == nn,
        nn * (t.den * g.den) == g.num * (a.den * t.num),
    ensures
        frac_eq(frac_div(frac_sub(a, b), t), g),
{
    assert((a.num * b.den - b.num * a.den) * (t.den * g.den) == g.num * ((a.den * b.den) * t.num))
        by (nonlinear_arith)
        requires
            b.den == a.den,
            a.num - b.num == nn,
            nn * (t.den * g.den) == g.num * (a.den * t.num),
    ;
    lemma_div_sub_eq(a, b, t, g);
}

/// The difference quotient of addition with respect to either operand is
/// exactly one: addition is linear, so the finite-difference oracle agrees
/// with the analytic gradient for every step size, not only in the limit.
pub proof fn lemma_central_diff_add(x: Frac, y: Frac, e: Frac)
    requires
        x.den > 0,
        y.den > 0,
        e.den > 0,
        e.num != 0,
    ensures
        frac_eq(central_diff_first(Function::Add, x, y, e), frac_int(1)),
        frac_eq(central_diff_second(Function::Add, x, y, e), frac_int(1)),
{
    let xn = x.num;
    let xd = x.den;
    let yn = y.num;
    let yd = y.den;
    let en = e.num;
    let ed = e.den;
    let t = frac_add(e, e);
    assert(t.num != 0 && t.den > 0) by (nonlinear_arith)
        requires
            t.num == en * ed + en * ed,
            t.den == ed * ed,
            en != 0,
            ed > 0,
    ;
    let a1 = frac_add(frac_add(x, e), y);
    let b1 = frac_add(frac_sub(x, e), y);
    assert(a1.den > 0 && b1.den == a1.den && a1.num - b1.num == 2 * ((en * xd) * yd))
        by (nonlinear_arith)
        requires
            a1.num == (xn * ed + en * xd) * yd + yn * (xd * ed),
            a1.den == (xd * ed) * yd,
            b1.num == (xn * ed - en * xd) * yd + yn * (xd * ed),
            b1.den == (xd * ed) * yd,
            xd > 0,
            yd > 0,
            ed > 0,
    ;
    assert((2 * ((en * xd) * yd)) * (t.den * 1) == 1 * (a1.den * t.num)) by (nonlinear_arith)
        requires
            t.num == en * ed + en * ed,
            t.den == ed * ed,
            a1.den == (xd * ed) * yd,
    ;
    lemma_div_sub_same_den(a1, b1, t, frac_int(1), 2 * ((en * xd) * yd));
    let a2 = frac_add(x, frac_add(y, e));
    let b2 = frac_add(x, frac_sub(y, e));
    assert(a2.den > 0 && b2.den == a2.den && a2.num - b2.num == 2 * ((en * yd) * xd))
        by (nonlinear_arith)
        requires
            a2.num == xn * (yd * ed) + (yn * ed + en * yd) * xd,
            a2.den == xd * (yd * ed),
            b2.num == xn * (yd * ed) + (yn * ed - en * yd) * xd,
            b2.den == xd * (yd * ed),
            xd > 0,
            yd > 0,
            ed > 0,
    ;
    assert((2 * ((en * yd) * xd)) * (t.den * 1) == 1 * (a2.den * t.num)) by (nonlinear_arith)
        requires
            t.num == en * ed + en * ed,
            t.den == ed * ed,
            a2.den == xd * (yd * ed),
    ;
    lemma_div_sub_same_den(a2, b2, t, frac_int(1), 2 * ((en * yd) * xd));
}

/// The difference quotient of subtraction is exactly one with respect to
/// the left operand and exactly minus one with respect to the right one.
pub proof fn lemma_central_diff_sub(x: Frac, y: Frac, e: Frac)
    requires
        x.den > 0,
        y.den > 0,
        e.den > 0,
        e.num != 0,
    ensures
        frac_eq(central_diff_first(Function::Sub, x, y, e), frac_int(1)),
        frac_eq(central_diff_second(Function::Sub, x, y, e), frac_int(-1)),
{
    let xn = x.num;
    let xd = x.den;
    let yn = y.num;
    let yd = y.den;
    let en = e.num;
    let ed = e.den;
    let t = frac_add(e, e);
    assert(t.num != 0 && t.den > 0) by (nonlinear_arith)
        requires
            t.num == en * ed + en * ed,
            t.den == ed * ed,
            en != 0,
            ed > 0,
    ;
    let a1 = frac_sub(frac_add(x, e), y);
    let b1 = frac_sub(frac_sub(x, e), y);
    assert(a1.den > 0 && b1.den == a1.den && a1.num - b1.num == 2 * ((en * xd) * yd))
        by (nonlinear_arith)
        requires
            a1.num == (xn * ed + en * xd) * yd - yn * (xd * ed),
            a1.den == (xd * ed) * yd,
            b1.num == (xn * ed - en * xd) * yd - yn * (xd * ed),
            b1.den == (xd * ed) * yd,
            xd > 0,
            yd > 0,
            ed > 0,
    ;
    assert((2 * ((en * xd) * yd)) * (t.den * 1) == 1 * (a1.den * t.num)) by (nonlinear_arith)
        requires
            t.num == en * ed + en * ed,
            t.den == ed * ed,
            a1.den == (xd * ed) * yd,
    ;
    lemma_div_sub_same_den(a1, b1, t, frac_int(1), 2 * ((en * xd) * yd));
    let a2 = frac_sub(x, frac_add(y, e));
    let b2 = frac_sub(x, frac_sub(y, e));
    assert(a2.den > 0 && b2.den == a2.den && a2.num - b2.num == -(2 * ((en * yd) * xd)))
        by (nonlinear_arith)
        requires
            a2.num == xn * (yd * ed) - (yn * ed + en * yd) * xd,
            a2.den == xd * (yd * ed),
            b2.num == xn * (yd * ed) - (yn * ed - en * yd) * xd,
            b2.den == xd * (yd * ed),
            xd > 0,
            yd > 0,
            ed > 0,
    ;
    assert((-(2 * ((en * yd) * xd))) * (t.den * 1) == (-1) * (a2.den * t.num)) by (nonlinear_arith)
        requires
            t.num == en * ed + en * ed,
            t.den == ed * ed,
            a2.den == xd * (yd * ed),
    ;
    lemma_div_sub_same_den(a2, b2, t, frac_int(-1), -(2 * ((en * yd) * xd)));
}

/// The difference quotient of multiplication is exactly the other operand:
/// multiplication is linear in each argument, so the oracle is exact here
/// as well.
pub proof fn lemma_central_diff_mul(x: Frac, y: Frac, e: Frac)
    requires
        x.den > 0,
        y.den > 0,
        e.den > 0,
        e.num != 0,
    ensures
        frac_eq(central_diff_first(Function::Mul, x, y, e), y),
        frac_eq(central_diff_second(Function::Mul, x, y, e), x),
{
    let xn = x.num;
    let xd = x.den;
    let yn = y.num;
    let yd = y.den;
    let en = e.num;
    let ed = e.den;
    let t = frac_add(e, e);
    assert(t.num != 0 && t.den > 0) by (nonlinear_arith)
        requires
            t.num == en * ed + en * ed,
            t.den == ed * ed,
            en != 0,
            ed > 0,
    ;
    let a1 = frac_mul(frac_add(x, e), y);
    let b1 = frac_mul(frac_sub(x, e), y);
    assert(a1.den > 0 && b1.den == a1.den && a1.num - b1.num == 2 * ((en * xd) * yn))
        by (nonlinear_arith)
        requires
            a1.num == (xn * ed + en * xd) * yn,
            a1.den == (xd * ed) * yd,
            b1.num == (xn * ed - en * xd) * yn,
            b1.den == (xd * ed) * yd,
            xd > 0,
            yd > 0,
            ed > 0,
    ;
    assert((2 * ((en * xd) * yn)) * (t.den * yd) == yn * (a1.den * t.num)) by (nonlinear_arith)
        requires
            t.num == en * ed + en * ed,
            t.den == ed * ed,
            a1.den == (xd * ed) * yd,
    ;
    lemma_div_sub_same_den(a1, b1, t, y, 2 * ((en * xd) * yn));
    let a2 = frac_mul(x, frac_add(y, e));
    let b2 = frac_mul(x, frac_sub(y, e));
    assert(a2.den > 0 && b2.den == a2.den && a2.num - b2.num == 2 * ((en * yd) * xn))
        by (nonlinear_arith)
        requires
            a2.num == xn * (yn * ed + en * yd),
            a2.den == xd * (yd * ed),
            b2.num == xn * (yn * ed - en * yd),
            b2.den == xd * (yd * ed),
            xd > 0,
            yd > 0,
            ed > 0,
    ;
    assert((2 * ((en * yd) * xn)) * (t.den * xd) == xn * (a2.den * t.num)) by (nonlinear_arith)
        requires
            t.num == en * ed + en * ed,
            t.den == ed * ed,
            a2.den == xd * (yd * ed),
    ;
    lemma_div_sub_same_den(a2, b2, t, x, 2 * ((en * yd) * xn));
}

/// The difference quotient of division with respect to the numerator is
/// exactly the reciprocal of the denominator: a quotient is linear in its
/// numerator. (With respect to the denominator the quotient is exact only
/// in the limit, so no such law holds there.)
pub proof fn lemma_central_diff_div_first(x: Frac, y: Frac, e: Frac)
    requires
        x.den > 0,
        y.den > 0,
        y.num != 0,
        e.den > 0,
        e.num != 0,
    ensures
        frac_eq(central_diff_first(Function::Div, x, y, e), frac_div(frac_int(1), y)),
{
    let xn = x.num;
    let xd = x.den;
    let yn = y.num;
    let yd = y.den;
    let en = e.num;
    let ed = e.den;
    let t = frac_add(e, e);
    let a1 = frac_div(frac_add(x, e), y);
    let b1 = frac_div(frac_sub(x, e), y);
    let g = frac_div(frac_int(1), y);
    assert(t.num != 0 && t.den > 0) by (nonlinear_arith)
        requires
            t.num == en * ed + en * ed,
            t.den == ed * ed,
            en != 0,
            ed > 0,
    ;
    if yn >= 0 {
        assert(a1.den > 0 && b1.den == a1.den && a1.num - b1.num == 2 * ((en * xd) * yd))
            by (nonlinear_arith)
            requires
                a1.num == (xn * ed + en * xd) * yd,
                a1.den == (xd * ed) * yn,
                b1.num == (xn * ed - en * xd) * yd,
                b1.den == (xd * ed) * yn,
                xd > 0,
                yd > 0,
                ed > 0,
                yn > 0,
        ;
        assert((2 * ((en * xd) * yd)) * (t.den * g.den) == g.num * (a1.den * t.num))
            by (nonlinear_arith)
            requires
                t.num == en * ed + en * ed,
                t.den == ed * ed,
                a1.den == (xd * ed) * yn,
                g.num == 1 * yd,
                g.den == 1 * yn,
        ;
        lemma_div_sub_same_den(a1, b1, t, g, 2 * ((en * xd) * yd));
    } else {
        assert(a1.den > 0 && b1.den == a1.den && a1.num - b1.num == -(2 * ((en * xd) * yd)))
            by (nonlinear_arith)
            requires
                a1.num == -((xn * ed + en * xd) * yd),
                a1.den == -((xd * ed) * yn),
                b1.num == -((xn * ed - en * xd) * yd),
                b1.den == -((xd * ed) * yn),
                xd > 0,
                yd > 0,
                ed > 0,
                yn < 0,
        ;
        assert((-(2 * ((en * xd) * yd))) * (t.den * g.den) == g.num * (a1.den * t.num))
            by (nonlinear_arith)
            requires
                t.num == en * ed + en * ed,
                t.den == ed * ed,
                a1.den == -((xd * ed) * yn),
                g.num == -(1 * yd),
                g.den == -(1 * yn),
        ;
        lemma_div_sub_same_den(a1, b1, t, g, -(2 * ((en * xd) * yd)));
    }
}

/// Away from zero — for a positive operand and a positive step smaller
/// than it — the difference quotient of rectification is exactly one,
/// matching the analytic gradient on the positive side.
pub proof fn lemma_central_diff_relu_positive(x: Frac, y: Frac, e: Frac)
    requires
        x.den > 0,
        y.den > 0,
        e.den > 0,
        x.num > 0,
        e.num > 0,
        frac_lt(e, x),
    ensures
        frac_eq(central_diff_first(Function::Relu, x, y, e), frac_int(1)),
{
    let xn = x.num;
    let xd = x.den;
    let en = e.num;
    let ed = e.den;
    let t = frac_add(e, e);
    assert(t.num != 0 && t.den > 0) by (nonlinear_arith)
        requires
            t.num == en * ed + en * ed,
            t.den == ed * ed,
            en > 0,
            ed > 0,
    ;
    let a1 = frac_add(x, e);
    let b1 = frac_sub(x, e);
    assert(a1.num > 0 && b1.num > 0 && a1.den > 0 && b1.den == a1.den && a1.num - b1.num == 2 * (en
        * xd)) by (nonlinear_arith)
        requires
            a1.num == xn * ed + en * xd,
            a1.den == xd * ed,
            b1.num == xn * ed - en * xd,
            b1.den == xd * ed,
            xn > 0,
            en > 0,
            xd > 0,
            ed > 0,
            en * xd < xn * ed,
    ;
    assert((2 * (en * xd)) * (t.den * 1) == 1 * (a1.den * t.num)) by (nonlinear_arith)
        requires
            t.num == en * ed + en * ed,
            t.den == ed * ed,
            a1.den == xd * ed,
    ;
    lemma_div_sub_same_den(a1, b1, t, frac_int(1), 2 * (en * xd));
}

/// On the negative side — for a negative operand and a positive step
/// smaller than its magnitude — the difference quotient of rectification
/// is exactly zero, matching the analytic gradient there.
pub proof fn lemma_central_diff_relu_negative(x: Frac, y: Frac, e: Frac)
    requires
        x.den > 0,
        y.den > 0,
        e.den > 0,
        x.num < 0,
        e.num > 0,
        frac_lt(e, frac_neg(x)),
    ensures
        frac_eq(central_diff_first(Function::Relu, x, y, e), frac_int(0)),
{
    let xn = x.num;
    let xd = x.den;
    let en = e.num;
    let ed = e.den;
    let t = frac_add(e, e);
    assert(t.num != 0 && t.den > 0) by (nonlinear_arith)
        requires
            t.num == en * ed + en * ed,
            t.den == ed * ed,
            en > 0,
            ed > 0,
    ;
    assert(frac_add(x, e).num <= 0 && frac_sub(x, e).num <= 0) by (nonlinear_arith)
        requires
            frac_add(x, e).num == xn * ed + en * xd,
            frac_sub(x, e).num == xn * ed - en * xd,
            en * xd < (-xn) * ed,
            en > 0,
            xd > 0,
            ed > 0,
    ;
    let z = frac_int(0);
    assert(eval_at(Function::Relu, frac_add(x, e), y) == z);
    assert(eval_at(Function::Relu, frac_sub(x, e), y) == z);
    lemma_div_sub_same_den(z, z, t, z, 0);
}

/// Chain rule against the oracle: on a graph holding one addition,
/// subtraction or multiplication of two leaves, the gradients a backward
/// pass computes agree exactly with the symmetric difference quotients of
/// the operation, for every step size — these operations are linear in
/// each argument, so the finite-difference oracle is exact on them.
pub proof fn lemma_backward_matches_central_diff(nodes: Seq<Node>, e: Frac)
    requires
        nodes.len() == 3,
        forall|i: int| 0 <= i < 3 ==> node_wf(nodes, i),
        nodes[0].history is None,
        nodes[1].history is None,
        nodes[2].history matches Some(h) && (h.function == Function::Add || h.function
            == Function::Sub || h.function == Function::Mul) && h.inputs@[0] == 0 && h.inputs@[1]
            == 1,
        e.den > 0,
        e.num != 0,
    ensures
        nodes[2].history matches Some(h) && (backward_grads(nodes, 2, frac_int(1)) matches Some(gr)
            && ((gr[0] matches Some(g0) && frac_eq(
            central_diff_first(h.function, nodes[0].value@, nodes[1].value@, e),
            g0,
        )) && (gr[1] matches Some(g1) && frac_eq(
            central_diff_second(h.function, nodes[0].value@, nodes[1].value@, e),
            g1,
        )))),
{
    let h = nodes[2].history.unwrap();
    let f = h.function;
    let x = nodes[0].value@;
    let y = nodes[1].value@;
    let saved = h.context.saved@;
    let one = frac_int(1);
    assert(node_wf(nodes, 2));
    assert(saved[0] == nodes[0].value && saved[1] == nodes[1].value);
    let l0 = local_grad(f, saved, one, 0);
    let l1 = local_grad(f, saved, one, 1);
    assert(1 * y.num == y.num && 1 * y.den == y.den && 1 * x.num == x.num && 1 * x.den == x.den);
    assert(l0 == match f {
        Function::Mul => y,
        _ => one,
    });
    assert(l1 == match f {
        Function::Sub => frac_int(-1),
        Function::Mul => x,
        _ => one,
    });
    assert(node_wf(nodes, 0) && node_wf(nodes, 1));
    assert(frac_fits(l0) && frac_fits(l1));
    assert(local_fits(f, saved, one, 0) && local_fits(f, saved, one, 1));
    let g0s = init_grads(3, 2, one);
    let g1s = g0s.update(0, Option::Some(l0)).update(1, Option::Some(l1));
    assert(g0s[2] == Option::Some(one) && g0s[0] is None && g0s[1] is None);
    assert(step(nodes, g0s, 2) == Option::Some(g1s));
    assert(sweep(nodes, g0s, 3) == sweep(nodes, g1s, 2));
    assert(step(nodes, g1s, 1) == Option::Some(g1s));
    assert(sweep(nodes, g1s, 2) == sweep(nodes, g1s, 1));
    assert(step(nodes, g1s, 0) == Option::Some(g1s));
    assert(sweep(nodes, g1s, 1) == sweep(nodes, g1s, 0));
    assert(backward_grads(nodes, 2, one) == Option::Some(g1s));
    assert(g1s[0] == Option::Some(l0) && g1s[1] == Option::Some(l1));
    match f {
        Function::Add => {
            lemma_central_diff_add(x, y, e);
        },
        Function::Sub => {
            lemma_central_diff_sub(x, y, e);
        },
        Function::Mul => {
            lemma_central_diff_mul(x, y, e);
        },
        _ => {},
    }
}

} // verus!
