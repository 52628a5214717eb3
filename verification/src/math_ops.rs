use vstd::prelude::*;

use crate::errors::AutodiffError;
use crate::scalar::{
    frac, frac_add, frac_div, frac_eq, frac_fits, frac_int, frac_lt, frac_mul, frac_neg, frac_sub,
    Frac, Scalar, SCALAR_LIMIT,
};

verus! {

/// The exact product of two scalars.
pub fn mul(x: Scalar, y: Scalar) -> (r: Result<Scalar, AutodiffError>)
    requires
        x.wf(),
        y.wf(),
    ensures
        match r {
            Ok(s) => frac_fits(frac_mul(x@, y@)) && s.wf() && s@ == frac_mul(x@, y@),
            Err(e) => !frac_fits(frac_mul(x@, y@)) && e == AutodiffError::Overflow,
        },
{
    x.mul(y)
}

/// The identity function.
pub fn id(x: Scalar) -> (r: Scalar)
    ensures
        r == x,
{
    x
}

/// The exact sum of two scalars.
pub fn add(x: Scalar, y: Scalar) -> (r: Result<Scalar, AutodiffError>)
    requires
        x.wf(),
        y.wf(),
    ensures
        match r {
            Ok(s) => frac_fits(frac_add(x@, y@)) && s.wf() && s@ == frac_add(x@, y@),
            Err(e) => !frac_fits(frac_add(x@, y@)) && e == AutodiffError::Overflow,
        },
{
    x.add(y)
}

/// The exact negation of a scalar.
pub fn neg(x: Scalar) -> (r: Scalar)
    requires
        x.wf(),
    ensures
        r.wf(),
        r@ == frac_neg(x@),
{
    x.neg()
}

/// One when `x` is strictly below `y`, zero otherwise.
pub fn lt(x: Scalar, y: Scalar) -> (r: Scalar)
    requires
        x.wf(),
        y.wf(),
    ensures
        r.wf(),
        frac_lt(x@, y@) ==> r@ == frac_int(1),
        !frac_lt(x@, y@) ==> r@ == frac_int(0),
{
    if x.less_than(&y) {
        Scalar::one()
    } else {
        Scalar::zero()
    }
}

/// One when the two scalars denote the same rational, zero otherwise.
pub fn eq(a: Scalar, b: Scalar) -> (r: Scalar)
    requires
        a.wf(),
        b.wf(),
    ensures
        r.wf(),
        frac_eq(a@, b@) ==> r@ == frac_int(1),
        !frac_eq(a@, b@) ==> r@ == frac_int(0),
{
    if a.same_value(&b) {
        Scalar::one()
    } else {
        Scalar::zero()
    }
}

/// The larger of the two scalars; the second one when they are equal.
pub fn max(x: Scalar, y: Scalar) -> (r: Scalar)
    requires
        x.wf(),
        y.wf(),
    ensures
        frac_lt(y@, x@) ==> r == x,
        !frac_lt(y@, x@) ==> r == y,
{
    if y.less_than(&x) {
        x
    } else {
        y
    }
}

/// `x` when positive, zero otherwise.
pub fn relu(x: Scalar) -> (r: Scalar)
    requires
        x.wf(),
    ensures
        r.wf(),
        x@.num > 0 ==> r == x,
        x@.num <= 0 ==> r@ == frac_int(0),
{
    if x.num() > 0 {
        x
    } else {
        Scalar::zero()
    }
}

/// The exact reciprocal of a scalar.
///
/// Fails with `DivisionByZero` exactly when `x` is zero; a reciprocal
/// otherwise always fits, so it never overflows.
pub fn inv(x: Scalar) -> (r: Result<Scalar, AutodiffError>)
    requires
        x.wf(),
    ensures
        x@.num == 0 ==> r == Result::<Scalar, AutodiffError>::Err(AutodiffError::DivisionByZero),
        x@.num != 0 ==> (r matches Ok(s) && s.wf() && s@ == frac_div(frac_int(1), x@)),
{
    let one = Scalar::one();
    let r = one.div(x);
    proof {
        if x@.num != 0 {
            assert(1 * x@.den == x@.den);
            assert(1 * x@.num == x@.num);
        }
    }
    r
}

/// The small constant that the logarithm adds to its operand to avoid the
/// singularity at zero; its derivative rule shifts by the same constant.
pub open spec fn log_epsilon() -> Frac {
    frac(1, 1000000)
}

/// The derivative rule of the shifted natural logarithm: the incoming
/// gradient divided by the operand plus the same small constant the
/// forward logarithm adds.
///
/// Fails with `Overflow` exactly when the shifted operand does not fit the
/// scalar fields, with `DivisionByZero` exactly when the shifted operand
/// is zero, and with `Overflow` again exactly when the exact quotient does
/// not fit.
pub fn log_back(x: Scalar, d: Scalar) -> (r: Result<Scalar, AutodiffError>)
    requires
        x.wf(),
        d.wf(),
    ensures
        !frac_fits(frac_add(x@, log_epsilon())) ==> r == Result::<Scalar, AutodiffError>::Err(
            AutodiffError::Overflow,
        ),
        frac_fits(frac_add(x@, log_epsilon())) && frac_add(x@, log_epsilon()).num == 0 ==> r
            == Result::<Scalar, AutodiffError>::Err(AutodiffError::DivisionByZero),
        frac_fits(frac_add(x@, log_epsilon())) && frac_add(x@, log_epsilon()).num != 0 ==> match r {
            Ok(s) => frac_fits(frac_div(d@, frac_add(x@, log_epsilon()))) && s.wf() && s@
                == frac_div(d@, frac_add(x@, log_epsilon())),
            Err(e) => !frac_fits(frac_div(d@, frac_add(x@, log_epsilon()))) && e
                == AutodiffError::Overflow,
        },
{
    let eps = Scalar { num: 1, den: 1000000 };
    let shifted = x.add(eps)?;
    d.div(shifted)
}

/// The derivative rule of the rectifier: the incoming gradient where the
/// operand is positive, zero where it is negative, and — by the library's
/// fixed tie-break, since the true derivative is undefined there — the
/// incoming gradient passed through, as if the derivative were one,
/// exactly at zero.
pub fn relu_back(x: Scalar, d: Scalar) -> (r: Scalar)
    requires
        x.wf(),
        d.wf(),
    ensures
        r.wf(),
        x@.num > 0 ==> r == d,
        x@.num < 0 ==> r@ == frac_int(0),
        x@.num == 0 ==> r == d,
{
    if x.num() > 0 {
        d
    } else if x.num() < 0 {
        Scalar::zero()
    } else {
        d
    }
}

/// The two scalars denote rationals less than one hundredth apart.
pub open spec fn close_enough(x: Frac, y: Frac) -> bool {
    let df = frac_sub(x, y);
    -df.den < 100 * df.num && 100 * df.num < df.den
}

/// Checks if `x` and `y` are close: their exact difference is smaller in
/// magnitude than the tolerance of one hundredth.
pub fn is_close(x: Scalar, y: Scalar) -> (r: bool)
    requires
        x.wf(),
        y.wf(),
    ensures
        r == close_enough(x@, y@),
{
    proof {
        let m = SCALAR_LIMIT as int;
        let xn = x@.num;
        let xd = x@.den;
        let yn = y@.num;
        let yd = y@.den;
        assert(-(m * m) <= xn * yd <= m * m) by (nonlinear_arith)
            requires
                -m <= xn <= m,
                1 <= yd <= m,
                0 < m,
        ;
        assert(-(m * m) <= yn * xd <= m * m) by (nonlinear_arith)
            requires
                -m <= yn <= m,
                1 <= xd <= m,
                0 < m,
        ;
        assert(1 <= xd * yd <= m * m) by (nonlinear_arith)
            requires
                1 <= xd <= m,
                1 <= yd <= m,
        ;
    }
    let n: i128 = (x.num as i128) * (y.den as i128) - (y.num as i128) * (x.den as i128);
    let dd: i128 = (x.den as i128) * (y.den as i128);
    let limit: i128 = i128::MAX / 100;
    proof {
        vstd::arithmetic::div_mod::lemma_fundamental_div_mod(i128::MAX as int, 100);
        let m = SCALAR_LIMIT as int;
        assert(m * m < i128::MAX - 99) by (nonlinear_arith)
            requires
                m == 0x7fff_ffff_ffff_ffff,
        ;
    }
    if n > limit || n < -limit {
        false
    } else {
        100 * n > -dd && 100 * n < dd
    }
}

} // verus!
