use vstd::prelude::*;

use crate::errors::AutodiffError;
use crate::scalar::{
    frac_add, frac_div, frac_fits, frac_int, frac_mul, frac_neg, frac_sub, Frac, Scalar,
};

verus! {

/// One recorded sensitivity of a forward-mode result: the operand value it
/// was taken with respect to, and the local gradient at that value.
pub struct PartialDerivative {
    pub value_wrt: Scalar,
    pub gradient_wrt_value: Scalar,
}

impl PartialDerivative {
    pub open spec fn wf(self) -> bool {
        self.value_wrt.wf() && self.gradient_wrt_value.wf()
    }

    pub fn new(value_wrt: Scalar, gradient_wrt_value: Scalar) -> (r: PartialDerivative)
        ensures
            r.value_wrt == value_wrt,
            r.gradient_wrt_value == gradient_wrt_value,
    {
        PartialDerivative { value_wrt, gradient_wrt_value }
    }
}

/// A forward-mode variable: a value together with the list of recorded
/// sensitivities, one per operand of the operation that produced it.
pub struct Variable {
    pub value: Scalar,
    pub gradients: Vec<PartialDerivative>,
}

/// The two sensitivities recorded by a binary operation: one per operand,
/// in operand order.
pub open spec fn binary_grads(
    v: Variable,
    a: Scalar,
    ga: Frac,
    b: Scalar,
    gb: Frac,
) -> bool {
    &&& v.gradients@.len() == 2
    &&& v.gradients@[0].value_wrt == a
    &&& v.gradients@[0].gradient_wrt_value@ == ga
    &&& v.gradients@[1].value_wrt == b
    &&& v.gradients@[1].gradient_wrt_value@ == gb
}

impl Variable {
    pub open spec fn wf(self) -> bool {
        &&& self.value.wf()
        &&& forall|i: int| 0 <= i < self.gradients@.len() ==> (#[trigger] self.gradients@[i]).wf()
    }

    pub fn new(value: Scalar, gradients: Vec<PartialDerivative>) -> (r: Variable)
        ensures
            r.value == value,
            r.gradients@ == gradients@,
    {
        Variable { value, gradients }
    }

    /// A leaf variable: a bare value with no recorded sensitivities.
    pub fn new_no_gradients(value: Scalar) -> (r: Variable)
        ensures
            r.value == value,
            r.gradients@.len() == 0,
    {
        Variable { value, gradients: Vec::new() }
    }

    /// The sum of two variables. Records the sensitivity one for each
    /// operand. Fails with `Overflow` exactly when the exact sum does not
    /// fit the scalar fields.
    pub fn add(self, rhs: Variable) -> (r: Result<Variable, AutodiffError>)
        requires
            self.wf(),
            rhs.wf(),
        ensures
            match r {
                Ok(v) => frac_fits(frac_add(self.value@, rhs.value@)) && v.wf() && v.value@
                    == frac_add(self.value@, rhs.value@) && binary_grads(
                    v,
                    self.value,
                    frac_int(1),
                    rhs.value,
                    frac_int(1),
                ),
                Err(e) => !frac_fits(frac_add(self.value@, rhs.value@)) && e
                    == AutodiffError::Overflow,
            },
    {
        let value = self.value.add(rhs.value)?;
        let mut gradients: Vec<PartialDerivative> = Vec::new();
        gradients.push(PartialDerivative::new(self.value, Scalar::one()));
        gradients.push(PartialDerivative::new(rhs.value, Scalar::one()));
        Ok(Variable { value, gradients })
    }

    /// The difference of two variables. Records the sensitivities one and
    /// minus one. Fails with `Overflow` exactly when the exact difference
    /// does not fit the scalar fields.
    pub fn sub(self, rhs: Variable) -> (r: Result<Variable, AutodiffError>)
        requires
            self.wf(),
            rhs.wf(),
        ensures
            match r {
                Ok(v) => frac_fits(frac_sub(self.value@, rhs.value@)) && v.wf() && v.value@
                    == frac_sub(self.value@, rhs.value@) && binary_grads(
                    v,
                    self.value,
                    frac_int(1),
                    rhs.value,
                    frac_neg(frac_int(1)),
                ),
                Err(e) => !frac_fits(frac_sub(self.value@, rhs.value@)) && e
                    == AutodiffError::Overflow,
            },
    {
        let value = self.value.sub(rhs.value)?;
        let mut gradients: Vec<PartialDerivative> = Vec::new();
        gradients.push(PartialDerivative::new(self.value, Scalar::one()));
        gradients.push(PartialDerivative::new(rhs.value, Scalar::one().neg()));
        Ok(Variable { value, gradients })
    }

    /// The product of two variables. Records each operand's sensitivity as
    /// the other operand's value. Fails with `Overflow` exactly when the
    /// exact product does not fit the scalar fields.
    pub fn mul(self, rhs: Variable) -> (r: Result<Variable, AutodiffError>)
        requires
            self.wf(),
            rhs.wf(),
        ensures
            match r {
                Ok(v) => frac_fits(frac_mul(self.value@, rhs.value@)) && v.wf() && v.value@
                    == frac_mul(self.value@, rhs.value@) && binary_grads(
                    v,
                    self.value,
                    rhs.value@,
                    rhs.value,
                    self.value@,
                ),
                Err(e) => !frac_fits(frac_mul(self.value@, rhs.value@)) && e
                    == AutodiffError::Overflow,
            },
    {
        let value = self.value.mul(rhs.value)?;
        let mut gradients: Vec<PartialDerivative> = Vec::new();
        gradients.push(PartialDerivative::new(self.value, rhs.value));
        gradients.push(PartialDerivative::new(rhs.value, self.value));
        Ok(Variable { value, gradients })
    }

    /// The quotient of two variables. Records the numerator's sensitivity
    /// as the reciprocal of the squared denominator and the denominator's
    /// as minus the numerator over the squared denominator.
    ///
    /// Fails with `DivisionByZero` exactly when the denominator is zero and
    /// with `Overflow` exactly when the exact quotient, the squared
    /// denominator, or the denominator sensitivity does not fit.
    pub fn div(self, rhs: Variable) -> (r: Result<Variable, AutodiffError>)
        requires
            self.wf(),
            rhs.wf(),
        ensures
            rhs.value@.num == 0 ==> r == Result::<Variable, AutodiffError>::Err(
                AutodiffError::DivisionByZero,
            ),
            rhs.value@.num != 0 ==> match r {
                Ok(v) => div_parts_fit(self.value@, rhs.value@) && v.wf() && v.value@ == frac_div(
                    self.value@,
                    rhs.value@,
                ) && binary_grads(
                    v,
                    self.value,
                    frac_div(frac_int(1), frac_mul(rhs.value@, rhs.value@)),
                    rhs.value,
                    frac_div(frac_neg(self.value@), frac_mul(rhs.value@, rhs.value@)),
                ),
                Err(e) => !div_parts_fit(self.value@, rhs.value@) && e == AutodiffError::Overflow,
            },
    {
        if rhs.value.num() == 0 {
            return Err(AutodiffError::DivisionByZero);
        }
        let value = self.value.div(rhs.value)?;
        let denom_sq = rhs.value.mul(rhs.value)?;
        proof {
            let n = rhs.value@.num;
            assert(n * n != 0) by (nonlinear_arith)
                requires
                    n != 0,
            ;
        }
        let g_num = Scalar::one().div(denom_sq)?;
        let g_den = self.value.neg().div(denom_sq)?;
        let mut gradients: Vec<PartialDerivative> = Vec::new();
        gradients.push(PartialDerivative::new(self.value, g_num));
        gradients.push(PartialDerivative::new(rhs.value, g_den));
        proof {
            assert(1 * denom_sq@.den == denom_sq@.den);
            assert(1 * denom_sq@.num == denom_sq@.num);
        }
        Ok(Variable { value, gradients })
    }
}

/// All exact intermediates of a quotient and its two recorded sensitivities
/// fit the scalar fields. The numerator's sensitivity is a reciprocal and
/// always fits once the squared denominator does.
pub open spec fn div_parts_fit(a: Frac, b: Frac) -> bool {
    &&& frac_fits(frac_div(a, b))
    &&& frac_fits(frac_mul(b, b))
    &&& frac_fits(frac_div(frac_neg(a), frac_mul(b, b)))
}

} // verus!
