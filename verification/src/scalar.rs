use vstd::prelude::*;

use crate::errors::AutodiffError;

verus! {

/// The mathematical value of a scalar: a fraction of unbounded integers.
/// A `Frac` is meaningful when its denominator is positive; every spec
/// function below produces a positive denominator from positive ones
/// (after sign normalisation in `frac_div`).
pub ghost struct Frac {
    pub num: int,
    pub den: int,
}

pub open spec fn frac(num: int, den: int) -> Frac {
    Frac { num: num, den: den }
}

/// The fraction standing for the integer `n`.
pub open spec fn frac_int(n: int) -> Frac {
    frac(n, 1)
}

/// Two fractions denote the same rational number (cross multiplication).
pub open spec fn frac_eq(a: Frac, b: Frac) -> bool {
    a.num * b.den == b.num * a.den
}

/// `a` denotes a strictly smaller rational than `b` (for positive denominators).
pub open spec fn frac_lt(a: Frac, b: Frac) -> bool {
    a.num * b.den < b.num * a.den
}

pub open spec fn frac_add(a: Frac, b: Frac) -> Frac {
    frac(a.num * b.den + b.num * a.den, a.den * b.den)
}

pub open spec fn frac_sub(a: Frac, b: Frac) -> Frac {
    frac(a.num * b.den - b.num * a.den, a.den * b.den)
}

pub open spec fn frac_mul(a: Frac, b: Frac) -> Frac {
    frac(a.num * b.num, a.den * b.den)
}

pub open spec fn frac_neg(a: Frac) -> Frac {
    frac(-a.num, a.den)
}

/// The quotient `a / b`, with the sign moved into the numerator so that the
/// denominator stays positive. Meaningful only for `b.num != 0`.
pub open spec fn frac_div(a: Frac, b: Frac) -> Frac {
    if b.num >= 0 {
        frac(a.num * b.den, a.den * b.num)
    } else {
        frac(-(a.num * b.den), -(a.den * b.num))
    }
}

/// The largest magnitude that a `Scalar` field may carry.
pub const SCALAR_LIMIT: i64 = i64::MAX;

/// Whether an exact fraction fits into the fixed-width fields of `Scalar`.
/// The numerator range is kept symmetric so that negation never overflows.
pub open spec fn frac_fits(f: Frac) -> bool {
    &&& -(SCALAR_LIMIT as int) <= f.num <= SCALAR_LIMIT as int
    &&& 1 <= f.den <= SCALAR_LIMIT as int
}

/// An exact rational scalar: the numeric payload of every tensor element and
/// graph node in this library. The denominator is always positive and the
/// numerator never takes the one value whose negation would overflow, so
/// negation is total. All arithmetic is exact; an operation whose exact
/// result does not fit reports `AutodiffError::Overflow` instead of wrapping.
#[derive(Clone, Copy, Debug, PartialEq, Eq, Structural)]
pub struct Scalar {
    pub num: i64,
    pub den: i64,
}

impl View for Scalar {
    type V = Frac;

    open spec fn view(&self) -> Frac {
        frac(self.num as int, self.den as int)
    }
}

proof fn lemma_mul_bound(a: int, b: int, m: int)
    by (nonlinear_arith)
    requires
        0 <= m,
        -m <= a <= m,
        -m <= b <= m,
    ensures
        -(m * m) <= a * b <= m * m,
{
}

proof fn lemma_pos_mul(a: int, b: int)
    by (nonlinear_arith)
    requires
        1 <= a,
        1 <= b,
    ensures
        1 <= a * b,
{
}

proof fn lemma_neg_mul(a: int, b: int)
    by (nonlinear_arith)
    requires
        1 <= a,
        b <= -1,
    ensures
        a * b <= -1,
{
}

impl Scalar {
    /// The fields denote a rational with a positive denominator, inside the
    /// symmetric range that keeps every single multiplication in `i128`.
    pub open spec fn wf(self) -> bool {
        frac_fits(self@)
    }

    /// The numerator of the exact fraction held.
    pub fn num(&self) -> (r: i64)
        ensures
            r as int == self@.num,
    {
        self.num
    }

    /// The positive denominator of the exact fraction held.
    pub fn den(&self) -> (r: i64)
        ensures
            r as int == self@.den,
    {
        self.den
    }

    pub fn zero() -> (r: Scalar)
        ensures
            r.wf(),
            r@ == frac_int(0),
    {
        Scalar { num: 0, den: 1 }
    }

    pub fn one() -> (r: Scalar)
        ensures
            r.wf(),
            r@ == frac_int(1),
    {
        Scalar { num: 1, den: 1 }
    }

    /// The scalar standing for the integer `n`.
    pub fn from_int(n: i64) -> (r: Scalar)
        requires
            -(SCALAR_LIMIT as int) <= n,
        ensures
            r.wf(),
            r@ == frac_int(n as int),
    {
        Scalar { num: n, den: 1 }
    }

    /// Builds `num / den`, normalising the sign into the numerator.
    ///
    /// Fails with `DivisionByZero` when `den` is zero and with `Overflow`
    /// when a field is the one value whose negation cannot be represented.
    pub fn new(num: i64, den: i64) -> (r: Result<Scalar, AutodiffError>)
        ensures
            den == 0 ==> r == Result::<Scalar, AutodiffError>::Err(AutodiffError::DivisionByZero),
            den != 0 && (num == i64::MIN || den == i64::MIN) ==> r == Result::<
                Scalar,
                AutodiffError,
            >::Err(AutodiffError::Overflow),
            den != 0 && num != i64::MIN && den != i64::MIN ==> (r matches Ok(s) && s.wf()
                && frac_eq(s@, frac(num as int, den as int))),
    {
        if den == 0 {
            Err(AutodiffError::DivisionByZero)
        } else if num == i64::MIN || den == i64::MIN {
            Err(AutodiffError::Overflow)
        } else if den > 0 {
            let s = Scalar { num, den };
            assert(frac_eq(s@, frac(num as int, den as int)));
            Ok(s)
        } else {
            let s = Scalar { num: -num, den: -den };
            proof {
                assert(s@.num * (den as int) == (num as int) * s@.den) by (nonlinear_arith)
                    requires
                        s@.num == -(num as int),
                        s@.den == -(den as int),
                ;
            }
            Ok(s)
        }
    }

    /// Narrows an exactly computed fraction back into a `Scalar`,
    /// reporting `Overflow` when it does not fit.
    fn from_parts(n: i128, d: i128) -> (r: Result<Scalar, AutodiffError>)
        requires
            1 <= d,
        ensures
            match r {
                Ok(s) => frac_fits(frac(n as int, d as int)) && s.wf() && s@ == frac(
                    n as int,
                    d as int,
                ),
                Err(e) => !frac_fits(frac(n as int, d as int)) && e == AutodiffError::Overflow,
            },
    {
        if n < -(SCALAR_LIMIT as i128) || n > SCALAR_LIMIT as i128 || d > SCALAR_LIMIT as i128 {
            Err(AutodiffError::Overflow)
        } else {
            Ok(Scalar { num: n as i64, den: d as i64 })
        }
    }

    /// Exact sum; `Overflow` exactly when the raw sum of cross products
    /// does not fit.
    pub fn add(self, other: Scalar) -> (r: Result<Scalar, AutodiffError>)
        requires
            self.wf(),
            other.wf(),
        ensures
            match r {
                Ok(s) => frac_fits(frac_add(self@, other@)) && s.wf() && s@ == frac_add(
                    self@,
                    other@,
                ),
                Err(e) => !frac_fits(frac_add(self@, other@)) && e == AutodiffError::Overflow,
            },
    {
        proof {
            lemma_mul_bound(self.num as int, other.den as int, SCALAR_LIMIT as int);
            lemma_mul_bound(other.num as int, self.den as int, SCALAR_LIMIT as int);
            lemma_pos_mul(self.den as int, other.den as int);
            lemma_mul_bound(self.den as int, other.den as int, SCALAR_LIMIT as int);
        }
        let n: i128 = (self.num as i128) * (other.den as i128) + (other.num as i128) * (self.den
            as i128);
        let d: i128 = (self.den as i128) * (other.den as i128);
        Self::from_parts(n, d)
    }

    /// Exact difference; `Overflow` exactly when the raw cross difference
    /// does not fit.
    pub fn sub(self, other: Scalar) -> (r: Result<Scalar, AutodiffError>)
        requires
            self.wf(),
            other.wf(),
        ensures
            match r {
                Ok(s) => frac_fits(frac_sub(self@, other@)) && s.wf() && s@ == frac_sub(
                    self@,
                    other@,
                ),
                Err(e) => !frac_fits(frac_sub(self@, other@)) && e == AutodiffError::Overflow,
            },
    {
        proof {
            lemma_mul_bound(self.num as int, other.den as int, SCALAR_LIMIT as int);
            lemma_mul_bound(other.num as int, self.den as int, SCALAR_LIMIT as int);
            lemma_pos_mul(self.den as int, other.den as int);
            lemma_mul_bound(self.den as int, other.den as int, SCALAR_LIMIT as int);
        }
        let n: i128 = (self.num as i128) * (other.den as i128) - (other.num as i128) * (self.den
            as i128);
        let d: i128 = (self.den as i128) * (other.den as i128);
        Self::from_parts(n, d)
    }

    /// Exact product; `Overflow` exactly when a raw field product does not fit.
    pub fn mul(self, other: Scalar) -> (r: Result<Scalar, AutodiffError>)
        requires
            self.wf(),
            other.wf(),
        ensures
            match r {
                Ok(s) => frac_fits(frac_mul(self@, other@)) && s.wf() && s@ == frac_mul(
                    self@,
                    other@,
                ),
                Err(e) => !frac_fits(frac_mul(self@, other@)) && e == AutodiffError::Overflow,
            },
    {
        proof {
            lemma_mul_bound(self.num as int, other.num as int, SCALAR_LIMIT as int);
            lemma_pos_mul(self.den as int, other.den as int);
            lemma_mul_bound(self.den as int, other.den as int, SCALAR_LIMIT as int);
        }
        let n: i128 = (self.num as i128) * (other.num as i128);
        let d: i128 = (self.den as i128) * (other.den as i128);
        Self::from_parts(n, d)
    }

    /// Exact negation. Total: the symmetric numerator range keeps `-num`
    /// representable.
    pub fn neg(self) -> (r: Scalar)
        requires
            self.wf(),
        ensures
            r.wf(),
            r@ == frac_neg(self@),
    {
        Scalar { num: -self.num, den: self.den }
    }

    /// Exact quotient. `DivisionByZero` exactly when `other` is zero,
    /// `Overflow` exactly when the raw cross products do not fit.
    pub fn div(self, other: Scalar) -> (r: Result<Scalar, AutodiffError>)
        requires
            self.wf(),
            other.wf(),
        ensures
            other@.num == 0 ==> r == Result::<Scalar, AutodiffError>::Err(
                AutodiffError::DivisionByZero,
            ),
            other@.num != 0 ==> match r {
                Ok(s) => frac_fits(frac_div(self@, other@)) && s.wf() && s@ == frac_div(
                    self@,
                    other@,
                ),
                Err(e) => !frac_fits(frac_div(self@, other@)) && e == AutodiffError::Overflow,
            },
    {
        if other.num == 0 {
            return Err(AutodiffError::DivisionByZero);
        }
        proof {
            lemma_mul_bound(self.num as int, other.den as int, SCALAR_LIMIT as int);
            lemma_mul_bound(self.den as int, other.num as int, SCALAR_LIMIT as int);
        }
        let n0: i128 = (self.num as i128) * (other.den as i128);
        let d0: i128 = (self.den as i128) * (other.num as i128);
        if other.num > 0 {
            proof {
                lemma_pos_mul(self.den as int, other.num as int);
            }
            Self::from_parts(n0, d0)
        } else {
            proof {
                lemma_neg_mul(self.den as int, other.num as int);
            }
            Self::from_parts(-n0, -d0)
        }
    }

    /// Whether the two scalars denote the same rational number.
    pub fn same_value(&self, other: &Scalar) -> (r: bool)
        requires
            self.wf(),
            other.wf(),
        ensures
            r == frac_eq(self@, other@),
    {
        proof {
            lemma_mul_bound(self.num as int, other.den as int, SCALAR_LIMIT as int);
            lemma_mul_bound(other.num as int, self.den as int, SCALAR_LIMIT as int);
        }
        (self.num as i128) * (other.den as i128) == (other.num as i128) * (self.den as i128)
    }

    /// Whether `self` denotes a strictly smaller rational than `other`.
    pub fn less_than(&self, other: &Scalar) -> (r: bool)
        requires
            self.wf(),
            other.wf(),
        ensures
            r == frac_lt(self@, other@),
    {
        proof {
            lemma_mul_bound(self.num as int, other.den as int, SCALAR_LIMIT as int);
            lemma_mul_bound(other.num as int, self.den as int, SCALAR_LIMIT as int);
        }
        (self.num as i128) * (other.den as i128) < (other.num as i128) * (self.den as i128)
    }
}

} // verus!
