use vstd::prelude::*;

use crate::errors::AutodiffError;
use crate::scalar::{frac_add, frac_fits, frac_int, frac_mul, Frac, Scalar};

verus! {

/// The exact value of the dot product of the first `k` pairs, accumulated
/// left to right from zero.
pub open spec fn dot_upto(a: Seq<Scalar>, b: Seq<Scalar>, k: int) -> Frac
    decreases k,
{
    if k <= 0 {
        frac_int(0)
    } else {
        frac_add(dot_upto(a, b, k - 1), frac_mul(a[k - 1]@, b[k - 1]@))
    }
}

/// Whether every intermediate of that accumulation fits the scalar fields.
pub open spec fn dot_fits(a: Seq<Scalar>, b: Seq<Scalar>, k: int) -> bool
    decreases k,
{
    if k <= 0 {
        true
    } else {
        &&& dot_fits(a, b, k - 1)
        &&& frac_fits(frac_mul(a[k - 1]@, b[k - 1]@))
        &&& frac_fits(frac_add(dot_upto(a, b, k - 1), frac_mul(a[k - 1]@, b[k - 1]@)))
    }
}

/// A later prefix of the accumulation fits only if every earlier one does.
pub proof fn lemma_dot_fits_prefix(a: Seq<Scalar>, b: Seq<Scalar>, i: int, j: int)
    requires
        0 <= i <= j,
        dot_fits(a, b, j),
    ensures
        dot_fits(a, b, i),
    decreases j - i,
{
    if i < j {
        lemma_dot_fits_prefix(a, b, i, j - 1);
    }
}

/// Evaluates the dot product of two vectors of the same length: the sum of
/// the pairwise products, accumulated left to right.
///
/// Fails with `Overflow` exactly when some exact intermediate does not fit
/// the scalar fields.
pub fn dot_product(a: &Vec<Scalar>, b: &Vec<Scalar>) -> (r: Result<Scalar, AutodiffError>)
    requires
        a@.len() == b@.len(),
        forall|i: int| 0 <= i < a@.len() ==> a@[i].wf(),
        forall|i: int| 0 <= i < b@.len() ==> b@[i].wf(),
    ensures
        match r {
            Ok(s) => dot_fits(a@, b@, a@.len() as int) && s.wf() && s@ == dot_upto(
                a@,
                b@,
                a@.len() as int,
            ),
            Err(e) => !dot_fits(a@, b@, a@.len() as int) && e == AutodiffError::Overflow,
        },
{
    let n = a.len();
    let mut acc = Scalar::zero();
    let mut i: usize = 0;
    while i < n
        invariant
            i <= n,
            n == a@.len(),
            n == b@.len(),
            forall|j: int| 0 <= j < n ==> a@[j].wf(),
            forall|j: int| 0 <= j < n ==> b@[j].wf(),
            acc.wf(),
            dot_fits(a@, b@, i as int),
            acc@ == dot_upto(a@, b@, i as int),
        decreases n - i,
    {
        let term = match a[i].mul(b[i]) {
            Ok(t) => t,
            Err(_) => {
                proof {
                    lemma_dot_fits_not(a@, b@, i as int + 1, n as int);
                }
                return Err(AutodiffError::Overflow);
            },
        };
        acc = match acc.add(term) {
            Ok(t) => t,
            Err(_) => {
                proof {
                    lemma_dot_fits_not(a@, b@, i as int + 1, n as int);
                }
                return Err(AutodiffError::Overflow);
            },
        };
        i += 1;
    }
    Ok(acc)
}

/// If the accumulation already fails by step `i`, it fails for the whole
/// vector as well.
proof fn lemma_dot_fits_not(a: Seq<Scalar>, b: Seq<Scalar>, i: int, j: int)
    requires
        0 <= i <= j,
        !dot_fits(a, b, i),
    ensures
        !dot_fits(a, b, j),
{
    if dot_fits(a, b, j) {
        lemma_dot_fits_prefix(a, b, i, j);
    }
}

} // verus!
