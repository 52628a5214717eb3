use vstd::prelude::*;

use crate::errors::AutodiffError;
use crate::scalar::{frac_add, frac_fits, Scalar};

verus! {

/// Elementwise addition of two lists of scalars.
///
/// Fails with `ShapeMismatch` (the lists reported as single-column shapes)
/// exactly when the lengths differ, and with `Overflow` exactly when some
/// elementwise sum does not fit the scalar fields.
pub fn add_lists(ls1: Vec<Scalar>, ls2: Vec<Scalar>) -> (r: Result<Vec<Scalar>, AutodiffError>)
    requires
        forall|i: int| 0 <= i < ls1@.len() ==> ls1@[i].wf(),
        forall|i: int| 0 <= i < ls2@.len() ==> ls2@[i].wf(),
    ensures
        ls1@.len() != ls2@.len() ==> r == Result::<Vec<Scalar>, AutodiffError>::Err(
            AutodiffError::ShapeMismatch {
                left_rows: ls1@.len() as usize,
                left_cols: 1usize,
                right_rows: ls2@.len() as usize,
                right_cols: 1usize,
            },
        ),
        ls1@.len() == ls2@.len() ==> match r {
            Ok(out) => out@.len() == ls1@.len() && (forall|i: int|
                0 <= i < ls1@.len() ==> frac_fits(frac_add(ls1@[i]@, #[trigger] ls2@[i]@))) && (
            forall|i: int|
                0 <= i < out@.len() ==> (#[trigger] out@[i]).wf() && out@[i]@ == frac_add(
                    ls1@[i]@,
                    ls2@[i]@,
                )),
            Err(e) => e == AutodiffError::Overflow && (exists|i: int|
                0 <= i < ls1@.len() && !frac_fits(frac_add(ls1@[i]@, #[trigger] ls2@[i]@))),
        },
{
    if ls1.len() != ls2.len() {
        return Err(
            AutodiffError::ShapeMismatch {
                left_rows: ls1.len(),
                left_cols: 1,
                right_rows: ls2.len(),
                right_cols: 1,
            },
        );
    }
    let n = ls1.len();
    let mut out: Vec<Scalar> = Vec::new();
    let mut i: usize = 0;
    while i < n
        invariant
            i <= n,
            n == ls1@.len(),
            n == ls2@.len(),
            forall|j: int| 0 <= j < n ==> ls1@[j].wf(),
            forall|j: int| 0 <= j < n ==> ls2@[j].wf(),
            out@.len() == i,
            forall|j: int| 0 <= j < i ==> frac_fits(frac_add(ls1@[j]@, #[trigger] ls2@[j]@)),
            forall|j: int|
                0 <= j < i ==> (#[trigger] out@[j]).wf() && out@[j]@ == frac_add(
                    ls1@[j]@,
                    ls2@[j]@,
                ),
        decreases n - i,
    {
        let s = match ls1[i].add(ls2[i]) {
            Ok(s) => s,
            Err(_) => {
                proof {
                    assert(!frac_fits(frac_add(ls1@[i as int]@, ls2@[i as int]@)));
                }
                return Err(AutodiffError::Overflow);
            },
        };
        proof {
            assert(frac_fits(frac_add(ls1@[i as int]@, ls2@[i as int]@)));
            assert(s@ == frac_add(ls1@[i as int]@, ls2@[i as int]@));
        }
        out.push(s);
        i += 1;
    }
    Ok(out)
}

} // verus!
