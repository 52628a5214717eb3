use vstd::prelude::*;

verus! {

/// A value that can produce its derivative.
pub trait Differentiable<T> {
    fn differentiate(&self) -> T;
}

} // verus!
