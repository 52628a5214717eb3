use vstd::prelude::*;

use crate::errors::AutodiffError;
use crate::scalar::{frac_int, Scalar};

verus! {

/// Product of the first `i` dimension sizes: the stride of dimension `i`
/// in the row-major layout where the first dimension varies fastest.
pub open spec fn prefix_product(shape: Seq<usize>, i: int) -> int
    decreases i,
{
    if i <= 0 {
        1
    } else {
        prefix_product(shape, i - 1) * shape[i - 1]
    }
}

/// Number of elements a tensor of this shape stores.
pub open spec fn shape_product(shape: Seq<usize>) -> int {
    prefix_product(shape, shape.len() as int)
}

/// The buffer position contributed by the first `i` coordinates:
/// the partial sum of `index[j] * strides[j]`.
pub open spec fn spec_position_upto(index: Seq<usize>, strides: Seq<usize>, i: int) -> int
    decreases i,
{
    if i <= 0 {
        0
    } else {
        spec_position_upto(index, strides, i - 1) + index[i - 1] * strides[i - 1]
    }
}

/// The buffer position of an N-dimensional index under the given strides.
pub open spec fn spec_position(index: Seq<usize>, strides: Seq<usize>) -> int {
    spec_position_upto(index, strides, index.len() as int)
}

/// The buffer position contributed by the coordinates from `i` on, under the
/// canonical strides of `shape`.
pub open spec fn recompose_from(index: Seq<usize>, shape: Seq<usize>, i: int) -> int
    decreases index.len() - i,
{
    if i < 0 || i >= index.len() {
        0
    } else {
        index[i] * prefix_product(shape, i) + recompose_from(index, shape, i + 1)
    }
}

/// The buffer position of an index under the canonical strides of `shape`.
pub open spec fn recompose(index: Seq<usize>, shape: Seq<usize>) -> int {
    recompose_from(index, shape, 0)
}

/// An index is valid for a shape when it has one coordinate per dimension,
/// each strictly below that dimension's size.
pub open spec fn valid_index(index: Seq<usize>, shape: Seq<usize>) -> bool {
    &&& index.len() == shape.len()
    &&& forall|i: int| 0 <= i < index.len() ==> index[i] < shape[i]
}

/// Every prefix product of the shape fits in `usize`: the machine-level
/// precondition for computing strides and positions without overflow.
pub open spec fn strides_fit(shape: Seq<usize>) -> bool {
    forall|i: int| 0 <= i <= shape.len() ==> prefix_product(shape, i) <= usize::MAX
}

proof fn lemma_prefix_product_nonneg(shape: Seq<usize>, i: int)
    ensures
        prefix_product(shape, i) >= 0,
    decreases i,
{
    if i > 0 {
        lemma_prefix_product_nonneg(shape, i - 1);
        let p = prefix_product(shape, i - 1);
        let s = shape[i - 1] as int;
        assert(p * s >= 0) by (nonlinear_arith)
            requires
                p >= 0,
                s >= 0,
        ;
    }
}

proof fn lemma_position_upto_nonneg(index: Seq<usize>, strides: Seq<usize>, i: int)
    ensures
        spec_position_upto(index, strides, i) >= 0,
    decreases i,
{
    if i > 0 {
        lemma_position_upto_nonneg(index, strides, i - 1);
        if 0 < i <= index.len() && i <= strides.len() {
            let a = index[i - 1] as int;
            let b = strides[i - 1] as int;
            assert(a * b >= 0) by (nonlinear_arith)
                requires
                    a >= 0,
                    b >= 0,
            ;
        }
    }
}

proof fn lemma_position_upto_mono(index: Seq<usize>, strides: Seq<usize>, i: int, j: int)
    requires
        0 <= i <= j,
        j <= index.len(),
        index.len() == strides.len(),
    ensures
        spec_position_upto(index, strides, i) <= spec_position_upto(index, strides, j),
    decreases j - i,
{
    if i < j {
        lemma_position_upto_mono(index, strides, i, j - 1);
        let a = index[j - 1] as int;
        let b = strides[j - 1] as int;
        assert(a * b >= 0) by (nonlinear_arith)
            requires
                a >= 0,
                b >= 0,
        ;
    }
}

/// Computes the strides of a tensor of the given shape: the first dimension
/// has stride 1 and each later stride is the previous one times the previous
/// dimension's size. An empty shape yields the single stride 1, one entry
/// longer than the shape; a rank-0 [`Tensor`] itself stores an empty stride
/// list and addresses its lone element with the empty index, so round trips
/// for the empty shape go through the tensor, not through this function.
pub fn strides_from_shape(shape: &[usize]) -> (r: Vec<usize>)
    requires
        strides_fit(shape@),
    ensures
        r@.len() == if shape@.len() == 0 {
            1int
        } else {
            shape@.len() as int
        },
        forall|i: int| 0 <= i < r@.len() ==> r@[i] == prefix_product(shape@, i),
{
    let mut strides: Vec<usize> = Vec::new();
    strides.push(1);
    let n = shape.len();
    let mut i: usize = 1;
    while i < n
        invariant
            1 <= i,
            n == shape@.len(),
            i <= n || (n == 0 && i == 1),
            strides_fit(shape@),
            strides@.len() == i,
            forall|j: int| 0 <= j < i ==> strides@[j] == prefix_product(shape@, j),
        decreases n - i,
    {
        proof {
            lemma_prefix_product_nonneg(shape@, i - 1);
            assert(prefix_product(shape@, i as int) <= usize::MAX);
        }
        let next = strides[i - 1] * shape[i - 1];
        strides.push(next);
        i += 1;
    }
    strides
}

/// For shapes without zero-sized dimensions, every stride is bounded by the
/// element count: a buffer that fits in the address space guarantees that
/// the strides can be computed without overflow.
pub proof fn lemma_strides_fit_from_product(shape: Seq<usize>)
    requires
        forall|j: int| 0 <= j < shape.len() ==> shape[j] >= 1,
        shape_product(shape) <= usize::MAX,
    ensures
        strides_fit(shape),
{
    assert forall|i: int|
        0 <= i <= shape.len() implies prefix_product(shape, i) <= usize::MAX by {
        lemma_prefix_product_mono(shape, i, shape.len() as int);
    }
}

proof fn lemma_prefix_product_mono(shape: Seq<usize>, i: int, j: int)
    requires
        0 <= i <= j <= shape.len(),
        forall|k: int| 0 <= k < shape.len() ==> shape[k] >= 1,
    ensures
        prefix_product(shape, i) <= prefix_product(shape, j),
    decreases j - i,
{
    if i < j {
        lemma_prefix_product_mono(shape, i, j - 1);
        let p = prefix_product(shape, j - 1);
        let s = shape[j - 1] as int;
        lemma_prefix_product_nonneg(shape, i);
        assert(p <= p * s) by (nonlinear_arith)
            requires
                s >= 1,
                p >= 0,
        ;
    }
}

proof fn lemma_prefix_product_zero(shape: Seq<usize>, j: int, i: int)
    requires
        0 <= j < i <= shape.len(),
        shape[j] == 0,
    ensures
        prefix_product(shape, i) == 0,
    decreases i,
{
    if j == i - 1 {
        let p = prefix_product(shape, i - 1);
        assert(p * 0 == 0) by (nonlinear_arith);
    } else {
        lemma_prefix_product_zero(shape, j, i - 1);
        let s = shape[i - 1] as int;
        assert(0 * s == 0) by (nonlinear_arith);
    }
}

proof fn lemma_prefix_product_pos(shape: Seq<usize>, i: int)
    requires
        0 <= i <= shape.len(),
        forall|j: int| 0 <= j < shape.len() ==> shape[j] >= 1,
    ensures
        prefix_product(shape, i) >= 1,
    decreases i,
{
    if i > 0 {
        lemma_prefix_product_pos(shape, i - 1);
        let p = prefix_product(shape, i - 1);
        let s = shape[i - 1] as int;
        assert(p * s >= 1) by (nonlinear_arith)
            requires
                p >= 1,
                s >= 1,
        ;
    }
}

proof fn lemma_recompose_from_agree(a: Seq<usize>, b: Seq<usize>, shape: Seq<usize>, i: int)
    requires
        a.len() == b.len(),
        forall|j: int| i <= j < a.len() ==> a[j] == b[j],
    ensures
        recompose_from(a, shape, i) == recompose_from(b, shape, i),
    decreases a.len() - i,
{
    if 0 <= i < a.len() {
        lemma_recompose_from_agree(a, b, shape, i + 1);
    }
}

/// The scaled tail of a recomposition: the position divided by the stride of
/// dimension `i`, written without division as a nested Euclidean expansion.
spec fn recompose_scaled(index: Seq<usize>, shape: Seq<usize>, i: int) -> int
    decreases index.len() - i,
{
    if i < 0 || i >= index.len() {
        0
    } else {
        index[i] + shape[i] * recompose_scaled(index, shape, i + 1)
    }
}

proof fn lemma_recompose_scaled_nonneg(index: Seq<usize>, shape: Seq<usize>, i: int)
    ensures
        recompose_scaled(index, shape, i) >= 0,
    decreases index.len() - i,
{
    if 0 <= i < index.len() {
        lemma_recompose_scaled_nonneg(index, shape, i + 1);
        let s = shape[i] as int;
        let t = recompose_scaled(index, shape, i + 1);
        assert(s * t >= 0) by (nonlinear_arith)
            requires
                s >= 0,
                t >= 0,
        ;
    }
}

proof fn lemma_recompose_from_scaled(index: Seq<usize>, shape: Seq<usize>, i: int)
    requires
        index.len() == shape.len(),
        0 <= i,
    ensures
        recompose_from(index, shape, i) == prefix_product(shape, i) * recompose_scaled(
            index,
            shape,
            i,
        ),
    decreases index.len() - i,
{
    let p = prefix_product(shape, i);
    if i >= index.len() {
        assert(p * 0 == 0) by (nonlinear_arith);
    } else {
        lemma_recompose_from_scaled(index, shape, i + 1);
        let s = shape[i] as int;
        let a = index[i] as int;
        let t = recompose_scaled(index, shape, i + 1);
        assert(prefix_product(shape, i + 1) == p * s);
        assert(a * p + (p * s) * t == p * (a + s * t)) by (nonlinear_arith);
    }
}

proof fn lemma_recompose_scaled_unique(a: Seq<usize>, b: Seq<usize>, shape: Seq<usize>, i: int)
    requires
        valid_index(a, shape),
        valid_index(b, shape),
        0 <= i <= shape.len(),
        recompose_scaled(a, shape, i) == recompose_scaled(b, shape, i),
    ensures
        forall|j: int| i <= j < shape.len() ==> a[j] == b[j],
    decreases shape.len() - i,
{
    if i < shape.len() {
        let s = shape[i] as int;
        let x = recompose_scaled(a, shape, i + 1);
        let y = recompose_scaled(b, shape, i + 1);
        let v = recompose_scaled(a, shape, i);
        lemma_recompose_scaled_nonneg(a, shape, i + 1);
        lemma_recompose_scaled_nonneg(b, shape, i + 1);
        assert(s * x == x * s) by (nonlinear_arith);
        assert(s * y == y * s) by (nonlinear_arith);
        vstd::arithmetic::div_mod::lemma_fundamental_div_mod_converse(v, s, x, a[i] as int);
        vstd::arithmetic::div_mod::lemma_fundamental_div_mod_converse(v, s, y, b[i] as int);
        lemma_recompose_scaled_unique(a, b, shape, i + 1);
    }
}

/// An index valid for its shape maps to a position inside the buffer:
/// `recompose` stays strictly below the number of elements.
pub proof fn lemma_recompose_in_range(index: Seq<usize>, shape: Seq<usize>)
    requires
        valid_index(index, shape),
    ensures
        0 <= recompose(index, shape) < shape_product(shape),
{
    lemma_recompose_bound(index, shape, 0);
}

proof fn lemma_recompose_bound(index: Seq<usize>, shape: Seq<usize>, i: int)
    requires
        valid_index(index, shape),
        0 <= i <= shape.len(),
    ensures
        0 <= recompose_from(index, shape, i) <= prefix_product(shape, shape.len() as int)
            - prefix_product(shape, i),
    decreases shape.len() - i,
{
    let n = shape.len() as int;
    if i == n {
        assert(recompose_from(index, shape, i) == 0);
    } else {
        lemma_recompose_bound(index, shape, i + 1);
        let p = prefix_product(shape, i);
        let s = shape[i] as int;
        let a = index[i] as int;
        let rest = recompose_from(index, shape, i + 1);
        lemma_prefix_product_nonneg(shape, i);
        assert(a * p + rest >= 0 && a * p + rest <= prefix_product(shape, n) - p)
            by (nonlinear_arith)
            requires
                0 <= a < s,
                p >= 0,
                rest >= 0,
                rest <= prefix_product(shape, n) - p * s,
                prefix_product(shape, i + 1) == p * s,
        ;
    }
}

/// The round-trip law: two valid indexes of the same shape that occupy the
/// same buffer position are the same index, so recovering an index from its
/// position yields exactly the index that produced it.
pub proof fn lemma_recompose_unique(a: Seq<usize>, b: Seq<usize>, shape: Seq<usize>)
    requires
        valid_index(a, shape),
        valid_index(b, shape),
        recompose(a, shape) == recompose(b, shape),
    ensures
        a == b,
{
    lemma_recompose_from_scaled(a, shape, 0);
    lemma_recompose_from_scaled(b, shape, 0);
    assert(prefix_product(shape, 0) == 1);
    assert(1 * recompose_scaled(a, shape, 0) == recompose_scaled(a, shape, 0))
        by (nonlinear_arith);
    assert(1 * recompose_scaled(b, shape, 0) == recompose_scaled(b, shape, 0))
        by (nonlinear_arith);
    lemma_recompose_scaled_unique(a, b, shape, 0);
    assert(a =~= b);
}

/// Under the canonical strides of a shape, the strided position sum agrees
/// with the direct recomposition against the shape.
pub proof fn lemma_position_eq_recompose(index: Seq<usize>, strides: Seq<usize>, shape: Seq<usize>)
    requires
        index.len() == shape.len(),
        strides.len() == shape.len(),
        forall|j: int| 0 <= j < shape.len() ==> strides[j] == prefix_product(shape, j),
    ensures
        spec_position(index, strides) == recompose(index, shape),
{
    lemma_position_split(index, strides, shape, index.len() as int);
}

proof fn lemma_position_split(index: Seq<usize>, strides: Seq<usize>, shape: Seq<usize>, i: int)
    requires
        index.len() == shape.len(),
        strides.len() == shape.len(),
        forall|j: int| 0 <= j < shape.len() ==> strides[j] == prefix_product(shape, j),
        0 <= i <= index.len(),
    ensures
        spec_position_upto(index, strides, i) + recompose_from(index, shape, i) == recompose(
            index,
            shape,
        ),
    decreases i,
{
    if i == 0 {
        assert(spec_position_upto(index, strides, 0) == 0);
    } else {
        lemma_position_split(index, strides, shape, i - 1);
    }
}

/// Converts an N-dimensional tensor index to the position in the flat buffer
/// under the given strides: the sum of `index[i] * strides[i]`.
///
/// Fails with `IndexOutOfBounds` exactly when `index` and `strides` do not
/// have the same length.
pub fn index_to_position(index: &[usize], strides: &[usize]) -> (r: Result<usize, AutodiffError>)
    requires
        index@.len() == strides@.len() ==> spec_position(index@, strides@) <= usize::MAX,
    ensures
        match r {
            Ok(p) => index@.len() == strides@.len() && p as int == spec_position(index@, strides@),
            Err(e) => index@.len() != strides@.len() && e == AutodiffError::IndexOutOfBounds,
        },
{
    if index.len() != strides.len() {
        return Err(AutodiffError::IndexOutOfBounds);
    }
    let n = index.len();
    let mut acc: usize = 0;
    let mut i: usize = 0;
    while i < n
        invariant
            0 <= i <= n,
            n == index@.len(),
            n == strides@.len(),
            spec_position(index@, strides@) <= usize::MAX,
            acc as int == spec_position_upto(index@, strides@, i as int),
        decreases n - i,
    {
        proof {
            lemma_position_upto_nonneg(index@, strides@, i as int);
            lemma_position_upto_mono(index@, strides@, i + 1, n as int);
        }
        let term = index[i] * strides[i];
        acc = acc + term;
        i += 1;
    }
    Ok(acc)
}

/// Converts a position in the flat buffer back to the N-dimensional index
/// occupying it, by successive division and remainder against the strides,
/// most significant dimension first. The inverse of [`index_to_position`].
///
/// Fails with `IndexOutOfBounds` exactly when `position` lies beyond the
/// buffer of a tensor of this shape.
pub fn position_to_index(position: usize, shape: &[usize]) -> (r: Result<
    Vec<usize>,
    AutodiffError,
>)
    requires
        strides_fit(shape@),
    ensures
        match r {
            Ok(index) => position < shape_product(shape@) && valid_index(index@, shape@)
                && recompose(index@, shape@) == position,
            Err(e) => position >= shape_product(shape@) && e == AutodiffError::IndexOutOfBounds,
        },
{
    let n = shape.len();
    let strides = strides_from_shape(shape);
    let total: usize = if n == 0 {
        1
    } else {
        proof {
            lemma_prefix_product_nonneg(shape@, n - 1);
            assert(prefix_product(shape@, n as int) <= usize::MAX);
        }
        strides[n - 1] * shape[n - 1]
    };
    if position >= total {
        return Err(AutodiffError::IndexOutOfBounds);
    }
    proof {
        assert forall|j: int| 0 <= j < n implies shape@[j] >= 1 by {
            if shape@[j] == 0 {
                lemma_prefix_product_zero(shape@, j, n as int);
            }
        }
    }
    let mut index: Vec<usize> = Vec::new();
    let mut k: usize = 0;
    while k < n
        invariant
            index@.len() == k,
            k <= n,
        decreases n - k,
    {
        index.push(0);
        k += 1;
    }
    let mut pos = position;
    let mut i = n;
    while i > 0
        invariant
            0 <= i <= n,
            n == shape@.len(),
            strides_fit(shape@),
            strides@.len() == if n == 0 {
                1int
            } else {
                n as int
            },
            forall|j: int| 0 <= j < strides@.len() ==> strides@[j] == prefix_product(shape@, j),
            forall|j: int| 0 <= j < n ==> shape@[j] >= 1,
            index@.len() == n,
            pos < prefix_product(shape@, i as int),
            forall|j: int| i <= j < n ==> index@[j] < shape@[j],
            recompose_from(index@, shape@, i as int) + pos == position,
        decreases i,
    {
        i -= 1;
        proof {
            lemma_prefix_product_pos(shape@, i as int);
        }
        let s = strides[i];
        let q = pos / s;
        let r2 = pos % s;
        proof {
            let si = shape@[i as int] as int;
            let p = prefix_product(shape@, i as int);
            vstd::arithmetic::div_mod::lemma_fundamental_div_mod(pos as int, s as int);
            assert(q < si) by (nonlinear_arith)
                requires
                    pos == p * (q as int) + r2,
                    0 <= r2 < p,
                    1 <= p,
                    (pos as int) < p * si,
                    0 <= q,
            ;
            let ghost old_index = index@;
            assert(recompose_from(old_index.update(i as int, q), shape@, i as int + 1)
                == recompose_from(old_index, shape@, i as int + 1)) by {
                lemma_recompose_from_agree(
                    old_index.update(i as int, q),
                    old_index,
                    shape@,
                    i as int + 1,
                );
            }
        }
        index.set(i, q);
        pos = r2;
        proof {
            assert(recompose_from(index@, shape@, i as int) == (index@[i as int] as int)
                * prefix_product(shape@, i as int) + recompose_from(index@, shape@, i as int + 1));
            assert((q as int) * prefix_product(shape@, i as int) == prefix_product(
                shape@,
                i as int,
            ) * (q as int)) by (nonlinear_arith);
        }
    }
    proof {
        assert(prefix_product(shape@, 0) == 1);
    }
    Ok(index)
}

/// An N-dimensional tensor: a flat buffer of scalars addressed through a
/// shape and its canonical strides. The first dimension varies fastest;
/// `strides[0] == 1` and each later stride is the previous stride times the
/// previous dimension's size. The buffer holds exactly `product(shape)`
/// elements.
pub struct Tensor {
    pub data: Vec<Scalar>,
    pub shape: Vec<usize>,
    pub strides: Vec<usize>,
}

impl Tensor {
    /// The storage invariant: canonical strides, a buffer of exactly
    /// `product(shape)` well-formed scalars, and prefix products that fit
    /// the machine word.
    pub open spec fn wf(self) -> bool {
        &&& self.strides@.len() == self.shape@.len()
        &&& forall|i: int|
            0 <= i < self.shape@.len() ==> self.strides@[i] == prefix_product(self.shape@, i)
        &&& self.data@.len() == shape_product(self.shape@)
        &&& strides_fit(self.shape@)
        &&& forall|i: int| 0 <= i < self.data@.len() ==> self.data@[i].wf()
    }

    /// Copies a shape slice into an owned vector.
    fn copy_shape(shape: &[usize]) -> (r: Vec<usize>)
        ensures
            r@ == shape@,
    {
        let mut out: Vec<usize> = Vec::new();
        let mut i: usize = 0;
        while i < shape.len()
            invariant
                i <= shape@.len(),
                out@ == shape@.take(i as int),
            decreases shape@.len() - i,
        {
            out.push(shape[i]);
            proof {
                assert(out@ =~= shape@.take(i + 1));
            }
            i += 1;
        }
        proof {
            assert(out@ =~= shape@);
        }
        out
    }

    /// Builds the canonical strides of `shape`, one stride per dimension.
    fn make_strides(shape: &[usize]) -> (r: Vec<usize>)
        requires
            strides_fit(shape@),
        ensures
            r@.len() == shape@.len(),
            forall|i: int| 0 <= i < r@.len() ==> r@[i] == prefix_product(shape@, i),
    {
        if shape.len() == 0 {
            Vec::new()
        } else {
            strides_from_shape(shape)
        }
    }

    /// The number of elements a tensor of `shape` stores.
    fn element_count(shape: &[usize]) -> (r: usize)
        requires
            strides_fit(shape@),
        ensures
            r as int == shape_product(shape@),
    {
        let n = shape.len();
        if n == 0 {
            1
        } else {
            let strides = Self::make_strides(shape);
            proof {
                lemma_prefix_product_nonneg(shape@, n - 1);
                assert(prefix_product(shape@, n as int) <= usize::MAX);
            }
            strides[n - 1] * shape[n - 1]
        }
    }

    /// Wraps a flat buffer as a tensor of the given shape.
    ///
    /// Fails with `InvalidConstruction` exactly when the buffer does not
    /// hold `product(shape)` elements.
    pub fn new(shape: &[usize], data: Vec<Scalar>) -> (r: Result<Tensor, AutodiffError>)
        requires
            strides_fit(shape@),
            forall|i: int| 0 <= i < data@.len() ==> data@[i].wf(),
        ensures
            match r {
                Ok(t) => data@.len() == shape_product(shape@) && t.wf() && t.shape@ == shape@
                    && t.data@ == data@,
                Err(e) => data@.len() != shape_product(shape@) && e
                    == AutodiffError::InvalidConstruction,
            },
    {
        let total = Self::element_count(shape);
        if data.len() != total {
            return Err(AutodiffError::InvalidConstruction);
        }
        let strides = Self::make_strides(shape);
        Ok(Tensor { data, shape: Self::copy_shape(shape), strides })
    }

    /// A tensor of the given shape with every element equal to the given
    /// scalar. Shapes with a zero-sized dimension yield an empty buffer:
    /// the empty tensor is an explicitly supported case.
    pub fn filled(shape: &[usize], value: Scalar) -> (r: Tensor)
        requires
            strides_fit(shape@),
            value.wf(),
        ensures
            r.wf(),
            r.shape@ == shape@,
            r.data@.len() == shape_product(shape@),
            forall|i: int| 0 <= i < r.data@.len() ==> r.data@[i] == value,
    {
        let total = Self::element_count(shape);
        let mut data: Vec<Scalar> = Vec::new();
        let mut i: usize = 0;
        while i < total
            invariant
                i <= total,
                data@.len() == i,
                forall|j: int| 0 <= j < i ==> data@[j] == value,
            decreases total - i,
        {
            data.push(value);
            i += 1;
        }
        let strides = Self::make_strides(shape);
        Tensor { data, shape: Self::copy_shape(shape), strides }
    }

    /// A tensor of the given shape filled with zeros.
    pub fn zeros(shape: &[usize]) -> (r: Tensor)
        requires
            strides_fit(shape@),
        ensures
            r.wf(),
            r.shape@ == shape@,
            r.data@.len() == shape_product(shape@),
            forall|i: int| 0 <= i < r.data@.len() ==> r.data@[i]@ == frac_int(0),
    {
        Self::filled(shape, Scalar::zero())
    }

    /// A tensor of the given shape filled with ones.
    pub fn ones(shape: &[usize]) -> (r: Tensor)
        requires
            strides_fit(shape@),
        ensures
            r.wf(),
            r.shape@ == shape@,
            r.data@.len() == shape_product(shape@),
            forall|i: int| 0 <= i < r.data@.len() ==> r.data@[i]@ == frac_int(1),
    {
        Self::filled(shape, Scalar::one())
    }

    /// Whether every coordinate of `index` is in bounds for this shape;
    /// reports the position of the element when it is.
    fn locate(&self, index: &[usize]) -> (r: Result<usize, AutodiffError>)
        requires
            self.wf(),
        ensures
            match r {
                Ok(p) => valid_index(index@, self.shape@) && p as int == recompose(
                    index@,
                    self.shape@,
                ) && p < self.data@.len(),
                Err(e) => !valid_index(index@, self.shape@) && e == AutodiffError::IndexOutOfBounds,
            },
    {
        let n = self.shape.len();
        if index.len() != n {
            return Err(AutodiffError::IndexOutOfBounds);
        }
        let mut i: usize = 0;
        while i < n
            invariant
                i <= n,
                n == self.shape@.len(),
                n == index@.len(),
                forall|j: int| 0 <= j < i ==> index@[j] < self.shape@[j],
            decreases n - i,
        {
            if index[i] >= self.shape[i] {
                return Err(AutodiffError::IndexOutOfBounds);
            }
            i += 1;
        }
        proof {
            lemma_recompose_in_range(index@, self.shape@);
            lemma_position_eq_recompose(index@, self.strides@, self.shape@);
        }
        match index_to_position(index, self.strides.as_slice()) {
            Ok(p) => Ok(p),
            Err(_) => Err(AutodiffError::IndexOutOfBounds),
        }
    }

    /// Reads the element at an N-dimensional index.
    ///
    /// Fails with `IndexOutOfBounds` exactly when the index has the wrong
    /// number of coordinates or a coordinate reaches beyond its dimension.
    pub fn get(&self, index: &[usize]) -> (r: Result<Scalar, AutodiffError>)
        requires
            self.wf(),
        ensures
            match r {
                Ok(v) => valid_index(index@, self.shape@) && v == self.data@[recompose(
                    index@,
                    self.shape@,
                )] && v.wf(),
                Err(e) => !valid_index(index@, self.shape@) && e == AutodiffError::IndexOutOfBounds,
            },
    {
        let p = self.locate(index)?;
        Ok(self.data[p])
    }

    /// Writes the element at an N-dimensional index, leaving every other
    /// element, the shape and the strides unchanged.
    ///
    /// Fails with `IndexOutOfBounds` exactly when the index has the wrong
    /// number of coordinates or a coordinate reaches beyond its dimension;
    /// the tensor is then left untouched.
    pub fn set(&mut self, index: &[usize], value: Scalar) -> (r: Result<(), AutodiffError>)
        requires
            old(self).wf(),
            value.wf(),
        ensures
            final(self).shape@ == old(self).shape@,
            final(self).strides@ == old(self).strides@,
            match r {
                Ok(()) => valid_index(index@, old(self).shape@) && final(self).data@ == old(
                    self,
                ).data@.update(recompose(index@, old(self).shape@), value) && final(self).wf(),
                Err(e) => !valid_index(index@, old(self).shape@) && e
                    == AutodiffError::IndexOutOfBounds && final(self).data@ == old(self).data@,
            },
    {
        let p = match self.locate(index) {
            Ok(p) => p,
            Err(e) => {
                return Err(e);
            },
        };
        self.data.set(p, value);
        Ok(())
    }
}

} // verus!
