use vstd::prelude::*;

use crate::errors::AutodiffError;
use crate::rng;
use crate::scalar::{frac_int, Scalar};
use crate::vector::{dot_fits, dot_product, dot_upto};

verus! {

/// A two-dimensional tensor stored as a list of rows, each a list of
/// scalars of the same length.
pub struct Matrix {
    pub rows: usize,
    pub cols: usize,
    pub data: Vec<Vec<Scalar>>,
}

/// The column `j` of a matrix, read top to bottom.
pub open spec fn col_seq(m: Matrix, j: int) -> Seq<Scalar> {
    Seq::new(m.rows as nat, |k: int| m.entry(k, j))
}

/// `b` holds exactly the entries of `a` with the two axes swapped.
pub open spec fn is_transpose(a: Matrix, b: Matrix) -> bool {
    &&& b.rows == a.cols
    &&& b.cols == a.rows
    &&& forall|i: int, j: int|
        0 <= i < a.rows && 0 <= j < a.cols ==> b.entry(j, i) == a.entry(i, j)
}

/// Transposing a transpose restores the original matrix: the shape returns
/// to `(rows, cols)` and every entry returns to its place.
pub proof fn lemma_transpose_involution(m: Matrix, t: Matrix, u: Matrix)
    requires
        is_transpose(m, t),
        is_transpose(t, u),
    ensures
        u.rows == m.rows,
        u.cols == m.cols,
        forall|i: int, j: int|
            0 <= i < m.rows && 0 <= j < m.cols ==> u.entry(i, j) == m.entry(i, j),
{
    assert forall|i: int, j: int|
        0 <= i < m.rows && 0 <= j < m.cols implies u.entry(i, j) == m.entry(i, j) by {
        assert(u.entry(i, j) == t.entry(j, i));
        assert(t.entry(j, i) == m.entry(i, j));
    }
}

impl Matrix {
    /// The storage invariant: one row list per row, each of length `cols`,
    /// holding only well-formed scalars.
    pub open spec fn wf(self) -> bool {
        &&& self.data@.len() == self.rows
        &&& forall|i: int| 0 <= i < self.rows ==> (#[trigger] self.data@[i])@.len() == self.cols
        &&& forall|i: int, j: int|
            0 <= i < self.rows && 0 <= j < self.cols ==> (#[trigger] self.entry(i, j)).wf()
    }

    /// The entry in row `i`, column `j`.
    pub open spec fn entry(self, i: int, j: int) -> Scalar {
        self.data@[i]@[j]
    }

    /// A matrix with every entry equal to the given scalar.
    pub fn filled(rows: usize, cols: usize, value: Scalar) -> (r: Matrix)
        requires
            value.wf(),
        ensures
            r.wf(),
            r.rows == rows,
            r.cols == cols,
            forall|i: int, j: int| 0 <= i < rows && 0 <= j < cols ==> r.entry(i, j) == value,
    {
        let mut data: Vec<Vec<Scalar>> = Vec::new();
        let mut i: usize = 0;
        while i < rows
            invariant
                i <= rows,
                data@.len() == i,
                forall|a: int| 0 <= a < i ==> (#[trigger] data@[a])@.len() == cols,
                forall|a: int, b: int|
                    0 <= a < i && 0 <= b < cols ==> (#[trigger] data@[a]@[b]) == value,
            decreases rows - i,
        {
            let mut row: Vec<Scalar> = Vec::new();
            let mut j: usize = 0;
            while j < cols
                invariant
                    j <= cols,
                    row@.len() == j,
                    forall|b: int| 0 <= b < j ==> (#[trigger] row@[b]) == value,
                decreases cols - j,
            {
                row.push(value);
                j += 1;
            }
            data.push(row);
            i += 1;
        }
        Matrix { rows, cols, data }
    }

    /// A matrix of zeros.
    pub fn zeros(rows: usize, cols: usize) -> (r: Matrix)
        ensures
            r.wf(),
            r.rows == rows,
            r.cols == cols,
            forall|i: int, j: int|
                0 <= i < rows && 0 <= j < cols ==> (#[trigger] r.entry(i, j))@ == frac_int(0),
    {
        Self::filled(rows, cols, Scalar::zero())
    }

    /// A matrix of ones.
    pub fn ones(rows: usize, cols: usize) -> (r: Matrix)
        ensures
            r.wf(),
            r.rows == rows,
            r.cols == cols,
            forall|i: int, j: int|
                0 <= i < rows && 0 <= j < cols ==> (#[trigger] r.entry(i, j))@ == frac_int(1),
    {
        Self::filled(rows, cols, Scalar::one())
    }

    /// An uninitialised matrix of the given dimensions, holding zeros.
    pub fn new_empty(rows: usize, cols: usize) -> (r: Matrix)
        ensures
            r.wf(),
            r.rows == rows,
            r.cols == cols,
            forall|i: int, j: int|
                0 <= i < rows && 0 <= j < cols ==> (#[trigger] r.entry(i, j))@ == frac_int(0),
    {
        Self::zeros(rows, cols)
    }

    /// A matrix of pseudo-random scalars in the unit interval, drawn from a
    /// fixed-seed generator. Nothing is promised of the values beyond their
    /// range: every outcome of the generator yields a well-formed matrix.
    pub fn random(rows: usize, cols: usize) -> (r: Matrix)
        ensures
            r.wf(),
            r.rows == rows,
            r.cols == cols,
            forall|i: int, j: int|
                0 <= i < rows && 0 <= j < cols ==> 0 <= (#[trigger] r.entry(i, j))@.num <= r.entry(
                    i,
                    j,
                )@.den,
    {
        let mut source = rng::new_source(1, 1);
        let mut data: Vec<Vec<Scalar>> = Vec::new();
        let mut i: usize = 0;
        while i < rows
            invariant
                i <= rows,
                data@.len() == i,
                forall|a: int| 0 <= a < i ==> (#[trigger] data@[a])@.len() == cols,
                forall|a: int, b: int|
                    0 <= a < i && 0 <= b < cols ==> (#[trigger] data@[a]@[b]).wf() && 0
                        <= data@[a]@[b]@.num <= data@[a]@[b]@.den,
            decreases rows - i,
        {
            let mut row: Vec<Scalar> = Vec::new();
            let mut j: usize = 0;
            while j < cols
                invariant
                    j <= cols,
                    row@.len() == j,
                    forall|b: int|
                        0 <= b < j ==> (#[trigger] row@[b]).wf() && 0 <= row@[b]@.num
                            <= row@[b]@.den,
                decreases cols - j,
            {
                let word = rng::next_u64(&mut source);
                let unit = word >> 11;
                proof {
                    assert(word >> 11 < 0x20_0000_0000_0000u64) by (bit_vector);
                }
                let s = Scalar { num: unit as i64, den: 0x20_0000_0000_0000 };
                row.push(s);
                j += 1;
            }
            data.push(row);
            i += 1;
        }
        Matrix { rows, cols, data }
    }

    /// Wraps a list of rows as a matrix.
    ///
    /// Fails with `InvalidConstruction` exactly when some row's length
    /// differs from the first row's.
    pub fn new(data: Vec<Vec<Scalar>>) -> (r: Result<Matrix, AutodiffError>)
        requires
            data@.len() >= 1,
            forall|i: int, j: int|
                0 <= i < data@.len() && 0 <= j < data@[i]@.len() ==> (#[trigger] data@[i]@[j]).wf(),
        ensures
            match r {
                Ok(m) => (forall|i: int|
                    0 <= i < data@.len() ==> (#[trigger] data@[i])@.len() == data@[0]@.len())
                    && m.rows == data@.len() && m.cols == data@[0]@.len() && m.data@ == data@
                    && m.wf(),
                Err(e) => (exists|i: int|
                    0 <= i < data@.len() && (#[trigger] data@[i])@.len() != data@[0]@.len()) && e
                    == AutodiffError::InvalidConstruction,
            },
    {
        let rows = data.len();
        let cols = data[0].len();
        let mut i: usize = 1;
        while i < rows
            invariant
                1 <= i <= rows,
                rows == data@.len(),
                cols == data@[0]@.len(),
                forall|a: int| 0 <= a < i ==> (#[trigger] data@[a])@.len() == cols,
            decreases rows - i,
        {
            if data[i].len() != cols {
                return Err(AutodiffError::InvalidConstruction);
            }
            i += 1;
        }
        Ok(Matrix { rows, cols, data })
    }

    /// Reads the entry at the given row and column.
    ///
    /// Fails with `IndexOutOfBounds` exactly when either coordinate reaches
    /// beyond the matrix.
    pub fn get(&self, row: usize, col: usize) -> (r: Result<Scalar, AutodiffError>)
        requires
            self.wf(),
        ensures
            match r {
                Ok(v) => row < self.rows && col < self.cols && v == self.entry(
                    row as int,
                    col as int,
                ) && v.wf(),
                Err(e) => (row >= self.rows || col >= self.cols) && e
                    == AutodiffError::IndexOutOfBounds,
            },
    {
        if row >= self.rows || col >= self.cols {
            return Err(AutodiffError::IndexOutOfBounds);
        }
        proof {
            assert(self.entry(row as int, col as int).wf());
        }
        Ok(self.data[row][col])
    }

    /// Writes the entry at the given row and column in place, leaving every
    /// other entry unchanged.
    ///
    /// Fails with `IndexOutOfBounds` exactly when either coordinate reaches
    /// beyond the matrix; the matrix is then left untouched.
    pub fn set(&mut self, row: usize, col: usize, value: Scalar) -> (r: Result<(), AutodiffError>)
        requires
            old(self).wf(),
            value.wf(),
        ensures
            final(self).rows == old(self).rows,
            final(self).cols == old(self).cols,
            match r {
                Ok(()) => row < old(self).rows && col < old(self).cols && final(self).wf()
                    && final(self).entry(row as int, col as int) == value && (forall|i: int, j: int|
                    0 <= i < old(self).rows && 0 <= j < old(self).cols && !(i == row && j == col)
                        ==> (#[trigger] final(self).entry(i, j)) == old(self).entry(i, j)),
                Err(e) => (row >= old(self).rows || col >= old(self).cols) && e
                    == AutodiffError::IndexOutOfBounds && final(self).data@ == old(self).data@,
            },
    {
        if row >= self.rows || col >= self.cols {
            return Err(AutodiffError::IndexOutOfBounds);
        }
        let cols = self.cols;
        let mut new_row: Vec<Scalar> = Vec::new();
        let mut k: usize = 0;
        while k < cols
            invariant
                k <= cols,
                row < old(self).rows,
                col < cols,
                self == old(self),
                cols == old(self).cols,
                old(self).wf(),
                value.wf(),
                new_row@.len() == k,
                forall|b: int|
                    0 <= b < k ==> (#[trigger] new_row@[b]) == if b == col {
                        value
                    } else {
                        old(self).entry(row as int, b)
                    },
            decreases cols - k,
        {
            if k == col {
                new_row.push(value);
            } else {
                new_row.push(self.data[row][k]);
            }
            k += 1;
        }
        self.data.set(row, new_row);
        proof {
            assert(self.entry(row as int, col as int) == value);
            assert forall|i: int, j: int|
                0 <= i < self.rows && 0 <= j < self.cols && !(i == row && j == col) implies (
            #[trigger] self.entry(i, j)) == old(self).entry(i, j) by {
                if i == row {
                    assert(self.data@[i]@[j] == new_row@[j]);
                } else {
                    assert(self.data@[i] == old(self).data@[i]);
                }
            }
            assert forall|i: int, j: int|
                0 <= i < self.rows && 0 <= j < self.cols implies (#[trigger] self.entry(
                i,
                j,
            )).wf() by {
                if i == row && j == col {
                } else {
                    assert(self.entry(i, j) == old(self).entry(i, j));
                    assert(old(self).entry(i, j).wf());
                }
            }
        }
        Ok(())
    }

    /// The column `j`, copied into an owned vector.
    fn column(&self, j: usize) -> (r: Vec<Scalar>)
        requires
            self.wf(),
            j < self.cols,
        ensures
            r@ == col_seq(*self, j as int),
            forall|k: int| 0 <= k < r@.len() ==> (#[trigger] r@[k]).wf(),
    {
        let mut out: Vec<Scalar> = Vec::new();
        let mut k: usize = 0;
        while k < self.rows
            invariant
                k <= self.rows,
                self.wf(),
                j < self.cols,
                out@.len() == k,
                forall|b: int| 0 <= b < k ==> (#[trigger] out@[b]) == self.entry(b, j as int),
            decreases self.rows - k,
        {
            out.push(self.data[k][j]);
            k += 1;
        }
        proof {
            assert(out@ =~= col_seq(*self, j as int));
        }
        out
    }

    /// The matrix product.
    ///
    /// Requires the left operand's column count to equal the right operand's
    /// row count; fails with `ShapeMismatch`, reporting both shapes,
    /// otherwise. On success the result has shape `(self.rows, other.cols)`
    /// and each entry is the exact dot product of the corresponding row of
    /// `self` and column of `other`. Fails with `Overflow` exactly when some
    /// exact intermediate of one of those dot products does not fit the
    /// scalar fields.
    pub fn matmul(&self, other: &Matrix) -> (r: Result<Matrix, AutodiffError>)
        requires
            self.wf(),
            other.wf(),
        ensures
            self.cols != other.rows ==> (r matches Err(e) && e == (AutodiffError::ShapeMismatch {
                left_rows: self.rows,
                left_cols: self.cols,
                right_rows: other.rows,
                right_cols: other.cols,
            })),
            self.cols == other.rows ==> match r {
                Ok(p) => p.wf() && p.rows == self.rows && p.cols == other.cols && (forall|
                    i: int,
                    j: int,
                |
                    0 <= i < self.rows && 0 <= j < other.cols ==> #[trigger] dot_fits(
                        self.data@[i]@,
                        col_seq(*other, j),
                        self.cols as int,
                    )) && (forall|i: int, j: int|
                    0 <= i < self.rows && 0 <= j < other.cols ==> (#[trigger] p.entry(i, j))@
                        == dot_upto(self.data@[i]@, col_seq(*other, j), self.cols as int)),
                Err(e) => e == AutodiffError::Overflow && (exists|i: int, j: int|
                    0 <= i < self.rows && 0 <= j < other.cols && !(#[trigger] dot_fits(
                        self.data@[i]@,
                        col_seq(*other, j),
                        self.cols as int,
                    ))),
            },
    {
        if self.cols != other.rows {
            return Err(
                AutodiffError::ShapeMismatch {
                    left_rows: self.rows,
                    left_cols: self.cols,
                    right_rows: other.rows,
                    right_cols: other.cols,
                },
            );
        }
        let mut data: Vec<Vec<Scalar>> = Vec::new();
        let mut i: usize = 0;
        while i < self.rows
            invariant
                i <= self.rows,
                self.wf(),
                other.wf(),
                self.cols == other.rows,
                data@.len() == i,
                forall|a: int| 0 <= a < i ==> (#[trigger] data@[a])@.len() == other.cols,
                forall|a: int, b: int|
                    0 <= a < i && 0 <= b < other.cols ==> #[trigger] dot_fits(
                        self.data@[a]@,
                        col_seq(*other, b),
                        self.cols as int,
                    ),
                forall|a: int, b: int|
                    0 <= a < i && 0 <= b < other.cols ==> (#[trigger] data@[a]@[b])@ == dot_upto(
                        self.data@[a]@,
                        col_seq(*other, b),
                        self.cols as int,
                    ) && data@[a]@[b].wf(),
            decreases self.rows - i,
        {
            let mut out_row: Vec<Scalar> = Vec::new();
            let mut j: usize = 0;
            while j < other.cols
                invariant
                    j <= other.cols,
                    i < self.rows,
                    self.wf(),
                    other.wf(),
                    self.cols == other.rows,
                    out_row@.len() == j,
                    forall|b: int|
                        0 <= b < j ==> #[trigger] dot_fits(
                            self.data@[i as int]@,
                            col_seq(*other, b),
                            self.cols as int,
                        ),
                    forall|b: int|
                        0 <= b < j ==> (#[trigger] out_row@[b])@ == dot_upto(
                            self.data@[i as int]@,
                            col_seq(*other, b),
                            self.cols as int,
                        ) && out_row@[b].wf(),
                decreases other.cols - j,
            {
                let col = other.column(j);
                proof {
                    assert(self.data@[i as int]@.len() == self.cols);
                    assert forall|k: int| 0 <= k < self.data@[i as int]@.len() implies (
                    #[trigger] self.data@[i as int]@[k]).wf() by {
                        assert(self.entry(i as int, k).wf());
                    }
                }
                let v = match dot_product(&self.data[i], &col) {
                    Ok(v) => v,
                    Err(_) => {
                        proof {
                            assert(!dot_fits(
                                self.data@[i as int]@,
                                col_seq(*other, j as int),
                                self.cols as int,
                            ));
                        }
                        return Err(AutodiffError::Overflow);
                    },
                };
                out_row.push(v);
                j += 1;
            }
            data.push(out_row);
            i += 1;
        }
        Ok(Matrix { rows: self.rows, cols: other.cols, data })
    }

    /// The matrix product; see [`Matrix::matmul`].
    pub fn dot(&self, other: &Matrix) -> (r: Result<Matrix, AutodiffError>)
        requires
            self.wf(),
            other.wf(),
        ensures
            self.cols != other.rows ==> (r matches Err(e) && e == (AutodiffError::ShapeMismatch {
                left_rows: self.rows,
                left_cols: self.cols,
                right_rows: other.rows,
                right_cols: other.cols,
            })),
            self.cols == other.rows ==> match r {
                Ok(p) => p.wf() && p.rows == self.rows && p.cols == other.cols && (forall|
                    i: int,
                    j: int,
                |
                    0 <= i < self.rows && 0 <= j < other.cols ==> (#[trigger] p.entry(i, j))@
                        == dot_upto(self.data@[i]@, col_seq(*other, j), self.cols as int)),
                Err(e) => e == AutodiffError::Overflow && (exists|i: int, j: int|
                    0 <= i < self.rows && 0 <= j < other.cols && !(#[trigger] dot_fits(
                        self.data@[i]@,
                        col_seq(*other, j),
                        self.cols as int,
                    ))),
            },
    {
        self.matmul(other)
    }

    /// The product of this matrix and a column vector: one dot product per
    /// row, yielding one element per row.
    ///
    /// Requires the vector's length to equal the column count; fails with
    /// `ShapeMismatch` (the vector reported as a single-column shape)
    /// otherwise, and with `Overflow` exactly when some exact intermediate
    /// of one of the dot products does not fit the scalar fields.
    pub fn dot_vector(&self, other: Vec<Scalar>) -> (r: Result<Vec<Scalar>, AutodiffError>)
        requires
            self.wf(),
            forall|i: int| 0 <= i < other@.len() ==> (#[trigger] other@[i]).wf(),
        ensures
            self.cols != other@.len() ==> r == Result::<Vec<Scalar>, AutodiffError>::Err(
                AutodiffError::ShapeMismatch {
                    left_rows: self.rows,
                    left_cols: self.cols,
                    right_rows: other@.len() as usize,
                    right_cols: 1usize,
                },
            ),
            self.cols == other@.len() ==> match r {
                Ok(out) => out@.len() == self.rows && (forall|i: int|
                    0 <= i < self.rows ==> #[trigger] dot_fits(
                        self.data@[i]@,
                        other@,
                        self.cols as int,
                    )) && (forall|i: int|
                    0 <= i < self.rows ==> (#[trigger] out@[i]).wf() && out@[i]@ == dot_upto(
                        self.data@[i]@,
                        other@,
                        self.cols as int,
                    )),
                Err(e) => e == AutodiffError::Overflow && (exists|i: int|
                    0 <= i < self.rows && !(#[trigger] dot_fits(
                        self.data@[i]@,
                        other@,
                        self.cols as int,
                    ))),
            },
    {
        if self.cols != other.len() {
            return Err(
                AutodiffError::ShapeMismatch {
                    left_rows: self.rows,
                    left_cols: self.cols,
                    right_rows: other.len(),
                    right_cols: 1,
                },
            );
        }
        let mut out: Vec<Scalar> = Vec::new();
        let mut i: usize = 0;
        while i < self.rows
            invariant
                i <= self.rows,
                self.wf(),
                self.cols == other@.len(),
                forall|k: int| 0 <= k < other@.len() ==> (#[trigger] other@[k]).wf(),
                out@.len() == i,
                forall|a: int|
                    0 <= a < i ==> #[trigger] dot_fits(self.data@[a]@, other@, self.cols as int),
                forall|a: int|
                    0 <= a < i ==> (#[trigger] out@[a]).wf() && out@[a]@ == dot_upto(
                        self.data@[a]@,
                        other@,
                        self.cols as int,
                    ),
            decreases self.rows - i,
        {
            proof {
                assert(self.data@[i as int]@.len() == self.cols);
                assert forall|k: int| 0 <= k < self.data@[i as int]@.len() implies (
                #[trigger] self.data@[i as int]@[k]).wf() by {
                    assert(self.entry(i as int, k).wf());
                }
            }
            let v = match dot_product(&self.data[i], &other) {
                Ok(v) => v,
                Err(_) => {
                    proof {
                        assert(!dot_fits(self.data@[i as int]@, other@, self.cols as int));
                    }
                    return Err(AutodiffError::Overflow);
                },
            };
            out.push(v);
            i += 1;
        }
        Ok(out)
    }

    /// The transpose: shape `(cols, rows)` with every entry mirrored across
    /// the diagonal. Never mutates the source.
    pub fn transpose(&self) -> (r: Matrix)
        requires
            self.wf(),
        ensures
            r.wf(),
            is_transpose(*self, r),
    {
        let mut data: Vec<Vec<Scalar>> = Vec::new();
        let mut j: usize = 0;
        while j < self.cols
            invariant
                j <= self.cols,
                self.wf(),
                data@.len() == j,
                forall|a: int| 0 <= a < j ==> (#[trigger] data@[a])@.len() == self.rows,
                forall|a: int, b: int|
                    0 <= a < j && 0 <= b < self.rows ==> (#[trigger] data@[a]@[b]) == self.entry(
                        b,
                        a,
                    ),
            decreases self.cols - j,
        {
            let mut row: Vec<Scalar> = Vec::new();
            let mut b: usize = 0;
            while b < self.rows
                invariant
                    b <= self.rows,
                    self.wf(),
                    j < self.cols,
                    row@.len() == b,
                    forall|k: int| 0 <= k < b ==> (#[trigger] row@[k]) == self.entry(k, j as int),
                decreases self.rows - b,
            {
                row.push(self.data[b][j]);
                b += 1;
            }
            data.push(row);
            j += 1;
        }
        Matrix { rows: self.cols, cols: self.rows, data }
    }
}

} // verus!
