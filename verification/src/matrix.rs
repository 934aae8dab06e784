//! Dense matrices and vectors over a [`Scalar`], and their arithmetic.
//!
//! Every operation builds a fresh result, but for the two `sub_assign`
//! methods, which change their left operand in place. An operation whose
//! operands do not fit returns [`Error::DimensionMismatch`] and changes
//! nothing.
use vstd::prelude::*;
use crate::algebra::{
    column, constant_matrix, dot, dot_prefix, has_shape, matrix_difference, matrix_product,
    matrix_scaled, matrix_sum, matrix_vector, outer_product, rectangular, transposed,
    vector_difference, vector_scaled, vector_sum, width,
};
use crate::error::Error;
use crate::scalar::Scalar;

verus! {

/// A marker: the wrapped matrix or vector is to be read with rows and columns
/// exchanged. Nothing is copied.
#[derive(Debug)]
pub struct Transpose<T>(pub T);

/// A rectangular table of scalars, stored row by row.
#[derive(Debug)]
pub struct Matrix<T> {
    data: Vec<Vec<T>>,
}

/// A sequence of scalars of fixed length.
#[derive(Debug)]
pub struct Vector<T> {
    data: Vec<T>,
}

/// The rows of a nested vector, each as a sequence.
pub open spec fn rows_of<T>(data: Seq<Vec<T>>) -> Seq<Seq<T>> {
    Seq::new(data.len(), |i: int| data[i]@)
}

impl<T> View for Matrix<T> {
    type V = Seq<Seq<T>>;

    closed spec fn view(&self) -> Seq<Seq<T>> {
        rows_of(self.data@)
    }
}

impl<T> View for Vector<T> {
    type V = Seq<T>;

    closed spec fn view(&self) -> Seq<T> {
        self.data@
    }
}

fn dot_of<T: Scalar>(a: &Vec<T>, b: &Vec<T>) -> (r: T)
    requires
        a@.len() <= b@.len(),
    ensures
        r == dot(a@, b@),
{
    let mut acc = T::zero();
    let mut k: usize = 0;
    while k < a.len()
        invariant
            k <= a@.len() <= b@.len(),
            acc == dot_prefix(a@, b@, k as nat),
        decreases a.len() - k,
    {
        acc = acc.add(a[k].mul(b[k]));
        k += 1;
    }
    acc
}

fn row_dot_column<T: Scalar>(row: &Vec<T>, m: &Vec<Vec<T>>, j: usize) -> (r: T)
    requires
        row@.len() == m@.len(),
        forall|k: int| 0 <= k < m@.len() ==> j < (#[trigger] m@[k])@.len(),
    ensures
        r == dot(row@, column(rows_of(m@), j as int)),
{
    let ghost col = column(rows_of(m@), j as int);
    let mut acc = T::zero();
    let mut k: usize = 0;
    while k < row.len()
        invariant
            k <= row@.len() == m@.len(),
            forall|k: int| 0 <= k < m@.len() ==> j < (#[trigger] m@[k])@.len(),
            col == column(rows_of(m@), j as int),
            acc == dot_prefix(row@, col, k as nat),
        decreases row.len() - k,
    {
        assert(col[k as int] == m@[k as int]@[j as int]);
        acc = acc.add(row[k].mul(m[k][j]));
        k += 1;
    }
    acc
}

fn column_dot<T: Scalar>(m: &Vec<Vec<T>>, j: usize, v: &Vec<T>) -> (r: T)
    requires
        m@.len() == v@.len(),
        forall|k: int| 0 <= k < m@.len() ==> j < (#[trigger] m@[k])@.len(),
    ensures
        r == dot(column(rows_of(m@), j as int), v@),
{
    let ghost col = column(rows_of(m@), j as int);
    let mut acc = T::zero();
    let mut k: usize = 0;
    while k < m.len()
        invariant
            k <= m@.len() == v@.len(),
            forall|k: int| 0 <= k < m@.len() ==> j < (#[trigger] m@[k])@.len(),
            col == column(rows_of(m@), j as int),
            acc == dot_prefix(col, v@, k as nat),
        decreases m.len() - k,
    {
        assert(col[k as int] == m@[k as int]@[j as int]);
        acc = acc.add(m[k][j].mul(v[k]));
        k += 1;
    }
    acc
}

fn sum_of<T: Scalar>(a: &Vec<T>, b: &Vec<T>) -> (r: Vec<T>)
    requires
        a@.len() == b@.len(),
    ensures
        r@ == vector_sum(a@, b@),
{
    let mut out: Vec<T> = Vec::new();
    let mut i: usize = 0;
    while i < a.len()
        invariant
            i <= a@.len() == b@.len(),
            out@.len() == i,
            forall|k: int| 0 <= k < i ==> out@[k] == a@[k].sum(b@[k]),
        decreases a.len() - i,
    {
        out.push(a[i].add(b[i]));
        i += 1;
    }
    assert(out@ =~= vector_sum(a@, b@));
    out
}

fn difference_of<T: Scalar>(a: &Vec<T>, b: &Vec<T>) -> (r: Vec<T>)
    requires
        a@.len() == b@.len(),
    ensures
        r@ == vector_difference(a@, b@),
{
    let mut out: Vec<T> = Vec::new();
    let mut i: usize = 0;
    while i < a.len()
        invariant
            i <= a@.len() == b@.len(),
            out@.len() == i,
            forall|k: int| 0 <= k < i ==> out@[k] == a@[k].difference(b@[k]),
        decreases a.len() - i,
    {
        out.push(a[i].sub(b[i]));
        i += 1;
    }
    assert(out@ =~= vector_difference(a@, b@));
    out
}

fn scaled_right<T: Scalar>(v: &Vec<T>, k: T) -> (r: Vec<T>)
    ensures
        r@ == vector_scaled(v@, k),
{
    let mut out: Vec<T> = Vec::new();
    let mut i: usize = 0;
    while i < v.len()
        invariant
            i <= v@.len(),
            out@.len() == i,
            forall|l: int| 0 <= l < i ==> out@[l] == v@[l].product(k),
        decreases v.len() - i,
    {
        out.push(v[i].mul(k));
        i += 1;
    }
    assert(out@ =~= vector_scaled(v@, k));
    out
}

fn scaled_left<T: Scalar>(k: T, v: &Vec<T>) -> (r: Vec<T>)
    ensures
        r@ == Seq::new(v@.len(), |j: int| k.product(v@[j])),
{
    let mut out: Vec<T> = Vec::new();
    let mut i: usize = 0;
    while i < v.len()
        invariant
            i <= v@.len(),
            out@.len() == i,
            forall|l: int| 0 <= l < i ==> out@[l] == k.product(v@[l]),
        decreases v.len() - i,
    {
        out.push(k.mul(v[i]));
        i += 1;
    }
    assert(out@ =~= Seq::new(v@.len(), |j: int| k.product(v@[j])));
    out
}

pub(crate) fn copy_of<T: Copy>(v: &Vec<T>) -> (r: Vec<T>)
    ensures
        r@ == v@,
{
    let mut out: Vec<T> = Vec::new();
    let mut i: usize = 0;
    while i < v.len()
        invariant
            i <= v@.len(),
            out@ == v@.take(i as int),
        decreases v.len() - i,
    {
        out.push(v[i]);
        assert(v@.take(i as int).push(v@[i as int]) =~= v@.take(i + 1));
        i += 1;
    }
    assert(v@.take(v@.len() as int) =~= v@);
    out
}

fn constant_row<T: Scalar>(columns: usize, x: T) -> (r: Vec<T>)
    ensures
        r@ == Seq::new(columns as nat, |j: int| x),
{
    let mut out: Vec<T> = Vec::new();
    let mut j: usize = 0;
    while j < columns
        invariant
            j <= columns,
            out@.len() == j,
            forall|l: int| 0 <= l < j ==> out@[l] == x,
        decreases columns - j,
    {
        out.push(x);
        j += 1;
    }
    assert(out@ =~= Seq::new(columns as nat, |j: int| x));
    out
}

/// Every entry is a value that [`Scalar::random`] may return.
pub open spec fn all_drawn<T: Scalar>(values: Seq<T>) -> bool {
    forall|i: int| 0 <= i < values.len() ==> (#[trigger] values[i]).drawn()
}

/// `count` values, each from a call of its own of [`Scalar::random`].
fn draws<T: Scalar>(count: usize) -> (r: Vec<T>)
    ensures
        r@.len() == count,
        all_drawn(r@),
{
    let mut out: Vec<T> = Vec::new();
    let mut j: usize = 0;
    while j < count
        invariant
            j <= count,
            out@.len() == j,
            all_drawn(out@),
        decreases count - j,
    {
        out.push(T::random());
        j += 1;
    }
    out
}

/// `rows * columns` values, each from a call of its own of
/// [`Scalar::random`].
fn draws_for<T: Scalar>(rows: usize, columns: usize) -> (r: Vec<T>)
    ensures
        r@.len() == rows * columns,
        all_drawn(r@),
{
    let mut out: Vec<T> = Vec::new();
    let mut i: usize = 0;
    assert(0 * columns == 0);
    while i < rows
        invariant
            i <= rows,
            out@.len() == i * columns,
            all_drawn(out@),
        decreases rows - i,
    {
        let mut j: usize = 0;
        while j < columns
            invariant
                i < rows,
                j <= columns,
                out@.len() == i * columns + j,
                all_drawn(out@),
            decreases columns - j,
        {
            out.push(T::random());
            j += 1;
        }
        assert((i + 1) * columns == i * columns + columns) by (nonlinear_arith);
        i += 1;
    }
    out
}

/// Entry `(i, j)` of a matrix of `rows` rows and `columns` columns lies among
/// its `rows * columns` entries, counted row after row.
proof fn lemma_cell_in_range(rows: int, columns: int, i: int, j: int)
    requires
        0 <= i < rows,
        0 <= j < columns || (j == 0 && columns == 0),
    ensures
        0 <= i * columns,
        i * columns + j <= rows * columns,
        j < columns ==> i * columns + j < rows * columns,
{
    assert(0 <= i * columns) by (nonlinear_arith)
        requires
            0 <= i,
            0 <= columns,
    ;
    assert((i + 1) * columns <= rows * columns) by (nonlinear_arith)
        requires
            i + 1 <= rows,
            0 <= columns,
    ;
    assert((i + 1) * columns == i * columns + columns) by (nonlinear_arith);
}

impl<T> Matrix<T> {
    #[verifier::type_invariant]
    pub open spec fn well_formed(&self) -> bool {
        rectangular(self@)
    }
}

impl<T: Scalar> Matrix<T> {
    /// The number of rows.
    pub fn rows(&self) -> (r: usize)
        ensures
            r == self@.len(),
    {
        self.data.len()
    }

    /// The length of the first row; 0 for a matrix without rows.
    pub fn columns(&self) -> (r: usize)
        ensures
            r == width(self@),
    {
        if self.data.len() == 0 {
            0
        } else {
            self.data[0].len()
        }
    }

    /// A matrix of the given shape whose entries are drawn one by one from
    /// [`Scalar::random`]: `rows * columns` draws, handed to
    /// [`Matrix::from_draws`], so that no draw stands at two places.
    pub fn new(rows: usize, columns: usize) -> (r: Self)
        ensures
            has_shape(r@, rows as nat, columns as nat),
            forall|i: int, j: int|
                0 <= i < rows && 0 <= j < columns ==> (#[trigger] r@[i][j]).drawn(),
    {
        let values: Vec<T> = draws_for(rows, columns);
        let placed = Matrix::from_draws(rows, columns, &values);
        proof {
            let m = placed.unwrap()@;
            assert forall|i: int, j: int| 0 <= i < rows && 0 <= j < columns implies (
            #[trigger] m[i][j]).drawn() by {
                lemma_cell_in_range(rows as int, columns as int, i, j);
                assert(values@[i * columns + j].drawn());
            }
        }
        placed.unwrap()
    }

    /// The matrix of the given shape that holds the given values row after
    /// row: entry `(i, j)` is value `i * columns + j`. There must be as many
    /// values as entries.
    pub fn from_draws(rows: usize, columns: usize, draws: &Vec<T>) -> (r: Result<Matrix<T>, Error>)
        ensures
            draws@.len() == rows * columns ==> r is Ok && has_shape(
                r.unwrap()@,
                rows as nat,
                columns as nat,
            ) && forall|i: int, j: int|
                0 <= i < rows && 0 <= j < columns ==> (#[trigger] r.unwrap()@[i][j])
                    == draws@[i * columns + j],
            draws@.len() != rows * columns ==> r == Err::<Matrix<T>, Error>(
                Error::DimensionMismatch,
            ),
    {
        let given: usize = draws.len();
        match rows.checked_mul(columns) {
            Some(count) => {
                if count != given {
                    return Err(Error::DimensionMismatch);
                }
            },
            None => {
                return Err(Error::DimensionMismatch);
            },
        }
        let mut data: Vec<Vec<T>> = Vec::new();
        let mut i: usize = 0;
        while i < rows
            invariant
                i <= rows,
                draws@.len() == rows * columns,
                rows * columns <= usize::MAX,
                data@.len() == i,
                forall|k: int| 0 <= k < i ==> (#[trigger] data@[k])@.len() == columns,
                forall|k: int, l: int|
                    0 <= k < i && 0 <= l < columns ==> (#[trigger] data@[k]@[l]) == draws@[k
                        * columns + l],
            decreases rows - i,
        {
            proof {
                lemma_cell_in_range(rows as int, columns as int, i as int, 0);
                assert((i + 1) * columns <= rows * columns) by (nonlinear_arith)
                    requires
                        i + 1 <= rows,
                        0 <= columns,
                ;
                assert((i + 1) * columns == i * columns + columns) by (nonlinear_arith);
            }
            let start: usize = i * columns;
            let mut row: Vec<T> = Vec::new();
            let mut j: usize = 0;
            while j < columns
                invariant
                    j <= columns,
                    start == i * columns,
                    start + columns <= draws@.len() <= usize::MAX,
                    row@.len() == j,
                    forall|l: int| 0 <= l < j ==> (#[trigger] row@[l]) == draws@[start + l],
                decreases columns - j,
            {
                row.push(draws[start + j]);
                j += 1;
            }
            data.push(row);
            i += 1;
        }
        let r = Matrix { data };
        assert(has_shape(r@, rows as nat, columns as nat));
        assert forall|a: int, b: int| 0 <= a < rows && 0 <= b < columns implies (#[trigger] r@[a][b])
            == draws@[a * columns + b] by {
            assert(r@[a] == r.data@[a]@);
        }
        Ok(r)
    }

    /// The matrix of the given shape that holds zero everywhere.
    pub fn zero(rows: usize, columns: usize) -> (r: Self)
        ensures
            r@ == constant_matrix(rows as nat, columns as nat, T::zero_value()),
    {
        let mut data: Vec<Vec<T>> = Vec::new();
        let mut i: usize = 0;
        while i < rows
            invariant
                i <= rows,
                data@.len() == i,
                forall|k: int|
                    0 <= k < i ==> (#[trigger] data@[k])@ == Seq::new(
                        columns as nat,
                        |j: int| T::zero_value(),
                    ),
            decreases rows - i,
        {
            data.push(constant_row(columns, T::zero()));
            i += 1;
        }
        assert(rows_of(data@) =~= constant_matrix(rows as nat, columns as nat, T::zero_value()));
        Matrix { data }
    }

    /// The matrix whose rows are `data`. The rows must have one length.
    pub fn from_data(data: Vec<Vec<T>>) -> (r: Self)
        requires
            rectangular(rows_of(data@)),
        ensures
            r@ == rows_of(data@),
    {
        Matrix { data }
    }

    /// The same matrix, marked as transposed for the product that follows.
    pub fn transpose(&self) -> (r: Transpose<&Self>)
        ensures
            r.0 == self,
    {
        Transpose(self)
    }

    /// The rows, for reading.
    pub fn data(&self) -> (r: &Vec<Vec<T>>)
        ensures
            rows_of(r@) == self@,
    {
        &self.data
    }

    /// The matrix product `self * rhs`, where the width of `self` is the
    /// number of rows of `rhs`.
    pub fn mul(&self, rhs: &Matrix<T>) -> (r: Result<Matrix<T>, Error>)
        ensures
            width(self@) == rhs@.len() ==> r is Ok && r.unwrap()@ == matrix_product(self@, rhs@)
                && has_shape(r.unwrap()@, self@.len(), width(rhs@)),
            width(self@) != rhs@.len() ==> r == Err::<Matrix<T>, Error>(Error::DimensionMismatch),
    {
        proof {
            use_type_invariant(self);
            use_type_invariant(rhs);
        }
        let c: usize = rhs.columns();
        if self.columns() != rhs.rows() {
            return Err(Error::DimensionMismatch);
        }
        let mut out: Vec<Vec<T>> = Vec::new();
        let mut i: usize = 0;
        while i < self.data.len()
            invariant
                i <= self.data@.len(),
                rectangular(self@),
                rectangular(rhs@),
                width(self@) == rhs@.len(),
                c == width(rhs@),
                out@.len() == i,
                forall|k: int|
                    0 <= k < i ==> (#[trigger] out@[k])@ == matrix_product(self@, rhs@)[k],
            decreases self.data.len() - i,
        {
            let mut row: Vec<T> = Vec::new();
            let mut j: usize = 0;
            assert(self@[i as int].len() == width(self@));
            while j < c
                invariant
                    i < self.data@.len(),
                    j <= c,
                    rectangular(rhs@),
                    self.data@[i as int]@.len() == rhs.data@.len(),
                    c == width(rhs@),
                    row@.len() == j,
                    forall|l: int|
                        0 <= l < j ==> row@[l] == dot(self@[i as int], column(rhs@, l)),
                decreases c - j,
            {
                assert forall|k: int| 0 <= k < rhs.data@.len() implies j < (
                #[trigger] rhs.data@[k])@.len() by {
                    assert(rhs@[k].len() == width(rhs@));
                }
                row.push(row_dot_column(&self.data[i], &rhs.data, j));
                j += 1;
            }
            assert(row@ =~= matrix_product(self@, rhs@)[i as int]);
            out.push(row);
            i += 1;
        }
        assert(rows_of(out@) =~= matrix_product(self@, rhs@));
        assert(rectangular(rows_of(out@)));
        Ok(Matrix { data: out })
    }

    /// Both matrices have as many rows, and rows as long.
    pub open spec fn same_shape(&self, rhs: &Matrix<T>) -> bool {
        self@.len() == rhs@.len() && width(self@) == width(rhs@)
    }

    /// The entry-wise sum of two matrices of one shape.
    pub fn add(&self, rhs: &Matrix<T>) -> (r: Result<Matrix<T>, Error>)
        ensures
            self.same_shape(rhs) ==> r is Ok && r.unwrap()@ == matrix_sum(self@, rhs@),
            !self.same_shape(rhs) ==> r == Err::<Matrix<T>, Error>(Error::DimensionMismatch),
    {
        proof {
            use_type_invariant(self);
            use_type_invariant(rhs);
        }
        if self.rows() != rhs.rows() || self.columns() != rhs.columns() {
            return Err(Error::DimensionMismatch);
        }
        let mut out: Vec<Vec<T>> = Vec::new();
        let mut i: usize = 0;
        while i < self.data.len()
            invariant
                i <= self.data@.len() == rhs.data@.len(),
                rectangular(self@),
                rectangular(rhs@),
                width(self@) == width(rhs@),
                out@.len() == i,
                forall|k: int| 0 <= k < i ==> (#[trigger] out@[k])@ == vector_sum(self@[k], rhs@[k]),
            decreases self.data.len() - i,
        {
            assert(self@[i as int].len() == rhs@[i as int].len());
            out.push(sum_of(&self.data[i], &rhs.data[i]));
            i += 1;
        }
        assert(rows_of(out@) =~= matrix_sum(self@, rhs@));
        Ok(Matrix { data: out })
    }

    /// The entry-wise difference of two matrices of one shape.
    pub fn sub(&self, rhs: &Matrix<T>) -> (r: Result<Matrix<T>, Error>)
        ensures
            self.same_shape(rhs) ==> r is Ok && r.unwrap()@ == matrix_difference(self@, rhs@),
            !self.same_shape(rhs) ==> r == Err::<Matrix<T>, Error>(Error::DimensionMismatch),
    {
        proof {
            use_type_invariant(self);
            use_type_invariant(rhs);
        }
        if self.rows() != rhs.rows() || self.columns() != rhs.columns() {
            return Err(Error::DimensionMismatch);
        }
        let mut out: Vec<Vec<T>> = Vec::new();
        let mut i: usize = 0;
        while i < self.data.len()
            invariant
                i <= self.data@.len() == rhs.data@.len(),
                rectangular(self@),
                rectangular(rhs@),
                width(self@) == width(rhs@),
                out@.len() == i,
                forall|k: int|
                    0 <= k < i ==> (#[trigger] out@[k])@ == vector_difference(self@[k], rhs@[k]),
            decreases self.data.len() - i,
        {
            assert(self@[i as int].len() == rhs@[i as int].len());
            out.push(difference_of(&self.data[i], &rhs.data[i]));
            i += 1;
        }
        assert(rows_of(out@) =~= matrix_difference(self@, rhs@));
        Ok(Matrix { data: out })
    }

    /// Subtracts `rhs` from `self` in place, entry by entry. Where the shapes
    /// differ, `self` is left as it was.
    pub fn sub_assign(&mut self, rhs: Matrix<T>) -> (r: Result<(), Error>)
        ensures
            old(self).same_shape(&rhs) ==> r is Ok && final(self)@ == matrix_difference(
                old(self)@,
                rhs@,
            ),
            !old(self).same_shape(&rhs) ==> r == Err::<(), Error>(Error::DimensionMismatch)
                && final(self)@ == old(self)@,
    {
        match self.sub(&rhs) {
            Ok(m) => {
                proof {
                    use_type_invariant(&m);
                }
                self.data = m.data;
                Ok(())
            },
            Err(e) => Err(e),
        }
    }

    /// Every entry multiplied by `k`, with `k` as the left factor.
    pub fn mul_scalar(&self, k: T) -> (r: Matrix<T>)
        ensures
            r@ == matrix_scaled(self@, k),
    {
        proof {
            use_type_invariant(self);
        }
        let mut out: Vec<Vec<T>> = Vec::new();
        let mut i: usize = 0;
        while i < self.data.len()
            invariant
                i <= self.data@.len(),
                rectangular(self@),
                out@.len() == i,
                forall|l: int|
                    0 <= l < i ==> (#[trigger] out@[l])@ == Seq::new(
                        self@[l].len(),
                        |j: int| k.product(self@[l][j]),
                    ),
            decreases self.data.len() - i,
        {
            out.push(scaled_left(k, &self.data[i]));
            i += 1;
        }
        assert(rows_of(out@) =~= matrix_scaled(self@, k));
        assert(rectangular(rows_of(out@))) by {
            assert forall|l: int| 0 <= l < out@.len() implies (#[trigger] rows_of(out@)[l]).len()
                == width(rows_of(out@)) by {
                assert(self@[l].len() == width(self@));
                assert(self@[0].len() == width(self@));
            }
        }
        Matrix { data: out }
    }

    /// As [`Matrix::mul_scalar`], but takes the matrix by value, so that a
    /// product can be scaled where it is built.
    pub fn scaled(self, k: T) -> (r: Matrix<T>)
        ensures
            r@ == matrix_scaled(self@, k),
    {
        self.mul_scalar(k)
    }

    /// The product of the matrix and a vector as long as the matrix is wide.
    pub fn mul_vector(&self, rhs: &Vector<T>) -> (r: Result<Vector<T>, Error>)
        ensures
            width(self@) == rhs@.len() ==> r is Ok && r.unwrap()@ == matrix_vector(self@, rhs@),
            width(self@) != rhs@.len() ==> r == Err::<Vector<T>, Error>(Error::DimensionMismatch),
    {
        proof {
            use_type_invariant(self);
        }
        if self.columns() != rhs.size() {
            return Err(Error::DimensionMismatch);
        }
        let mut out: Vec<T> = Vec::new();
        let mut i: usize = 0;
        while i < self.data.len()
            invariant
                i <= self.data@.len(),
                rectangular(self@),
                width(self@) == rhs@.len(),
                out@.len() == i,
                forall|k: int| 0 <= k < i ==> out@[k] == dot(self@[k], rhs@),
            decreases self.data.len() - i,
        {
            assert(self@[i as int].len() == width(self@));
            out.push(dot_of(&self.data[i], &rhs.data));
            i += 1;
        }
        assert(out@ =~= matrix_vector(self@, rhs@));
        Ok(Vector { data: out })
    }
}

impl<'a, T: Scalar> Transpose<&'a Matrix<T>> {
    /// The matrix that the marker wraps: transposing twice changes nothing.
    pub fn transpose(self) -> (r: &'a Matrix<T>)
        ensures
            r == self.0,
    {
        self.0
    }

    /// The product of the transposed matrix and a vector as long as the
    /// matrix has rows. The transposed matrix is never built.
    pub fn mul_vector(self, rhs: &Vector<T>) -> (r: Result<Vector<T>, Error>)
        ensures
            self.0@.len() == rhs@.len() ==> r is Ok && r.unwrap()@ == matrix_vector(
                transposed(self.0@),
                rhs@,
            ),
            self.0@.len() != rhs@.len() ==> r == Err::<Vector<T>, Error>(
                Error::DimensionMismatch,
            ),
    {
        let m: &Matrix<T> = self.0;
        proof {
            use_type_invariant(m);
        }
        if m.rows() != rhs.size() {
            return Err(Error::DimensionMismatch);
        }
        let c: usize = m.columns();
        let mut out: Vec<T> = Vec::new();
        let mut j: usize = 0;
        while j < c
            invariant
                j <= c,
                c == width(m@),
                rectangular(m@),
                m@.len() == rhs@.len(),
                out@.len() == j,
                forall|l: int| 0 <= l < j ==> out@[l] == dot(column(m@, l), rhs@),
            decreases c - j,
        {
            assert forall|k: int| 0 <= k < m.data@.len() implies j < (#[trigger] m.data@[k])@.len() by {
                assert(m@[k].len() == width(m@));
            }
            out.push(column_dot(&m.data, j, &rhs.data));
            j += 1;
        }
        assert(out@ =~= matrix_vector(transposed(m@), rhs@));
        Ok(Vector { data: out })
    }
}

impl<T: Scalar> Vector<T> {
    /// The number of entries.
    pub fn size(&self) -> (r: usize)
        ensures
            r == self@.len(),
    {
        self.data.len()
    }

    /// A vector of the given size whose entries are drawn one by one from
    /// [`Scalar::random`].
    pub fn new(size: usize) -> (r: Self)
        ensures
            r@.len() == size,
            all_drawn(r@),
    {
        Vector::from_data(draws(size))
    }

    /// The vector of the given size that holds zero everywhere.
    pub fn zero(size: usize) -> (r: Self)
        ensures
            r@ == Seq::new(size as nat, |i: int| T::zero_value()),
    {
        Vector { data: constant_row(size, T::zero()) }
    }

    /// The vector whose entries are `data`.
    pub fn from_data(data: Vec<T>) -> (r: Self)
        ensures
            r@ == data@,
    {
        Vector { data }
    }

    /// The same vector, marked as a row for the product that follows.
    pub fn transpose(&self) -> (r: Transpose<&Self>)
        ensures
            r.0 == self,
    {
        Transpose(self)
    }

    /// The entries, for reading.
    pub fn data(&self) -> (r: &Vec<T>)
        ensures
            r@ == self@,
    {
        &self.data
    }

    /// The entries, given up by the vector.
    pub fn into_data(self) -> (r: Vec<T>)
        ensures
            r@ == self@,
    {
        self.data
    }

    /// The entry-wise sum of two vectors of one size.
    pub fn add(&self, rhs: &Vector<T>) -> (r: Result<Vector<T>, Error>)
        ensures
            self@.len() == rhs@.len() ==> r is Ok && r.unwrap()@ == vector_sum(self@, rhs@),
            self@.len() != rhs@.len() ==> r == Err::<Vector<T>, Error>(Error::DimensionMismatch),
    {
        if self.data.len() != rhs.data.len() {
            return Err(Error::DimensionMismatch);
        }
        Ok(Vector { data: sum_of(&self.data, &rhs.data) })
    }

    /// Every entry multiplied by `k`, with `k` as the right factor.
    pub fn mul_scalar(&self, k: T) -> (r: Vector<T>)
        ensures
            r@ == vector_scaled(self@, k),
    {
        Vector { data: scaled_right(&self.data, k) }
    }

    /// Subtracts `rhs` from `self` in place, entry by entry. Where the sizes
    /// differ, `self` is left as it was.
    pub fn sub_assign(&mut self, rhs: &Vector<T>) -> (r: Result<(), Error>)
        ensures
            old(self)@.len() == rhs@.len() ==> r is Ok && final(self)@ == vector_difference(
                old(self)@,
                rhs@,
            ),
            old(self)@.len() != rhs@.len() ==> r == Err::<(), Error>(Error::DimensionMismatch)
                && final(self)@ == old(self)@,
    {
        if self.data.len() != rhs.data.len() {
            return Err(Error::DimensionMismatch);
        }
        self.data = difference_of(&self.data, &rhs.data);
        Ok(())
    }

    /// The outer product of `self`, as a column, and `rhs`, as a row: a
    /// matrix with a row for each entry of `self`.
    pub fn mul_transpose(&self, rhs: Transpose<&Vector<T>>) -> (r: Matrix<T>)
        ensures
            r@ == outer_product(self@, rhs.0@),
    {
        let row: &Vector<T> = rhs.0;
        let mut out: Vec<Vec<T>> = Vec::new();
        let mut i: usize = 0;
        while i < self.data.len()
            invariant
                i <= self.data@.len(),
                out@.len() == i,
                forall|k: int|
                    0 <= k < i ==> (#[trigger] out@[k])@ == vector_scaled(row@, self@[k]),
            decreases self.data.len() - i,
        {
            out.push(scaled_right(&row.data, self.data[i]));
            i += 1;
        }
        assert(rows_of(out@) =~= outer_product(self@, row@));
        Matrix { data: out }
    }
}

impl<T: Scalar> Clone for Vector<T> {
    fn clone(&self) -> (r: Self)
        ensures
            r@ == self@,
    {
        Vector { data: copy_of(&self.data) }
    }
}

impl<T> From<Vec<T>> for Vector<T> {
    fn from(value: Vec<T>) -> (r: Vector<T>)
        ensures
            r@ == value@,
    {
        Vector { data: value }
    }
}

impl<T> vstd::std_specs::convert::FromSpecImpl<Vec<T>> for Vector<T> {
    open spec fn obeys_from_spec() -> bool {
        true
    }

    closed spec fn from_spec(v: Vec<T>) -> Self {
        Vector { data: v }
    }
}

impl<T> core::ops::Deref for Vector<T> {
    type Target = Vec<T>;

    fn deref(&self) -> (r: &Vec<T>)
        ensures
            r@ == self@,
    {
        &self.data
    }
}

impl<T> core::ops::Deref for Matrix<T> {
    type Target = Vec<Vec<T>>;

    fn deref(&self) -> (r: &Vec<Vec<T>>)
        ensures
            rows_of(r@) == self@,
    {
        &self.data
    }
}

} // verus!
