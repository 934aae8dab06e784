//! Linear algebra over sequences: the mathematical model that the contracts
//! of [`crate::matrix`] are stated in.
//!
//! A vector is a `Seq<T>`, a matrix a `Seq<Seq<T>>` of rows. Every sum runs
//! from the first term to the last, starting from zero, so that a result is
//! fixed even where the scalar's addition is not associative.
use vstd::prelude::*;
use crate::scalar::Scalar;

verus! {

/// The length of the first row, and 0 where there is no row.
pub open spec fn width<T>(m: Seq<Seq<T>>) -> nat {
    if m.len() == 0 {
        0
    } else {
        m[0].len()
    }
}

/// All rows have the same length.
pub open spec fn rectangular<T>(m: Seq<Seq<T>>) -> bool {
    forall|i: int| 0 <= i < m.len() ==> (#[trigger] m[i]).len() == width(m)
}

/// Column `j` of `m`, read from the first row to the last.
pub open spec fn column<T>(m: Seq<Seq<T>>, j: int) -> Seq<T> {
    Seq::new(m.len(), |i: int| m[i][j])
}

/// The matrix whose rows are the columns of `m`.
pub open spec fn transposed<T>(m: Seq<Seq<T>>) -> Seq<Seq<T>> {
    Seq::new(width(m), |j: int| column(m, j))
}

/// `((0 + a[0] * b[0]) + a[1] * b[1]) + ...`, over the first `n` positions.
pub open spec fn dot_prefix<T: Scalar>(a: Seq<T>, b: Seq<T>, n: nat) -> T
    decreases n,
{
    if n == 0 {
        T::zero_value()
    } else {
        dot_prefix(a, b, (n - 1) as nat).sum(a[n - 1].product(b[n - 1]))
    }
}

/// The dot product of `a` and `b`, over the positions of `a`.
pub open spec fn dot<T: Scalar>(a: Seq<T>, b: Seq<T>) -> T {
    dot_prefix(a, b, a.len())
}

/// Position by position, `a[i] + b[i]`.
pub open spec fn vector_sum<T: Scalar>(a: Seq<T>, b: Seq<T>) -> Seq<T> {
    Seq::new(a.len(), |i: int| a[i].sum(b[i]))
}

/// Position by position, `a[i] - b[i]`.
pub open spec fn vector_difference<T: Scalar>(a: Seq<T>, b: Seq<T>) -> Seq<T> {
    Seq::new(a.len(), |i: int| a[i].difference(b[i]))
}

/// Position by position, `v[i] * k`.
pub open spec fn vector_scaled<T: Scalar>(v: Seq<T>, k: T) -> Seq<T> {
    Seq::new(v.len(), |i: int| v[i].product(k))
}

/// The outer product: row `i` is `v` scaled by `u[i]`.
pub open spec fn outer_product<T: Scalar>(u: Seq<T>, v: Seq<T>) -> Seq<Seq<T>> {
    Seq::new(u.len(), |i: int| vector_scaled(v, u[i]))
}

/// Row by row, the sum of two matrices.
pub open spec fn matrix_sum<T: Scalar>(a: Seq<Seq<T>>, b: Seq<Seq<T>>) -> Seq<Seq<T>> {
    Seq::new(a.len(), |i: int| vector_sum(a[i], b[i]))
}

/// Row by row, the difference of two matrices.
pub open spec fn matrix_difference<T: Scalar>(a: Seq<Seq<T>>, b: Seq<Seq<T>>) -> Seq<Seq<T>> {
    Seq::new(a.len(), |i: int| vector_difference(a[i], b[i]))
}

/// Entry by entry, `k * m[i][j]`.
pub open spec fn matrix_scaled<T: Scalar>(m: Seq<Seq<T>>, k: T) -> Seq<Seq<T>> {
    Seq::new(m.len(), |i: int| Seq::new(m[i].len(), |j: int| k.product(m[i][j])))
}

/// The product of a matrix and a vector: entry `i` is row `i` dotted with `v`.
pub open spec fn matrix_vector<T: Scalar>(m: Seq<Seq<T>>, v: Seq<T>) -> Seq<T> {
    Seq::new(m.len(), |i: int| dot(m[i], v))
}

/// The product of two matrices: entry `(i, j)` is row `i` of `a` dotted with
/// column `j` of `b`.
pub open spec fn matrix_product<T: Scalar>(a: Seq<Seq<T>>, b: Seq<Seq<T>>) -> Seq<Seq<T>> {
    Seq::new(a.len(), |i: int| Seq::new(width(b), |j: int| dot(a[i], column(b, j))))
}

/// The matrix of `rows` rows and `columns` columns that holds `x` everywhere.
pub open spec fn constant_matrix<T>(rows: nat, columns: nat, x: T) -> Seq<Seq<T>> {
    Seq::new(rows, |i: int| Seq::new(columns, |j: int| x))
}

/// A matrix of `rows` rows, each of length `columns`.
pub open spec fn has_shape<T>(m: Seq<Seq<T>>, rows: nat, columns: nat) -> bool {
    &&& m.len() == rows
    &&& forall|i: int| 0 <= i < m.len() ==> (#[trigger] m[i]).len() == columns
}

/// The product of an `r` by `s` and an `s` by `c` matrix is `r` by `c`. A
/// right factor with no rows but `c > 0` columns is left out: a matrix with
/// no rows has no width to read.
pub proof fn lemma_product_shape<T: Scalar>(
    a: Seq<Seq<T>>,
    b: Seq<Seq<T>>,
    r: nat,
    s: nat,
    c: nat,
)
    requires
        has_shape(a, r, s),
        has_shape(b, s, c),
        s > 0 || c == 0,
    ensures
        has_shape(matrix_product(a, b), r, c),
{
    if s > 0 {
        assert(b[0].len() == c);
    }
}

/// Transposing twice gives the matrix back, so multiplying a vector by the
/// twice transposed matrix is multiplying it by the matrix itself. A matrix
/// with rows but no columns is left out: its transpose has no rows, and the
/// number of its rows is lost.
pub proof fn lemma_transpose_round_trip<T: Scalar>(m: Seq<Seq<T>>, v: Seq<T>)
    requires
        rectangular(m),
        m.len() > 0 ==> width(m) > 0,
    ensures
        transposed(transposed(m)) == m,
        matrix_vector(transposed(transposed(m)), v) == matrix_vector(m, v),
{
    let t = transposed(m);
    let tt = transposed(t);
    if m.len() == 0 {
        assert(tt =~= m);
    } else {
        assert(t.len() == width(m));
        assert(t[0] == column(m, 0));
        assert(width(t) == m.len());
        assert(tt.len() == m.len());
        assert forall|i: int| 0 <= i < m.len() implies #[trigger] tt[i] =~= m[i] by {
            assert(tt[i] == column(t, i));
            assert(m[i].len() == width(m));
            assert forall|j: int| 0 <= j < width(m) implies column(t, i)[j] == m[i][j] by {
                assert(t[j] == column(m, j));
                assert(column(m, j)[i] == m[i][j]);
            }
        }
        assert(tt =~= m);
    }
}

} // verus!
