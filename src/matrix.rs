use vstd::prelude::*;

use crate::field::{fadd, fmul, Fq};

verus! {

/// The integer values of a sequence of field elements.
pub open spec fn vals(v: Seq<Fq>) -> Seq<int> {
    v.map_values(|x: Fq| x.val())
}

/// Every element is a canonical representative.
pub open spec fn all_wf(v: Seq<Fq>) -> bool {
    forall|k: int| 0 <= k < v.len() ==> #[trigger] v[k].wf()
}

/// The integer values of a sequence of rows.
pub open spec fn rows_view(m: Seq<Vec<Fq>>) -> Seq<Seq<int>> {
    m.map_values(|r: Vec<Fq>| vals(r@))
}

/// `m` has `r` rows of `c` entries each.
pub open spec fn shaped(m: Seq<Seq<int>>, r: nat, c: nat) -> bool {
    m.len() == r && forall|i: int| 0 <= i < r ==> #[trigger] m[i].len() == c
}

/// The rows of `m` laid end to end (row-major order).
pub open spec fn flat(m: Seq<Seq<int>>) -> Seq<int>
    decreases m.len(),
{
    if m.len() == 0 {
        seq![]
    } else {
        flat(m.drop_last()) + m.last()
    }
}

/// The transpose of an `r` by `c` matrix: entry `(j, i)` is entry `(i, j)` of `m`.
pub open spec fn transpose_of(m: Seq<Seq<int>>, r: nat, c: nat) -> Seq<Seq<int>> {
    Seq::new(c, |j: int| Seq::new(r, |i: int| m[i][j]))
}

/// The element-wise product of two `r` by `c` matrices.
pub open spec fn hadamard_of(a: Seq<Seq<int>>, b: Seq<Seq<int>>, r: nat, c: nat) -> Seq<Seq<int>> {
    Seq::new(r, |i: int| Seq::new(c, |j: int| fmul(a[i][j], b[i][j])))
}

/// The field dot product of two sequences of equal length.
pub open spec fn dot(a: Seq<int>, b: Seq<int>) -> int
    decreases a.len(),
{
    if a.len() == 0 {
        0
    } else {
        fadd(dot(a.drop_last(), b.drop_last()), fmul(a.last(), b.last()))
    }
}

/// Column `j` of a matrix with `r` rows.
pub open spec fn column(m: Seq<Seq<int>>, r: nat, j: int) -> Seq<int> {
    Seq::new(r, |i: int| m[i][j])
}

/// The product of an `n` by `k` matrix and a `k` by `m` matrix.
pub open spec fn product_of(a: Seq<Seq<int>>, b: Seq<Seq<int>>, n: nat, k: nat, m: nat) -> Seq<
    Seq<int>,
> {
    Seq::new(n, |i: int| Seq::new(m, |j: int| dot(a[i], column(b, k, j))))
}

/// Every entry of an `r` by `c` matrix multiplied by the scalar `s`.
pub open spec fn scaled(m: Seq<Seq<int>>, r: nat, c: nat, s: int) -> Seq<Seq<int>> {
    Seq::new(r, |i: int| Seq::new(c, |j: int| fmul(m[i][j], s)))
}

proof fn lemma_row_major_index(i: int, j: int, r: int, c: int)
    requires
        0 <= i < r,
        0 <= j < c,
    ensures
        0 <= i * c + j < r * c,
        i * c + c == (i + 1) * c,
{
    assert(0 <= i * c + j < r * c) by (nonlinear_arith)
        requires
            0 <= i < r,
            0 <= j < c,
    ;
    assert(i * c + c == (i + 1) * c) by (nonlinear_arith);
}

/// Why a matrix operation was refused.
#[derive(Clone, Copy, Debug, PartialEq, Eq)]
pub enum MatrixError {
    /// The shapes of the operands do not fit the operation.
    DimensionError,
    /// The matrix has determinant zero and has no inverse.
    SingularMatrixError,
    /// The mixing matrix is not square, does not match the state width, or has no inverse.
    InvalidMixingMatrixError,
}

/// A rectangular matrix over the field, stored row by row.
#[derive(Clone, Debug, PartialEq, Eq)]
pub struct Matrix {
    pub n_rows: usize,
    pub n_cols: usize,
    pub rows: Vec<Vec<Fq>>,
}

impl View for Matrix {
    type V = Seq<Seq<int>>;

    open spec fn view(&self) -> Seq<Seq<int>> {
        rows_view(self.rows@)
    }
}

impl Matrix {
    /// Every row holds `n_cols` canonical elements, and there are `n_rows` rows.
    pub open spec fn wf(&self) -> bool {
        &&& self.rows@.len() == self.n_rows
        &&& forall|i: int|
            0 <= i < self.n_rows ==> (#[trigger] self.rows@[i])@.len() == self.n_cols && all_wf(
                self.rows@[i]@,
            )
    }

    pub proof fn lemma_shape(&self)
        requires
            self.wf(),
        ensures
            shaped(self@, self.n_rows as nat, self.n_cols as nat),
    {
        assert forall|i: int| 0 <= i < self.n_rows implies #[trigger] self@[i].len()
            == self.n_cols by {
            assert(self@[i] == vals(self.rows@[i]@));
        }
    }

    /// Builds an `n_rows` by `n_cols` matrix from its elements in row-major order.
    pub fn new(n_rows: usize, n_cols: usize, elements: Vec<Fq>) -> (r: Result<Matrix, MatrixError>)
        requires
            all_wf(elements@),
        ensures
            r.is_ok() == (elements@.len() == n_rows as int * n_cols as int),
            r matches Ok(m) ==> m.wf() && m.n_rows == n_rows && m.n_cols == n_cols && flat(m@)
                == vals(elements@),
            r matches Err(e) ==> e == MatrixError::DimensionError,
    {
        let len = elements.len();
        match n_rows.checked_mul(n_cols) {
            Some(total) => {
                if total != elements.len() {
                    return Err(MatrixError::DimensionError);
                }
            },
            None => {
                return Err(MatrixError::DimensionError);
            },
        }
        let mut rows: Vec<Vec<Fq>> = Vec::new();
        let mut k: usize = 0;
        assert(0 * n_cols == 0);
        for i in 0..n_rows
            invariant
                elements@.len() == n_rows as int * n_cols as int,
                all_wf(elements@),
                k == i * n_cols,
                elements@.len() == len,
                rows@.len() == i,
                forall|a: int|
                    0 <= a < i ==> (#[trigger] rows@[a])@.len() == n_cols && all_wf(rows@[a]@),
                flat(rows@.map_values(|r: Vec<Fq>| vals(r@))) == vals(elements@).take(k as int),
        {
            let mut row: Vec<Fq> = Vec::new();
            proof {
                if n_cols > 0 {
                    lemma_row_major_index(i as int, 0, n_rows as int, n_cols as int);
                } else {
                    assert(i * n_cols == 0) by (nonlinear_arith)
                        requires
                            n_cols == 0,
                    ;
                    assert((i + 1) * n_cols == 0) by (nonlinear_arith)
                        requires
                            n_cols == 0,
                    ;
                    assert(n_rows as int * n_cols as int == 0) by (nonlinear_arith)
                        requires
                            n_cols == 0,
                    ;
                }
            }
            assert((i + 1) * n_cols <= n_rows as int * n_cols as int) by (nonlinear_arith)
                requires
                    i < n_rows,
            ;
            let ghost k0 = k;
            for j in 0..n_cols
                invariant
                    elements@.len() == n_rows as int * n_cols as int,
                    all_wf(elements@),
                    0 <= i < n_rows,
                    k0 == i * n_cols,
                    elements@.len() == len,
                    k0 + n_cols == (i + 1) * n_cols,
                    (i + 1) * n_cols <= n_rows as int * n_cols as int,
                    k == i * n_cols + j,
                    row@.len() == j,
                    all_wf(row@),
                    vals(row@) == vals(elements@).subrange(i * n_cols, k as int),
            {
                proof {
                    lemma_row_major_index(i as int, j as int, n_rows as int, n_cols as int);
                }
                row.push(elements[k]);
                k = k + 1;
                assert(vals(row@) =~= vals(elements@).subrange(i * n_cols, k as int));
            }
            proof {
                assert(vals(elements@).take(k as int) =~= vals(elements@).take(i * n_cols) + vals(
                    row@,
                ));
            }
            let ghost old_rows = rows@;
            rows.push(row);
            proof {
                assert(rows@.map_values(|r: Vec<Fq>| vals(r@)).drop_last() =~= old_rows.map_values(
                    |r: Vec<Fq>| vals(r@),
                ));
            }
        }
        proof {
            assert(vals(elements@).take(k as int) =~= vals(elements@));
        }
        Ok(Matrix { n_rows, n_cols, rows })
    }

    pub fn n_rows(&self) -> (r: usize)
        ensures
            r == self.n_rows,
    {
        self.n_rows
    }

    pub fn n_cols(&self) -> (r: usize)
        ensures
            r == self.n_cols,
    {
        self.n_cols
    }

    /// The element in row `i` and column `j`.
    pub fn get_element(&self, i: usize, j: usize) -> (r: Fq)
        requires
            self.wf(),
            i < self.n_rows,
            j < self.n_cols,
        ensures
            r.wf(),
            r.val() == self@[i as int][j as int],
    {
        let r = self.rows[i][j];
        assert(self@[i as int] == vals(self.rows@[i as int]@));
        r
    }

    /// Replaces the element in row `i` and column `j` with `val`.
    pub fn set_element(&mut self, i: usize, j: usize, val: Fq)
        requires
            old(self).wf(),
            val.wf(),
            i < old(self).n_rows,
            j < old(self).n_cols,
        ensures
            final(self).wf(),
            final(self).n_rows == old(self).n_rows,
            final(self).n_cols == old(self).n_cols,
            final(self)@ == old(self)@.update(
                i as int,
                old(self)@[i as int].update(j as int, val.val()),
            ),
    {
        let mut row = copy_row(&self.rows[i]);
        row.set(j, val);
        let ghost old_rows = self.rows@;
        self.rows.set(i, row);
        proof {
            assert(all_wf(row@));
            assert(self@ =~= old(self)@.update(
                i as int,
                old(self)@[i as int].update(j as int, val.val()),
            )) by {
                assert(vals(row@) =~= vals(old_rows[i as int]@).update(j as int, val.val()));
            }
        }
    }

    /// All elements in row-major order.
    pub fn elements(&self) -> (r: Vec<Fq>)
        requires
            self.wf(),
        ensures
            vals(r@) == flat(self@),
            all_wf(r@),
    {
        let mut out: Vec<Fq> = Vec::new();
        for i in 0..self.n_rows
            invariant
                self.wf(),
                all_wf(out@),
                vals(out@) == flat(self@.take(i as int)),
        {
            assert(self@[i as int] == vals(self.rows@[i as int]@));
            let ghost base = out@;
            for j in 0..self.n_cols
                invariant
                    self.wf(),
                    0 <= i < self.n_rows,
                    all_wf(out@),
                    vals(base) == flat(self@.take(i as int)),
                    self@[i as int] == vals(self.rows@[i as int]@),
                    self.rows@[i as int]@.len() == self.n_cols,
                    vals(out@) == vals(base) + self@[i as int].take(j as int),
            {
                let ghost prev = out@;
                let x = self.rows[i][j];
                out.push(x);
                assert(self@[i as int][j as int] == x.val());
                assert(vals(out@) =~= vals(prev).push(x.val()));
                assert(vals(out@) =~= vals(base) + self@[i as int].take(j + 1));
            }
            assert(self@.take(i + 1).drop_last() =~= self@.take(i as int));
            assert(self@[i as int].take(self.n_cols as int) =~= self@[i as int]);
        }
        assert(self@.take(self.n_rows as int) =~= self@);
        out
    }

    /// The rows of the matrix, each a vector of its elements.
    pub fn rows(&self) -> (r: Vec<Vec<Fq>>)
        requires
            self.wf(),
        ensures
            r@.len() == self.n_rows,
            forall|i: int| 0 <= i < self.n_rows ==> (#[trigger] r@[i])@ == self.rows@[i]@,
    {
        let mut out: Vec<Vec<Fq>> = Vec::new();
        for i in 0..self.n_rows
            invariant
                self.wf(),
                out@.len() == i,
                forall|a: int| 0 <= a < i ==> (#[trigger] out@[a])@ == self.rows@[a]@,
        {
            out.push(copy_row(&self.rows[i]));
        }
        out
    }

    /// A copy of the matrix.
    pub fn clone_matrix(&self) -> (r: Matrix)
        requires
            self.wf(),
        ensures
            r.wf(),
            r.n_rows == self.n_rows,
            r.n_cols == self.n_cols,
            r@ == self@,
    {
        let rows = self.rows();
        let r = Matrix { n_rows: self.n_rows, n_cols: self.n_cols, rows };
        assert(r@ =~= self@) by {
            assert forall|a: int| 0 <= a < self.n_rows implies #[trigger] r@[a] == self@[a] by {}
        }
        r
    }

    /// The matrix with rows and columns exchanged.
    pub fn transpose(&self) -> (r: Matrix)
        requires
            self.wf(),
        ensures
            r.wf(),
            r.n_rows == self.n_cols,
            r.n_cols == self.n_rows,
            r@ == transpose_of(self@, self.n_rows as nat, self.n_cols as nat),
    {
        let mut out: Vec<Vec<Fq>> = Vec::new();
        for j in 0..self.n_cols
            invariant
                self.wf(),
                out@.len() == j,
                forall|a: int|
                    0 <= a < j ==> (#[trigger] out@[a])@.len() == self.n_rows && all_wf(out@[a]@)
                        && vals(out@[a]@) == column(self@, self.n_rows as nat, a),
        {
            let mut col: Vec<Fq> = Vec::new();
            for i in 0..self.n_rows
                invariant
                    self.wf(),
                    j < self.n_cols,
                    col@.len() == i,
                    all_wf(col@),
                    vals(col@) == column(self@, self.n_rows as nat, j as int).take(i as int),
            {
                assert(self@[i as int] == vals(self.rows@[i as int]@));
                col.push(self.rows[i][j]);
                assert(vals(col@) =~= column(self@, self.n_rows as nat, j as int).take(i + 1));
            }
            assert(column(self@, self.n_rows as nat, j as int).take(self.n_rows as int)
                =~= column(self@, self.n_rows as nat, j as int));
            out.push(col);
        }
        let r = Matrix { n_rows: self.n_cols, n_cols: self.n_rows, rows: out };
        assert(r@ =~= transpose_of(self@, self.n_rows as nat, self.n_cols as nat)) by {
            assert forall|a: int| 0 <= a < self.n_cols implies #[trigger] r@[a]
                =~= transpose_of(self@, self.n_rows as nat, self.n_cols as nat)[a] by {
                assert(r@[a] == vals(out@[a]@));
            }
        }
        r
    }

    /// The element-wise product; the two matrices must have the same shape.
    pub fn hadamard_product(&self, rhs: &Matrix) -> (r: Result<Matrix, MatrixError>)
        requires
            self.wf(),
            rhs.wf(),
        ensures
            r.is_ok() == (self.n_rows == rhs.n_rows && self.n_cols == rhs.n_cols),
            r matches Ok(m) ==> m.wf() && m.n_rows == self.n_rows && m.n_cols == self.n_cols
                && m@ == hadamard_of(self@, rhs@, self.n_rows as nat, self.n_cols as nat),
            r matches Err(e) ==> e == MatrixError::DimensionError,
    {
        if self.n_rows != rhs.n_rows || self.n_cols != rhs.n_cols {
            return Err(MatrixError::DimensionError);
        }
        let ghost h = hadamard_of(self@, rhs@, self.n_rows as nat, self.n_cols as nat);
        let mut out: Vec<Vec<Fq>> = Vec::new();
        for i in 0..self.n_rows
            invariant
                self.wf(),
                rhs.wf(),
                self.n_rows == rhs.n_rows,
                self.n_cols == rhs.n_cols,
                h == hadamard_of(self@, rhs@, self.n_rows as nat, self.n_cols as nat),
                out@.len() == i,
                forall|a: int|
                    0 <= a < i ==> (#[trigger] out@[a])@.len() == self.n_cols && all_wf(out@[a]@)
                        && vals(out@[a]@) == h[a],
        {
            assert(self@[i as int] == vals(self.rows@[i as int]@));
            assert(rhs@[i as int] == vals(rhs.rows@[i as int]@));
            let mut row: Vec<Fq> = Vec::new();
            for j in 0..self.n_cols
                invariant
                    self.wf(),
                    rhs.wf(),
                    i < self.n_rows,
                    self.n_rows == rhs.n_rows,
                    self.n_cols == rhs.n_cols,
                    self@[i as int] == vals(self.rows@[i as int]@),
                    rhs@[i as int] == vals(rhs.rows@[i as int]@),
                    h == hadamard_of(self@, rhs@, self.n_rows as nat, self.n_cols as nat),
                    row@.len() == j,
                    all_wf(row@),
                    vals(row@) == h[i as int].take(j as int),
            {
                row.push(self.rows[i][j].mul(rhs.rows[i][j]));
                assert(vals(row@) =~= h[i as int].take(j + 1));
            }
            assert(h[i as int].take(self.n_cols as int) =~= h[i as int]);
            out.push(row);
        }
        let m = Matrix { n_rows: self.n_rows, n_cols: self.n_cols, rows: out };
        assert(m@ =~= h) by {
            assert forall|a: int| 0 <= a < self.n_rows implies #[trigger] m@[a] =~= h[a] by {
                assert(m@[a] == vals(out@[a]@));
            }
        }
        Ok(m)
    }

    /// Every element multiplied by the scalar `s`.
    pub fn scalar_mul(&self, s: Fq) -> (r: Matrix)
        requires
            self.wf(),
        ensures
            r.wf(),
            r.n_rows == self.n_rows,
            r.n_cols == self.n_cols,
            r@ == scaled(self@, self.n_rows as nat, self.n_cols as nat, s.val()),
    {
        let ghost h = scaled(self@, self.n_rows as nat, self.n_cols as nat, s.val());
        let mut out: Vec<Vec<Fq>> = Vec::new();
        for i in 0..self.n_rows
            invariant
                self.wf(),
                h == scaled(self@, self.n_rows as nat, self.n_cols as nat, s.val()),
                out@.len() == i,
                forall|a: int|
                    0 <= a < i ==> (#[trigger] out@[a])@.len() == self.n_cols && all_wf(out@[a]@)
                        && vals(out@[a]@) == h[a],
        {
            assert(self@[i as int] == vals(self.rows@[i as int]@));
            let mut row: Vec<Fq> = Vec::new();
            for j in 0..self.n_cols
                invariant
                    self.wf(),
                    i < self.n_rows,
                    self@[i as int] == vals(self.rows@[i as int]@),
                    h == scaled(self@, self.n_rows as nat, self.n_cols as nat, s.val()),
                    row@.len() == j,
                    all_wf(row@),
                    vals(row@) == h[i as int].take(j as int),
            {
                row.push(self.rows[i][j].mul(s));
                assert(vals(row@) =~= h[i as int].take(j + 1));
            }
            assert(h[i as int].take(self.n_cols as int) =~= h[i as int]);
            out.push(row);
        }
        let m = Matrix { n_rows: self.n_rows, n_cols: self.n_cols, rows: out };
        assert(m@ =~= h) by {
            assert forall|a: int| 0 <= a < self.n_rows implies #[trigger] m@[a] =~= h[a] by {
                assert(m@[a] == vals(out@[a]@));
            }
        }
        m
    }
}

/// Transposing a matrix twice gives back the matrix.
pub proof fn lemma_transpose_transpose(m: Matrix)
    requires
        m.wf(),
    ensures
        transpose_of(
            transpose_of(m@, m.n_rows as nat, m.n_cols as nat),
            m.n_cols as nat,
            m.n_rows as nat,
        ) == m@,
{
    m.lemma_shape();
    let t = transpose_of(m@, m.n_rows as nat, m.n_cols as nat);
    assert(transpose_of(t, m.n_cols as nat, m.n_rows as nat) =~= m@) by {
        assert forall|i: int| 0 <= i < m.n_rows implies #[trigger] transpose_of(
            t,
            m.n_cols as nat,
            m.n_rows as nat,
        )[i] =~= m@[i] by {}
    }
}

/// The element-wise product commutes, and entry `(i, j)` is the product of the two
/// entries `(i, j)`.
pub proof fn lemma_hadamard_commutes(a: Matrix, b: Matrix)
    requires
        a.wf(),
        b.wf(),
        a.n_rows == b.n_rows,
        a.n_cols == b.n_cols,
    ensures
        hadamard_of(a@, b@, a.n_rows as nat, a.n_cols as nat) == hadamard_of(
            b@,
            a@,
            a.n_rows as nat,
            a.n_cols as nat,
        ),
        forall|i: int, j: int|
            0 <= i < a.n_rows && 0 <= j < a.n_cols ==> #[trigger] hadamard_of(
                a@,
                b@,
                a.n_rows as nat,
                a.n_cols as nat,
            )[i][j] == fmul(a@[i][j], b@[i][j]),
{
    let (r, c) = (a.n_rows as nat, a.n_cols as nat);
    assert(hadamard_of(a@, b@, r, c) =~= hadamard_of(b@, a@, r, c)) by {
        assert forall|i: int| 0 <= i < r implies #[trigger] hadamard_of(a@, b@, r, c)[i]
            =~= hadamard_of(b@, a@, r, c)[i] by {
            assert forall|j: int| 0 <= j < c implies #[trigger] hadamard_of(a@, b@, r, c)[i][j]
                == hadamard_of(b@, a@, r, c)[i][j] by {
                assert(a@[i][j] * b@[i][j] == b@[i][j] * a@[i][j]) by (nonlinear_arith);
            }
        }
    }
}

/// A copy of a row.
pub(crate) fn copy_row(v: &Vec<Fq>) -> (r: Vec<Fq>)
    ensures
        r@ == v@,
{
    let mut out: Vec<Fq> = Vec::new();
    for k in 0..v.len()
        invariant
            out@ == v@.take(k as int),
    {
        out.push(v[k]);
        assert(out@ =~= v@.take(k + 1));
    }
    assert(v@.take(v@.len() as int) =~= v@);
    out
}

/// The vectors of `nested` laid end to end.
pub fn flatten<T: Copy>(nested: Vec<Vec<T>>) -> (r: Vec<T>)
    ensures
        r@ == nested@.map_values(|v: Vec<T>| v@).flatten_alt(),
{
    let ghost target = nested@.map_values(|v: Vec<T>| v@);
    let mut out: Vec<T> = Vec::new();
    for i in 0..nested.len()
        invariant
            target == nested@.map_values(|v: Vec<T>| v@),
            out@ == target.take(i as int).flatten_alt(),
    {
        let ghost base = out@;
        let row_len = nested[i].len();
        for j in 0..row_len
            invariant
                i < nested@.len(),
                row_len == nested@[i as int]@.len(),
                target == nested@.map_values(|v: Vec<T>| v@),
                base == target.take(i as int).flatten_alt(),
                out@ == base + nested@[i as int]@.take(j as int),
        {
            out.push(nested[i][j]);
            assert(out@ =~= base + nested@[i as int]@.take(j + 1));
        }
        assert(target.take(i + 1).drop_last() =~= target.take(i as int));
        assert(nested@[i as int]@.take(nested@[i as int]@.len() as int) =~= nested@[i as int]@);
    }
    assert(target.take(nested@.len() as int) =~= target);
    out
}

/// The field dot product of two rows of equal length.
pub(crate) fn dot_rows(a: &Vec<Fq>, b: &Vec<Fq>) -> (r: Fq)
    requires
        a@.len() == b@.len(),
    ensures
        r.wf(),
        r.val() == dot(vals(a@), vals(b@)),
{
    let mut acc = Fq::zero();
    for k in 0..a.len()
        invariant
            a@.len() == b@.len(),
            acc.wf(),
            acc.val() == dot(vals(a@).take(k as int), vals(b@).take(k as int)),
    {
        acc = acc.add(a[k].mul(b[k]));
        assert(vals(a@).take(k + 1).drop_last() =~= vals(a@).take(k as int));
        assert(vals(b@).take(k + 1).drop_last() =~= vals(b@).take(k as int));
    }
    assert(vals(a@).take(a@.len() as int) =~= vals(a@));
    assert(vals(b@).take(b@.len() as int) =~= vals(b@));
    acc
}

/// The field dot product of two vectors; they must have the same length.
pub fn dot_product(a: Vec<Fq>, b: Vec<Fq>) -> (r: Fq)
    requires
        a@.len() == b@.len(),
    ensures
        r.wf(),
        r.val() == dot(vals(a@), vals(b@)),
{
    dot_rows(&a, &b)
}

/// The matrix product `lhs * rhs`; the columns of `lhs` must match the rows of `rhs`.
pub fn mat_mul(lhs: &Matrix, rhs: &Matrix) -> (r: Result<Matrix, MatrixError>)
    requires
        lhs.wf(),
        rhs.wf(),
    ensures
        r.is_ok() == (lhs.n_cols == rhs.n_rows),
        r matches Ok(m) ==> m.wf() && m.n_rows == lhs.n_rows && m.n_cols == rhs.n_cols && m@
            == product_of(lhs@, rhs@, lhs.n_rows as nat, lhs.n_cols as nat, rhs.n_cols as nat),
        r matches Err(e) ==> e == MatrixError::DimensionError,
{
    if lhs.n_cols != rhs.n_rows {
        return Err(MatrixError::DimensionError);
    }
    let t = rhs.transpose();
    let ghost h = product_of(lhs@, rhs@, lhs.n_rows as nat, lhs.n_cols as nat, rhs.n_cols as nat);
    let mut out: Vec<Vec<Fq>> = Vec::new();
    for i in 0..lhs.n_rows
        invariant
            lhs.wf(),
            rhs.wf(),
            t.wf(),
            lhs.n_cols == rhs.n_rows,
            t.n_rows == rhs.n_cols,
            t.n_cols == rhs.n_rows,
            t@ == transpose_of(rhs@, rhs.n_rows as nat, rhs.n_cols as nat),
            h == product_of(lhs@, rhs@, lhs.n_rows as nat, lhs.n_cols as nat, rhs.n_cols as nat),
            out@.len() == i,
            forall|a: int|
                0 <= a < i ==> (#[trigger] out@[a])@.len() == rhs.n_cols && all_wf(out@[a]@)
                    && vals(out@[a]@) == h[a],
    {
        assert(lhs@[i as int] == vals(lhs.rows@[i as int]@));
        let mut row: Vec<Fq> = Vec::new();
        for j in 0..rhs.n_cols
            invariant
                lhs.wf(),
                rhs.wf(),
                t.wf(),
                i < lhs.n_rows,
                lhs.n_cols == rhs.n_rows,
                t.n_rows == rhs.n_cols,
                t.n_cols == rhs.n_rows,
                lhs@[i as int] == vals(lhs.rows@[i as int]@),
                t@ == transpose_of(rhs@, rhs.n_rows as nat, rhs.n_cols as nat),
                h == product_of(
                    lhs@,
                    rhs@,
                    lhs.n_rows as nat,
                    lhs.n_cols as nat,
                    rhs.n_cols as nat,
                ),
                row@.len() == j,
                all_wf(row@),
                vals(row@) == h[i as int].take(j as int),
        {
            assert(t@[j as int] == vals(t.rows@[j as int]@));
            assert(t@[j as int] =~= column(rhs@, rhs.n_rows as nat, j as int));
            row.push(dot_rows(&lhs.rows[i], &t.rows[j]));
            assert(vals(row@) =~= h[i as int].take(j + 1));
        }
        assert(h[i as int].take(rhs.n_cols as int) =~= h[i as int]);
        out.push(row);
    }
    let m = Matrix { n_rows: lhs.n_rows, n_cols: rhs.n_cols, rows: out };
    assert(m@ =~= h) by {
        assert forall|a: int| 0 <= a < lhs.n_rows implies #[trigger] m@[a] =~= h[a] by {
            assert(m@[a] == vals(out@[a]@));
        }
    }
    Ok(m)
}

} // verus!
