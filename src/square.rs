use vstd::prelude::*;

use crate::field::{fadd, fmul, fneg, modulus, Fq};
use crate::matrix::{
    all_wf, column, dot, mat_mul, product_of, rows_view, scaled, shaped, transpose_of, vals,
    Matrix, MatrixError,
};

verus! {

/// Index `i` of a sequence from which position `r` has been removed, read in the full sequence.
pub open spec fn skip(i: int, r: int) -> int {
    if i < r {
        i
    } else {
        i + 1
    }
}

/// `s` without its entry at position `c`.
pub open spec fn drop_at(s: Seq<int>, c: int) -> Seq<int> {
    Seq::new((s.len() - 1) as nat, |j: int| s[skip(j, c)])
}

/// The minor of `m` that deletes row `r` and column `c`.
pub open spec fn minor(m: Seq<Seq<int>>, r: int, c: int) -> Seq<Seq<int>> {
    Seq::new((m.len() - 1) as nat, |i: int| drop_at(m[skip(i, r)], c))
}

/// `x` multiplied by `(-1)^k` in the field.
pub open spec fn signed(k: int, x: int) -> int {
    if k % 2 == 0 {
        x
    } else {
        fneg(x)
    }
}

/// The first `k` terms of the cofactor expansion of `m` along row 0.
pub open spec fn expansion(m: Seq<Seq<int>>, k: nat) -> int
    decreases m.len(), k,
{
    if m.len() == 0 || k == 0 {
        0
    } else {
        let mm = minor(m, 0, k - 1);
        let d = if mm.len() == 0 {
            1
        } else if mm.len() == 1 {
            mm[0][0]
        } else {
            expansion(mm, mm.len())
        };
        fadd(expansion(m, (k - 1) as nat), signed(k - 1, fmul(m[0][k - 1], d)))
    }
}

/// The determinant of a square matrix, by cofactor expansion along row 0.
pub open spec fn det(m: Seq<Seq<int>>) -> int {
    if m.len() == 0 {
        1
    } else if m.len() == 1 {
        m[0][0]
    } else {
        expansion(m, m.len())
    }
}

/// The matrix of cofactors: entry `(i, j)` is `(-1)^(i+j)` times the determinant of the
/// minor deleting row `i` and column `j`.
pub open spec fn cofactors_of(m: Seq<Seq<int>>) -> Seq<Seq<int>> {
    Seq::new(m.len(), |i: int| Seq::new(m.len(), |j: int| signed(i + j, det(minor(m, i, j)))))
}

/// The transpose of the cofactor matrix.
pub open spec fn adjugate(m: Seq<Seq<int>>) -> Seq<Seq<int>> {
    transpose_of(cofactors_of(m), m.len(), m.len())
}

/// `minv` is the adjugate of `m` scaled by an inverse of the determinant of `m`.
pub open spec fn is_inverse_of(minv: Seq<Seq<int>>, m: Seq<Seq<int>>) -> bool {
    exists|v: int| fmul(det(m), v) == 1 && minv == scaled(adjugate(m), m.len(), m.len(), v)
}

/// The `n` by `n` identity matrix.
pub open spec fn identity_of(n: nat) -> Seq<Seq<int>> {
    Seq::new(n, |i: int| Seq::new(n, |j: int| if i == j { 1int } else { 0int }))
}

/// The square of `k`.
pub open spec fn sq(k: nat) -> nat {
    k * k
}

/// `m` is `n` rows of `n` canonical elements.
pub open spec fn square_rows(m: Seq<Vec<Fq>>, n: nat) -> bool {
    &&& m.len() == n
    &&& forall|i: int| 0 <= i < n ==> (#[trigger] m[i])@.len() == n && all_wf(m[i]@)
}

/// `row` without its element in column `c`.
fn drop_column(row: &Vec<Fq>, c: usize) -> (r: Vec<Fq>)
    requires
        c < row@.len(),
        all_wf(row@),
    ensures
        r@.len() == row@.len() - 1,
        all_wf(r@),
        vals(r@) == drop_at(vals(row@), c as int),
{
    let ghost target = drop_at(vals(row@), c as int);
    let mut out: Vec<Fq> = Vec::new();
    for j in 0..row.len()
        invariant
            c < row@.len(),
            all_wf(row@),
            target == drop_at(vals(row@), c as int),
            out@.len() == (if j <= c { j as int } else { j - 1 }),
            all_wf(out@),
            vals(out@) == target.take(out@.len() as int),
    {
        if j != c {
            let ghost prev = out@;
            out.push(row[j]);
            assert(vals(out@) =~= target.take(out@.len() as int)) by {
                assert(vals(out@) =~= vals(prev).push(row@[j as int].val()));
                assert(skip(prev.len() as int, c as int) == j);
            }
        }
    }
    assert(target.take(out@.len() as int) =~= target);
    out
}

/// The minor of a square matrix that deletes row `r` and column `c`.
fn minor_rows(m: &Vec<Vec<Fq>>, r: usize, c: usize) -> (out: Vec<Vec<Fq>>)
    requires
        square_rows(m@, m@.len() as nat),
        r < m@.len(),
        c < m@.len(),
    ensures
        square_rows(out@, (m@.len() - 1) as nat),
        rows_view(out@) == minor(rows_view(m@), r as int, c as int),
{
    let ghost target = minor(rows_view(m@), r as int, c as int);
    let mut out: Vec<Vec<Fq>> = Vec::new();
    for i in 0..m.len()
        invariant
            square_rows(m@, m@.len() as nat),
            r < m@.len(),
            c < m@.len(),
            target == minor(rows_view(m@), r as int, c as int),
            out@.len() == (if i <= r { i as int } else { i - 1 }),
            forall|a: int|
                0 <= a < out@.len() ==> (#[trigger] out@[a])@.len() == m@.len() - 1 && all_wf(
                    out@[a]@,
                ) && vals(out@[a]@) == target[a],
    {
        if i != r {
            assert(skip(out@.len() as int, r as int) == i);
            assert(rows_view(m@)[i as int] == vals(m@[i as int]@));
            out.push(drop_column(&m[i], c));
        }
    }
    assert(rows_view(out@) =~= target) by {
        assert forall|a: int| 0 <= a < out@.len() implies #[trigger] rows_view(out@)[a]
            == target[a] by {}
    }
    out
}

/// The determinant of a square matrix given by its rows.
fn det_rows(m: &Vec<Vec<Fq>>) -> (r: Fq)
    requires
        square_rows(m@, m@.len() as nat),
    ensures
        r.wf(),
        r.val() == det(rows_view(m@)),
    decreases m@.len(),
{
    let n = m.len();
    if n == 0 {
        return Fq::one();
    }
    if n == 1 {
        assert(rows_view(m@)[0] == vals(m@[0]@));
        return m[0][0];
    }
    let ghost v = rows_view(m@);
    assert(v[0] == vals(m@[0]@));
    let mut acc = Fq::zero();
    for k in 0..n
        invariant
            n == m@.len(),
            n >= 2,
            square_rows(m@, m@.len() as nat),
            v == rows_view(m@),
            v[0] == vals(m@[0]@),
            acc.wf(),
            acc.val() == expansion(v, k as nat),
    {
        let mm = minor_rows(m, 0, k);
        let d = det_rows(&mm);
        let t = m[0][k].mul(d);
        let t = if k % 2 == 0 {
            t
        } else {
            t.neg()
        };
        acc = acc.add(t);
    }
    acc
}

/// A square matrix over the field.
#[derive(Clone, Debug, PartialEq, Eq)]
pub struct SquareMatrix(pub Matrix);

impl View for SquareMatrix {
    type V = Seq<Seq<int>>;

    open spec fn view(&self) -> Seq<Seq<int>> {
        self.0@
    }
}

impl SquareMatrix {
    /// A well-formed matrix with as many rows as columns.
    pub open spec fn wf(&self) -> bool {
        self.0.wf() && self.0.n_rows == self.0.n_cols
    }

    /// The number of rows (and of columns).
    pub open spec fn dim(&self) -> nat {
        self.0.n_rows as nat
    }

    /// Builds an `n` by `n` matrix from its elements in row-major order.
    pub fn new(n: usize, elements: Vec<Fq>) -> (r: Result<SquareMatrix, MatrixError>)
        requires
            all_wf(elements@),
        ensures
            r.is_ok() == (elements@.len() == n as int * n as int),
            r matches Ok(m) ==> m.wf() && m.dim() == n && crate::matrix::flat(m@) == vals(
                elements@,
            ),
            r matches Err(e) ==> e == MatrixError::DimensionError,
    {
        match Matrix::new(n, n, elements) {
            Ok(m) => Ok(SquareMatrix(m)),
            Err(e) => Err(e),
        }
    }

    /// Builds a square matrix from its elements in row-major order; the number of
    /// elements must be a perfect square.
    pub fn from_vec(elements: Vec<Fq>) -> (r: Result<SquareMatrix, MatrixError>)
        requires
            all_wf(elements@),
        ensures
            r.is_ok() == (exists|k: nat| #[trigger] sq(k) == elements@.len()),
            r matches Ok(m) ==> m.wf() && m.dim() * m.dim() == elements@.len()
                && crate::matrix::flat(m@) == vals(elements@),
            r matches Err(e) ==> e == MatrixError::DimensionError,
    {
        let len = elements.len();
        let mut n: usize = 0;
        loop
            invariant
                len == elements@.len(),
                n <= len,
                all_wf(elements@),
                forall|k: nat| k < n ==> #[trigger] sq(k) < len,
            decreases len - n,
        {
            match n.checked_mul(n) {
                Some(nn) => {
                    if nn == len {
                        let r = SquareMatrix::new(n, elements);
                        assert(sq(n as nat) == elements@.len());
                        return r;
                    } else if nn > len {
                        proof {
                            assert forall|k: nat| #[trigger] sq(k) != len by {
                                if k >= n {
                                    assert(k * k >= n * n) by (nonlinear_arith)
                                        requires
                                            k >= n,
                                    ;
                                }
                            }
                        }
                        return Err(MatrixError::DimensionError);
                    }
                    assert(n < len) by (nonlinear_arith)
                        requires
                            nn == n * n,
                            nn < len,
                    ;
                    n = n + 1;
                    proof {
                        assert forall|k: nat| k < n implies #[trigger] sq(k) < len by {
                            if k == n - 1 {
                                assert(sq(k) == nn);
                            }
                        }
                    }
                },
                None => {
                    proof {
                        assert forall|k: nat| #[trigger] sq(k) != len by {
                            if k >= n {
                                assert(k * k >= n * n) by (nonlinear_arith)
                                    requires
                                        k >= n,
                                ;
                            }
                        }
                    }
                    return Err(MatrixError::DimensionError);
                },
            }
        }
    }

    /// The `n` by `n` identity matrix.
    pub fn identity(n: usize) -> (r: SquareMatrix)
        ensures
            r.wf(),
            r.dim() == n,
            r@ == identity_of(n as nat),
    {
        let ghost target = identity_of(n as nat);
        let mut rows: Vec<Vec<Fq>> = Vec::new();
        for i in 0..n
            invariant
                target == identity_of(n as nat),
                rows@.len() == i,
                forall|a: int|
                    0 <= a < i ==> (#[trigger] rows@[a])@.len() == n && all_wf(rows@[a]@) && vals(
                        rows@[a]@,
                    ) == target[a],
        {
            let mut row: Vec<Fq> = Vec::new();
            for j in 0..n
                invariant
                    i < n,
                    target == identity_of(n as nat),
                    row@.len() == j,
                    all_wf(row@),
                    vals(row@) == target[i as int].take(j as int),
            {
                if i == j {
                    row.push(Fq::one());
                } else {
                    row.push(Fq::zero());
                }
                assert(vals(row@) =~= target[i as int].take(j + 1));
            }
            assert(target[i as int].take(n as int) =~= target[i as int]);
            rows.push(row);
        }
        let m = SquareMatrix(Matrix { n_rows: n, n_cols: n, rows });
        assert(m@ =~= target) by {
            assert forall|a: int| 0 <= a < n implies #[trigger] m@[a] =~= target[a] by {
                assert(m@[a] == vals(rows@[a]@));
            }
        }
        m
    }

    pub fn n_rows(&self) -> (r: usize)
        ensures
            r == self.dim(),
    {
        self.0.n_rows
    }

    pub fn get_element(&self, i: usize, j: usize) -> (r: Fq)
        requires
            self.wf(),
            i < self.dim(),
            j < self.dim(),
        ensures
            r.wf(),
            r.val() == self@[i as int][j as int],
    {
        self.0.get_element(i, j)
    }

    /// All elements in row-major order.
    pub fn elements(&self) -> (r: Vec<Fq>)
        requires
            self.wf(),
        ensures
            vals(r@) == crate::matrix::flat(self@),
            all_wf(r@),
    {
        self.0.elements()
    }

    /// The matrix with rows and columns exchanged.
    pub fn transpose(&self) -> (r: SquareMatrix)
        requires
            self.wf(),
        ensures
            r.wf(),
            r.dim() == self.dim(),
            r@ == transpose_of(self@, self.dim(), self.dim()),
    {
        SquareMatrix(self.0.transpose())
    }

    /// The determinant, by cofactor expansion along the first row.
    pub fn determinant(&self) -> (r: Fq)
        requires
            self.wf(),
        ensures
            r.wf(),
            r.val() == det(self@),
    {
        det_rows(&self.0.rows)
    }

    /// The matrix of cofactors.
    pub fn cofactors(&self) -> (r: SquareMatrix)
        requires
            self.wf(),
        ensures
            r.wf(),
            r.dim() == self.dim(),
            r@ == cofactors_of(self@),
    {
        let n = self.0.n_rows;
        let m = &self.0.rows;
        let ghost target = cofactors_of(self@);
        let mut rows: Vec<Vec<Fq>> = Vec::new();
        for i in 0..n
            invariant
                self.wf(),
                n == self.dim(),
                m == &self.0.rows,
                target == cofactors_of(self@),
                rows@.len() == i,
                forall|a: int|
                    0 <= a < i ==> (#[trigger] rows@[a])@.len() == n && all_wf(rows@[a]@) && vals(
                        rows@[a]@,
                    ) == target[a],
        {
            let mut row: Vec<Fq> = Vec::new();
            for j in 0..n
                invariant
                    self.wf(),
                    i < n,
                    n == self.dim(),
                    m == &self.0.rows,
                    target == cofactors_of(self@),
                    row@.len() == j,
                    all_wf(row@),
                    vals(row@) == target[i as int].take(j as int),
            {
                let mm = minor_rows(m, i, j);
                let d = det_rows(&mm);
                let c = if i % 2 == j % 2 {
                    d
                } else {
                    d.neg()
                };
                row.push(c);
                assert(vals(row@) =~= target[i as int].take(j + 1));
            }
            assert(target[i as int].take(n as int) =~= target[i as int]);
            rows.push(row);
        }
        let r = SquareMatrix(Matrix { n_rows: n, n_cols: n, rows });
        assert(r@ =~= target) by {
            assert forall|a: int| 0 <= a < n implies #[trigger] r@[a] =~= target[a] by {
                assert(r@[a] == vals(rows@[a]@));
            }
        }
        r
    }

    /// The inverse, as the adjugate scaled by the inverse of the determinant; a matrix
    /// whose determinant is zero has none.
    pub fn inverse(&self) -> (r: Result<SquareMatrix, MatrixError>)
        requires
            self.wf(),
        ensures
            r.is_ok() == (det(self@) != 0),
            r matches Ok(m) ==> m.wf() && m.dim() == self.dim() && is_inverse_of(m@, self@),
            r matches Err(e) ==> e == MatrixError::SingularMatrixError,
    {
        let d = self.determinant();
        match d.inverse() {
            None => Err(MatrixError::SingularMatrixError),
            Some(inv) => {
                let adj = self.cofactors().transpose();
                let m = SquareMatrix(adj.0.scalar_mul(inv));
                proof {
                    self.0.lemma_shape();
                    assert(fmul(det(self@), inv.val()) == 1);
                }
                Ok(m)
            },
        }
    }

    /// Every element multiplied by the scalar `s`.
    pub fn scalar_mul(&self, s: Fq) -> (r: SquareMatrix)
        requires
            self.wf(),
        ensures
            r.wf(),
            r.dim() == self.dim(),
            r@ == scaled(self@, self.dim(), self.dim(), s.val()),
    {
        SquareMatrix(self.0.scalar_mul(s))
    }

    /// The matrix product `self * rhs` of two matrices of the same size.
    pub fn mul(&self, rhs: &SquareMatrix) -> (r: SquareMatrix)
        requires
            self.wf(),
            rhs.wf(),
            self.dim() == rhs.dim(),
        ensures
            r.wf(),
            r.dim() == self.dim(),
            r@ == product_of(self@, rhs@, self.dim(), self.dim(), self.dim()),
    {
        square_mat_mul(self, rhs)
    }
}

pub(crate) proof fn lemma_modulus_positive()
    ensures
        modulus() > 1,
{
    assert(modulus() > 1);
}

/// For a 1 by 1 matrix `a` and its inverse `inv`: `a * inv` and `inv * a` are both the
/// identity.
pub proof fn lemma_inverse_is_two_sided_one_by_one(a: SquareMatrix, inv: Seq<Seq<int>>)
    requires
        a.wf(),
        a.dim() == 1,
        is_inverse_of(inv, a@),
    ensures
        product_of(a@, inv, 1, 1, 1) == identity_of(1),
        product_of(inv, a@, 1, 1, 1) == identity_of(1),
{
    let p = modulus();
    lemma_modulus_positive();
    a.0.lemma_shape();
    let m = a@;
    let v = choose|v: int| fmul(det(m), v) == 1 && inv == scaled(adjugate(m), m.len(), m.len(), v);
    assert(minor(m, 0, 0).len() == 0);
    assert(cofactors_of(m)[0][0] == 1);
    assert(adjugate(m)[0][0] == 1);
    let x = m[0][0];
    let w = inv[0][0];
    assert(w == (1 * v) % p);
    assert(w == v % p);
    vstd::arithmetic::div_mod::lemma_mul_mod_noop_general(x, v, p);
    assert((x * w) % p == 1);
    assert((w * x) % p == 1) by {
        assert(w * x == x * w) by (nonlinear_arith);
    }
    let c0 = column(inv, 1, 0);
    let d0 = column(m, 1, 0);
    assert(dot(m[0], c0) == fadd(dot(m[0].drop_last(), c0.drop_last()), fmul(x, w)));
    assert(dot(m[0].drop_last(), c0.drop_last()) == 0);
    assert(dot(inv[0], d0) == fadd(dot(inv[0].drop_last(), d0.drop_last()), fmul(w, x)));
    assert(dot(inv[0].drop_last(), d0.drop_last()) == 0);
    vstd::arithmetic::div_mod::lemma_small_mod(1, p as nat);
    assert(product_of(m, inv, 1, 1, 1) =~= identity_of(1)) by {
        assert(product_of(m, inv, 1, 1, 1)[0] =~= identity_of(1)[0]);
    }
    assert(product_of(inv, m, 1, 1, 1) =~= identity_of(1)) by {
        assert(product_of(inv, m, 1, 1, 1)[0] =~= identity_of(1)[0]);
    }
}

/// For a 1 by 1 matrix `a`: the inverse of its inverse is `a`.
pub proof fn lemma_inverse_inverse_one_by_one(
    a: SquareMatrix,
    inv: Seq<Seq<int>>,
    inv2: Seq<Seq<int>>,
)
    requires
        a.wf(),
        a.dim() == 1,
        is_inverse_of(inv, a@),
        is_inverse_of(inv2, inv),
    ensures
        inv2 == a@,
{
    let p = modulus();
    lemma_modulus_positive();
    a.0.lemma_shape();
    let m = a@;
    let v = choose|v: int| fmul(det(m), v) == 1 && inv == scaled(adjugate(m), m.len(), m.len(), v);
    assert(minor(m, 0, 0).len() == 0);
    assert(cofactors_of(m)[0][0] == 1);
    assert(adjugate(m)[0][0] == 1);
    let x = m[0][0];
    let w = inv[0][0];
    assert(w == (1 * v) % p);
    assert(1 * v == v) by (nonlinear_arith);
    assert(w == v % p);
    assert(inv.len() == 1);
    let u = choose|u: int|
        fmul(det(inv), u) == 1 && inv2 == scaled(adjugate(inv), inv.len(), inv.len(), u);
    assert(minor(inv, 0, 0).len() == 0);
    assert(cofactors_of(inv)[0][0] == 1);
    assert(det(inv) == w);
    assert(inv2[0][0] == (1 * u) % p);
    vstd::arithmetic::div_mod::lemma_mul_mod_noop_general(x, v, p);
    assert((x * w) % p == 1);
    assert((w * u) % p == 1);
    assert(0 <= x < p) by {
        assert(a.0.rows@[0]@[0].wf());
        assert(m[0] == vals(a.0.rows@[0]@));
    }
    vstd::arithmetic::div_mod::lemma_small_mod(x as nat, p as nat);
    vstd::arithmetic::div_mod::lemma_mul_mod_noop_general(x, w * u, p);
    vstd::arithmetic::div_mod::lemma_mul_mod_noop_general(x * w, u, p);
    assert(x * (w * u) == (x * w) * u) by (nonlinear_arith);
    assert(x == (x * 1) % p);
    assert(x == (1 * u) % p);
    assert(inv2 =~= m) by {
        assert(inv2[0] =~= m[0]);
    }
}

pub(crate) proof fn lemma_cong_mul(x1: int, x2: int, y1: int, y2: int)
    requires
        x1 % modulus() == y1 % modulus(),
        x2 % modulus() == y2 % modulus(),
    ensures
        (x1 * x2) % modulus() == (y1 * y2) % modulus(),
{
    lemma_modulus_positive();
    vstd::arithmetic::div_mod::lemma_mul_mod_noop_general(x1, x2, modulus());
    vstd::arithmetic::div_mod::lemma_mul_mod_noop_general(y1, y2, modulus());
}

pub(crate) proof fn lemma_cong_add(x1: int, x2: int, y1: int, y2: int)
    requires
        x1 % modulus() == y1 % modulus(),
        x2 % modulus() == y2 % modulus(),
    ensures
        (x1 + x2) % modulus() == (y1 + y2) % modulus(),
{
    lemma_modulus_positive();
    vstd::arithmetic::div_mod::lemma_add_mod_noop(x1, x2, modulus());
    vstd::arithmetic::div_mod::lemma_add_mod_noop(y1, y2, modulus());
}

proof fn lemma_cong_neg(x: int, y: int)
    requires
        x % modulus() == y % modulus(),
    ensures
        (-x) % modulus() == (-y) % modulus(),
{
    lemma_modulus_positive();
    vstd::arithmetic::div_mod::lemma_sub_mod_noop(0, x, modulus());
    vstd::arithmetic::div_mod::lemma_sub_mod_noop(0, y, modulus());
}

pub(crate) proof fn lemma_cong_reduce(z: int)
    ensures
        (z % modulus()) % modulus() == z % modulus(),
{
    lemma_modulus_positive();
    vstd::arithmetic::div_mod::lemma_mod_twice(z, modulus());
}

/// Facts about a canonical 2 by 2 matrix `[[a, b], [c, d]]`: its determinant is
/// congruent to `a*d - b*c`, and its adjugate is `[[d, -b], [-c, a]]`.
pub proof fn lemma_determinant_two_by_two(m: Seq<Seq<int>>)
    requires
        shaped(m, 2, 2),
    ensures
        det(m) % modulus() == (m[0][0] * m[1][1] - m[0][1] * m[1][0]) % modulus(),
        adjugate(m)[0][0] == m[1][1],
        adjugate(m)[0][1] == fneg(m[0][1]),
        adjugate(m)[1][0] == fneg(m[1][0]),
        adjugate(m)[1][1] == m[0][0],
{
    let (a, b, c, d) = (m[0][0], m[0][1], m[1][0], m[1][1]);
    let p = modulus();
    assert(minor(m, 0, 0).len() == 1 && minor(m, 0, 0)[0][0] == d);
    assert(minor(m, 0, 1).len() == 1 && minor(m, 0, 1)[0][0] == c);
    assert(minor(m, 1, 0).len() == 1 && minor(m, 1, 0)[0][0] == b);
    assert(minor(m, 1, 1).len() == 1 && minor(m, 1, 1)[0][0] == a);
    assert(expansion(m, 0) == 0);
    assert(signed(0, fmul(a, d)) == fmul(a, d));
    assert(expansion(m, 1) == fadd(0, fmul(a, d)));
    assert(signed(1, fmul(b, c)) == fneg(fmul(b, c)));
    assert(det(m) == fadd(fadd(0, fmul(a, d)), fneg(fmul(b, c))));
    lemma_cong_reduce(a * d);
    lemma_cong_add(0, fmul(a, d), 0, a * d);
    lemma_cong_reduce(0 + fmul(a, d));
    lemma_cong_reduce(b * c);
    lemma_cong_neg(fmul(b, c), b * c);
    lemma_cong_reduce(-fmul(b, c));
    lemma_cong_add(fadd(0, fmul(a, d)), fneg(fmul(b, c)), a * d, -(b * c));
    lemma_cong_reduce(fadd(0, fmul(a, d)) + fneg(fmul(b, c)));
    assert(a * d + -(b * c) == a * d - b * c);
    assert(cofactors_of(m)[0][1] == fneg(c));
    assert(cofactors_of(m)[1][0] == fneg(b));
}

/// One entry of a 2 by 2 product: `x0 * y0 + x1 * y1` in the field.
pub(crate) proof fn lemma_dot_two(x: Seq<int>, y: Seq<int>)
    requires
        x.len() == 2,
        y.len() == 2,
    ensures
        dot(x, y) % modulus() == (x[0] * y[0] + x[1] * y[1]) % modulus(),
        0 <= dot(x, y) < modulus(),
{
    lemma_modulus_positive();
    let p = modulus();
    assert(x.drop_last().drop_last().len() == 0);
    assert(dot(x.drop_last().drop_last(), y.drop_last().drop_last()) == 0);
    assert(x.drop_last().last() == x[0] && y.drop_last().last() == y[0]);
    assert(dot(x.drop_last(), y.drop_last()) == fadd(0, fmul(x[0], y[0])));
    assert(dot(x, y) == fadd(fadd(0, fmul(x[0], y[0])), fmul(x[1], y[1])));
    lemma_cong_reduce(x[0] * y[0]);
    lemma_cong_add(0, fmul(x[0], y[0]), 0, x[0] * y[0]);
    lemma_cong_reduce(0 + fmul(x[0], y[0]));
    lemma_cong_reduce(x[1] * y[1]);
    lemma_cong_add(fadd(0, fmul(x[0], y[0])), fmul(x[1], y[1]), x[0] * y[0], x[1] * y[1]);
    lemma_cong_reduce(fadd(0, fmul(x[0], y[0])) + fmul(x[1], y[1]));
}

/// For a 2 by 2 matrix `a` and its inverse `inv`: `a * inv` and `inv * a` are both the
/// identity.
pub proof fn lemma_inverse_is_two_sided_two_by_two(a: SquareMatrix, inv: Seq<Seq<int>>)
    requires
        a.wf(),
        a.dim() == 2,
        is_inverse_of(inv, a@),
    ensures
        product_of(a@, inv, 2, 2, 2) == identity_of(2),
        product_of(inv, a@, 2, 2, 2) == identity_of(2),
{
    let p = modulus();
    lemma_modulus_positive();
    a.0.lemma_shape();
    let m = a@;
    let v = choose|v: int| fmul(det(m), v) == 1 && inv == scaled(adjugate(m), m.len(), m.len(), v);
    lemma_determinant_two_by_two(m);
    let (x, y, z, w) = (m[0][0], m[0][1], m[1][0], m[1][1]);
    let dd = x * w - y * z;
    // (det * v) and (dd * v) agree modulo q, so (dd * v) % q == 1.
    lemma_cong_mul(det(m), v, dd, v);
    // The entries of the inverse, up to congruence.
    let (i00, i01, i10, i11) = (inv[0][0], inv[0][1], inv[1][0], inv[1][1]);
    lemma_cong_reduce(w * v);
    lemma_cong_reduce(-y);
    lemma_cong_mul(fneg(y), v, -y, v);
    lemma_cong_reduce(fneg(y) * v);
    lemma_cong_reduce(-z);
    lemma_cong_mul(fneg(z), v, -z, v);
    lemma_cong_reduce(fneg(z) * v);
    lemma_cong_reduce(x * v);
    assert(i00 % p == (w * v) % p);
    assert(i01 % p == ((-y) * v) % p);
    assert(i10 % p == ((-z) * v) % p);
    assert(i11 % p == (x * v) % p);
    lemma_cong_reduce(1);
    lemma_cong_reduce(0);
    assert(product_of(m, inv, 2, 2, 2) =~= identity_of(2)) by {
        let pr = product_of(m, inv, 2, 2, 2);
        assert forall|r: int, s: int| 0 <= r < 2 && 0 <= s < 2 implies #[trigger] pr[r][s]
            == identity_of(2)[r][s] by {
            let col = column(inv, 2, s);
            lemma_dot_two(m[r], col);
            lemma_cong_mul(m[r][0], col[0], m[r][0], col[0]);
            lemma_cong_mul(m[r][0], col[0], m[r][0], if s == 0 { w * v } else { (-y) * v });
            lemma_cong_mul(m[r][1], col[1], m[r][1], if s == 0 { (-z) * v } else { x * v });
            lemma_cong_add(
                m[r][0] * col[0],
                m[r][1] * col[1],
                m[r][0] * (if s == 0 { w * v } else { (-y) * v }),
                m[r][1] * (if s == 0 { (-z) * v } else { x * v }),
            );
            if r == s {
                assert(m[r][0] * (if s == 0 { w * v } else { (-y) * v }) + m[r][1] * (if s == 0 {
                    (-z) * v
                } else {
                    x * v
                }) == dd * v) by (nonlinear_arith)
                    requires
                        r == s,
                        0 <= r < 2,
                        m[0][0] == x,
                        m[0][1] == y,
                        m[1][0] == z,
                        m[1][1] == w,
                        dd == x * w - y * z,
                ;
            } else {
                assert(m[r][0] * (if s == 0 { w * v } else { (-y) * v }) + m[r][1] * (if s == 0 {
                    (-z) * v
                } else {
                    x * v
                }) == 0) by (nonlinear_arith)
                    requires
                        r != s,
                        0 <= r < 2,
                        0 <= s < 2,
                        m[0][0] == x,
                        m[0][1] == y,
                        m[1][0] == z,
                        m[1][1] == w,
                ;
            }
            vstd::arithmetic::div_mod::lemma_small_mod(pr[r][s] as nat, p as nat);
        }
        assert(pr[0] =~= identity_of(2)[0]);
        assert(pr[1] =~= identity_of(2)[1]);
    }
    assert(product_of(inv, m, 2, 2, 2) =~= identity_of(2)) by {
        let pr = product_of(inv, m, 2, 2, 2);
        assert forall|r: int, s: int| 0 <= r < 2 && 0 <= s < 2 implies #[trigger] pr[r][s]
            == identity_of(2)[r][s] by {
            let col = column(m, 2, s);
            lemma_dot_two(inv[r], col);
            let e0 = if r == 0 { w * v } else { (-z) * v };
            let e1 = if r == 0 { (-y) * v } else { x * v };
            lemma_cong_mul(inv[r][0], col[0], e0, col[0]);
            lemma_cong_mul(inv[r][1], col[1], e1, col[1]);
            lemma_cong_add(inv[r][0] * col[0], inv[r][1] * col[1], e0 * col[0], e1 * col[1]);
            if r == s {
                assert(e0 * col[0] + e1 * col[1] == dd * v) by (nonlinear_arith)
                    requires
                        r == s,
                        0 <= r < 2,
                        col[0] == (if s == 0 { x } else { y }),
                        col[1] == (if s == 0 { z } else { w }),
                        e0 == (if r == 0 { w * v } else { (-z) * v }),
                        e1 == (if r == 0 { (-y) * v } else { x * v }),
                        dd == x * w - y * z,
                ;
            } else {
                assert(e0 * col[0] + e1 * col[1] == 0) by (nonlinear_arith)
                    requires
                        r != s,
                        0 <= r < 2,
                        0 <= s < 2,
                        col[0] == (if s == 0 { x } else { y }),
                        col[1] == (if s == 0 { z } else { w }),
                        e0 == (if r == 0 { w * v } else { (-z) * v }),
                        e1 == (if r == 0 { (-y) * v } else { x * v }),
                ;
            }
            vstd::arithmetic::div_mod::lemma_small_mod(pr[r][s] as nat, p as nat);
        }
        assert(pr[0] =~= identity_of(2)[0]);
        assert(pr[1] =~= identity_of(2)[1]);
    }
}

/// Where `v * u` is 1 modulo q, an element congruent to `k * v` times `u` is congruent to `k`.
proof fn lemma_cancel_unit(e: int, k: int, v: int, u: int)
    requires
        (v * u) % modulus() == 1,
        e % modulus() == (k * v) % modulus(),
    ensures
        (e * u) % modulus() == k % modulus(),
{
    let p = modulus();
    lemma_modulus_positive();
    lemma_cong_reduce(u);
    lemma_cong_mul(e, u, k * v, u);
    assert((k * v) * u == k * (v * u)) by (nonlinear_arith);
    vstd::arithmetic::div_mod::lemma_mul_mod_noop_general(k, v * u, p);
    assert(k * 1 == k);
}

/// For a 2 by 2 matrix `a`: the inverse of its inverse is `a`.
pub proof fn lemma_inverse_inverse_two_by_two(
    a: SquareMatrix,
    inv: Seq<Seq<int>>,
    inv2: Seq<Seq<int>>,
)
    requires
        a.wf(),
        a.dim() == 2,
        is_inverse_of(inv, a@),
        is_inverse_of(inv2, inv),
    ensures
        inv2 == a@,
{
    let p = modulus();
    lemma_modulus_positive();
    a.0.lemma_shape();
    let m = a@;
    let v = choose|v: int| fmul(det(m), v) == 1 && inv == scaled(adjugate(m), m.len(), m.len(), v);
    lemma_determinant_two_by_two(m);
    let (x, y, z, w) = (m[0][0], m[0][1], m[1][0], m[1][1]);
    let dd = x * w - y * z;
    lemma_cong_mul(det(m), v, dd, v);
    assert((v * dd) % p == 1) by {
        assert(v * dd == dd * v) by (nonlinear_arith);
    }
    let (i00, i01, i10, i11) = (inv[0][0], inv[0][1], inv[1][0], inv[1][1]);
    lemma_cong_reduce(w * v);
    lemma_cong_reduce(-y);
    lemma_cong_mul(fneg(y), v, -y, v);
    lemma_cong_reduce(fneg(y) * v);
    lemma_cong_reduce(-z);
    lemma_cong_mul(fneg(z), v, -z, v);
    lemma_cong_reduce(fneg(z) * v);
    lemma_cong_reduce(x * v);
    assert(i00 % p == (w * v) % p);
    assert(i01 % p == ((-y) * v) % p);
    assert(i10 % p == ((-z) * v) % p);
    assert(i11 % p == (x * v) % p);
    // The determinant of the inverse is congruent to v.
    assert(shaped(inv, 2, 2));
    lemma_determinant_two_by_two(inv);
    lemma_cong_mul(i00, i11, w * v, x * v);
    lemma_cong_mul(i01, i10, (-y) * v, (-z) * v);
    lemma_cong_neg(i01 * i10, ((-y) * v) * ((-z) * v));
    lemma_cong_add(i00 * i11, -(i01 * i10), (w * v) * (x * v), -(((-y) * v) * ((-z) * v)));
    assert((w * v) * (x * v) == v * (v * (x * w))) by (nonlinear_arith);
    assert(((-y) * v) * ((-z) * v) == v * (v * (y * z))) by (nonlinear_arith);
    assert(v * (v * (x * w)) - v * (v * (y * z)) == v * (v * (x * w - y * z))) by (nonlinear_arith);
    assert((w * v) * (x * v) + -(((-y) * v) * ((-z) * v)) == v * (v * dd));
    assert(i00 * i11 + -(i01 * i10) == i00 * i11 - i01 * i10);
    lemma_cong_reduce(v);
    vstd::arithmetic::div_mod::lemma_small_mod(1, p as nat);
    lemma_cong_mul(v, v * dd, v, 1);
    assert(v * 1 == v);
    assert(det(inv) % p == v % p);
    let u = choose|u: int|
        fmul(det(inv), u) == 1 && inv2 == scaled(adjugate(inv), inv.len(), inv.len(), u);
    lemma_cong_reduce(u);
    lemma_cong_mul(det(inv), u, v, u);
    assert((v * u) % p == 1);
    // Each entry of the second inverse is congruent to the matching entry of `a`.
    lemma_cancel_unit(i11, x, v, u);
    lemma_cong_reduce(-i01);
    lemma_cong_neg(i01, (-y) * v);
    assert(-((-y) * v) == y * v) by (nonlinear_arith);
    lemma_cancel_unit(fneg(i01), y, v, u);
    lemma_cong_reduce(-i10);
    lemma_cong_neg(i10, (-z) * v);
    assert(-((-z) * v) == z * v) by (nonlinear_arith);
    lemma_cancel_unit(fneg(i10), z, v, u);
    lemma_cancel_unit(i00, w, v, u);
    assert forall|r: int, s: int| 0 <= r < 2 && 0 <= s < 2 implies 0 <= #[trigger] m[r][s] < p by {
        assert(a.0.rows@[r]@[s].wf());
        assert(m[r] == vals(a.0.rows@[r]@));
    }
    vstd::arithmetic::div_mod::lemma_small_mod(x as nat, p as nat);
    vstd::arithmetic::div_mod::lemma_small_mod(y as nat, p as nat);
    vstd::arithmetic::div_mod::lemma_small_mod(z as nat, p as nat);
    vstd::arithmetic::div_mod::lemma_small_mod(w as nat, p as nat);
    assert(inv2[0][0] == x);
    assert(inv2[0][1] == y);
    assert(inv2[1][0] == z);
    assert(inv2[1][1] == w);
    assert(inv2 =~= m) by {
        assert(inv2[0] =~= m[0]);
        assert(inv2[1] =~= m[1]);
    }
}

/// The matrix product of two square matrices of the same size.
pub fn square_mat_mul(lhs: &SquareMatrix, rhs: &SquareMatrix) -> (r: SquareMatrix)
    requires
        lhs.wf(),
        rhs.wf(),
        lhs.dim() == rhs.dim(),
    ensures
        r.wf(),
        r.dim() == lhs.dim(),
        r@ == product_of(lhs@, rhs@, lhs.dim(), lhs.dim(), lhs.dim()),
{
    match mat_mul(&lhs.0, &rhs.0) {
        Ok(m) => SquareMatrix(m),
        Err(_) => {
            assert(false);
            SquareMatrix::identity(0)
        },
    }
}

} // verus!
