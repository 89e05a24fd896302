use vstd::prelude::*;

use crate::field::{fadd, le_value, modulus, Fq};
use crate::matrix::{
    all_wf, dot, dot_rows, hadamard_of, rows_view, transpose_of, vals, Matrix, MatrixError,
};
use crate::square::SquareMatrix;
use crate::transcript::{challenge_of, ConstantsTranscript, CONSTANT_BYTES};

verus! {

/// The limbs of the field modulus, least significant first.
pub const MODULUS_L0: u64 = 725501752471715841;

pub const MODULUS_L1: u64 = 6461107452199829505;

pub const MODULUS_L2: u64 = 6968279316240510977;

pub const MODULUS_L3: u64 = 1345280370688173398;

/// The configuration of one permutation instance.
#[derive(Clone, Copy, Debug, PartialEq, Eq)]
pub struct InputParameters {
    /// The state width.
    pub t: usize,
    /// The security target, in bits.
    pub security_level: usize,
}

/// The numbers of full and of partial rounds.
#[derive(Clone, Copy, Debug, PartialEq, Eq)]
pub struct RoundNumbers {
    pub full: usize,
    pub partial: usize,
}

impl RoundNumbers {
    pub open spec fn total_spec(self) -> nat {
        (self.full + self.partial) as nat
    }

    /// All rounds, full and partial.
    pub fn total(&self) -> (r: usize)
        requires
            self.full + self.partial <= usize::MAX,
        ensures
            r == self.total_spec(),
    {
        self.full + self.partial
    }
}

/// The S-box exponent: `x -> x^e`, or `x -> x^(-1)`.
#[derive(Clone, Copy, Debug, PartialEq, Eq)]
pub enum Alpha {
    Exponent(u32),
    Inverse,
}

/// The first `n` little-endian bytes of `x`.
pub open spec fn le_bytes_of(x: nat, n: nat) -> Seq<u8>
    decreases n,
{
    if n == 0 {
        seq![]
    } else {
        seq![(x % 256) as u8] + le_bytes_of(x / 256, (n - 1) as nat)
    }
}

proof fn lemma_le_bytes_len(x: nat, n: nat)
    ensures
        le_bytes_of(x, n).len() == n,
    decreases n,
{
    if n > 0 {
        lemma_le_bytes_len(x / 256, (n - 1) as nat);
    }
}

/// `256^n`.
pub open spec fn byte_radix(n: nat) -> nat
    decreases n,
{
    if n == 0 {
        1
    } else {
        256 * byte_radix((n - 1) as nat)
    }
}

/// Below `256^n`, the first `n` little-endian bytes determine the number.
proof fn lemma_le_bytes_injective(x: nat, y: nat, n: nat)
    requires
        x < byte_radix(n),
        y < byte_radix(n),
        le_bytes_of(x, n) == le_bytes_of(y, n),
    ensures
        x == y,
    decreases n,
{
    if n > 0 {
        let (rx, ry) = (le_bytes_of(x / 256, (n - 1) as nat), le_bytes_of(y / 256, (n - 1) as nat));
        assert(le_bytes_of(x, n)[0] == (x % 256) as u8);
        assert(le_bytes_of(y, n)[0] == (y % 256) as u8);
        assert(rx =~= le_bytes_of(x, n).subrange(1, le_bytes_of(x, n).len() as int));
        assert(ry =~= le_bytes_of(y, n).subrange(1, le_bytes_of(y, n).len() as int));
        let b = byte_radix((n - 1) as nat);
        assert(x / 256 < b) by (nonlinear_arith)
            requires
                x < 256 * b,
        ;
        assert(y / 256 < b) by (nonlinear_arith)
            requires
                y < 256 * b,
        ;
        lemma_le_bytes_injective(x / 256, y / 256, (n - 1) as nat);
        assert(x == 256 * (x / 256) + x % 256);
        assert(y == 256 * (y / 256) + y % 256);
    }
}

proof fn lemma_radix_eight()
    ensures
        byte_radix(8) == 0x1_0000_0000_0000_0000,
{
    reveal_with_fuel(byte_radix, 9);
}

/// The field modulus as 32 little-endian bytes.
pub open spec fn modulus_bytes() -> Seq<u8> {
    le_bytes_of(MODULUS_L0 as nat, 8) + le_bytes_of(MODULUS_L1 as nat, 8) + le_bytes_of(
        MODULUS_L2 as nat,
        8,
    ) + le_bytes_of(MODULUS_L3 as nat, 8)
}

/// The encoding of the S-box exponent: a tag byte, then the exponent in 8 bytes.
pub open spec fn alpha_bytes(alpha: Alpha) -> Seq<u8> {
    match alpha {
        Alpha::Exponent(e) => seq![0u8] + le_bytes_of(e as nat, 8),
        Alpha::Inverse => seq![1u8] + le_bytes_of(0, 8),
    }
}

/// The transcript log once the instance is bound: protocol label, field modulus, state
/// width, security target, round counts and exponent, in that order.
pub open spec fn seeded_ops(input: InputParameters, rounds: RoundNumbers, alpha: Alpha) -> Seq<
    (int, Seq<char>, Seq<u8>),
> {
    seq![
        (0int, "round-constants"@, Seq::<u8>::empty()),
        (1int, "modulus"@, modulus_bytes()),
        (1int, "t"@, le_bytes_of(input.t as nat, 8)),
        (1int, "security_level"@, le_bytes_of(input.security_level as nat, 8)),
        (1int, "r_F"@, le_bytes_of(rounds.full as nat, 8)),
        (1int, "r_P"@, le_bytes_of(rounds.partial as nat, 8)),
        (1int, "alpha"@, alpha_bytes(alpha)),
    ]
}

/// Domain separation: the seeded transcript log determines the state width, the
/// security target, both round counts and the exponent, so instances that differ in any
/// of them are bound to different logs before any constant is drawn.
pub proof fn lemma_seeded_ops_bind_instance(
    input1: InputParameters,
    rounds1: RoundNumbers,
    alpha1: Alpha,
    input2: InputParameters,
    rounds2: RoundNumbers,
    alpha2: Alpha,
)
    requires
        seeded_ops(input1, rounds1, alpha1) == seeded_ops(input2, rounds2, alpha2),
    ensures
        input1 == input2,
        rounds1 == rounds2,
        alpha1 == alpha2,
{
    let (o1, o2) = (seeded_ops(input1, rounds1, alpha1), seeded_ops(input2, rounds2, alpha2));
    lemma_radix_eight();
    assert(o1[2] == o2[2] && o1[3] == o2[3] && o1[4] == o2[4] && o1[5] == o2[5] && o1[6]
        == o2[6]);
    lemma_le_bytes_injective(input1.t as nat, input2.t as nat, 8);
    lemma_le_bytes_injective(input1.security_level as nat, input2.security_level as nat, 8);
    lemma_le_bytes_injective(rounds1.full as nat, rounds2.full as nat, 8);
    lemma_le_bytes_injective(rounds1.partial as nat, rounds2.partial as nat, 8);
    let (a1, a2) = (alpha_bytes(alpha1), alpha_bytes(alpha2));
    assert(a1 == a2);
    assert(a1[0] == a2[0]);
    match (alpha1, alpha2) {
        (Alpha::Exponent(e1), Alpha::Exponent(e2)) => {
            assert(a1.subrange(1, 9) =~= le_bytes_of(e1 as nat, 8)) by {
                lemma_le_bytes_len(e1 as nat, 8);
            }
            assert(a2.subrange(1, 9) =~= le_bytes_of(e2 as nat, 8)) by {
                lemma_le_bytes_len(e2 as nat, 8);
            }
            lemma_le_bytes_injective(e1 as nat, e2 as nat, 8);
        },
        _ => {},
    }
}

/// The transcript log after `k` round constants have been drawn from `h0`.
pub open spec fn draw_ops(h0: Seq<(int, Seq<char>, Seq<u8>)>, k: nat) -> Seq<
    (int, Seq<char>, Seq<u8>),
>
    decreases k,
{
    if k == 0 {
        h0
    } else {
        let h = draw_ops(h0, (k - 1) as nat);
        h.push((2int, "round-constant"@, challenge_of(h, "round-constant"@, CONSTANT_BYTES as nat)))
    }
}

/// Round constant number `k` (counting from 0) drawn from the log `h0`.
pub open spec fn drawn(h0: Seq<(int, Seq<char>, Seq<u8>)>, k: nat) -> int {
    le_value(challenge_of(draw_ops(h0, k), "round-constant"@, CONSTANT_BYTES as nat)) % modulus()
}

/// The round constants of an instance: row `r` holds the constants of round `r`, drawn
/// in row-major order after the instance is bound to the transcript.
pub open spec fn round_constants(input: InputParameters, rounds: RoundNumbers, alpha: Alpha) -> Seq<
    Seq<int>,
> {
    let h0 = seeded_ops(input, rounds, alpha);
    Seq::new(
        rounds.total_spec(),
        |i: int| Seq::new(input.t as nat, |j: int| drawn(h0, (i * input.t + j) as nat)),
    )
}

/// Generation is a function of its arguments: two matrices generated from the same
/// instance parameters, round numbers and exponent are identical.
pub proof fn lemma_generate_deterministic(
    input: InputParameters,
    rounds: RoundNumbers,
    alpha: Alpha,
    first: ArcMatrix,
    second: ArcMatrix,
)
    requires
        first@ == round_constants(input, rounds, alpha),
        second@ == round_constants(input, rounds, alpha),
        first.0.n_rows == rounds.total_spec() && first.0.n_cols == input.t,
        second.0.n_rows == rounds.total_spec() && second.0.n_cols == input.t,
    ensures
        first@ == second@,
        first.0.n_rows == second.0.n_rows,
        first.0.n_cols == second.0.n_cols,
{
}

/// The matrix-vector product `m * v`.
pub open spec fn mat_vec(m: Seq<Seq<int>>, v: Seq<int>) -> Seq<int> {
    Seq::new(m.len(), |k: int| dot(m[k], v))
}

/// Moves the constants of round `i + 1` back through the mixing matrix (whose inverse is
/// `minv`): with `v = minv * c[i + 1]`, round `i` gains `v` on every element but the
/// first, and round `i + 1` keeps only `v[0]` in its first element.
pub open spec fn fold_round(c: Seq<Seq<int>>, minv: Seq<Seq<int>>, i: int) -> Seq<Seq<int>> {
    let v = mat_vec(minv, c[i + 1]);
    c.update(
        i,
        Seq::new(c[i].len(), |k: int| if k == 0 { c[i][0] } else { fadd(c[i][k], v[k]) }),
    ).update(i + 1, Seq::new(c[i + 1].len(), |k: int| if k == 0 { v[0] } else { 0int }))
}

/// [`fold_round`] applied for `i = hi - 1` down to `i = lo`.
pub open spec fn fold_rounds(c: Seq<Seq<int>>, minv: Seq<Seq<int>>, lo: int, hi: int) -> Seq<
    Seq<int>,
>
    decreases hi - lo,
{
    if hi <= lo {
        c
    } else {
        fold_rounds(fold_round(c, minv, hi - 1), minv, lo, hi - 1)
    }
}

/// The optimized constants: the partial rounds run from `full / 2` to
/// `full / 2 + partial - 1`, and every one of them but the first is folded back.
pub open spec fn optimized_constants(
    c: Seq<Seq<int>>,
    minv: Seq<Seq<int>>,
    rounds: RoundNumbers,
) -> Seq<Seq<int>> {
    let lo = rounds.full as int / 2;
    fold_rounds(c, minv, lo, lo + rounds.partial - 1)
}

/// The matrix-vector product of the rows `m` and the vector `v`.
fn mat_vec_rows(m: &Vec<Vec<Fq>>, v: &Vec<Fq>) -> (r: Vec<Fq>)
    requires
        forall|k: int| 0 <= k < m@.len() ==> (#[trigger] m@[k])@.len() == v@.len(),
    ensures
        r@.len() == m@.len(),
        all_wf(r@),
        vals(r@) == mat_vec(rows_view(m@), vals(v@)),
{
    let ghost target = mat_vec(rows_view(m@), vals(v@));
    let mut out: Vec<Fq> = Vec::new();
    for k in 0..m.len()
        invariant
            forall|a: int| 0 <= a < m@.len() ==> (#[trigger] m@[a])@.len() == v@.len(),
            target == mat_vec(rows_view(m@), vals(v@)),
            out@.len() == k,
            all_wf(out@),
            vals(out@) == target.take(k as int),
    {
        assert(rows_view(m@)[k as int] == vals(m@[k as int]@));
        out.push(dot_rows(&m[k], v));
        assert(vals(out@) =~= target.take(k + 1));
    }
    assert(target.take(m@.len() as int) =~= target);
    out
}

/// Folds round `i + 1` of `rows` back into round `i`, as [`fold_round`] states.
fn fold_round_rows(rows: &mut Vec<Vec<Fq>>, minv: &Vec<Vec<Fq>>, i: usize, t: usize)
    requires
        i + 1 < old(rows)@.len(),
        t > 0,
        forall|a: int|
            0 <= a < old(rows)@.len() ==> (#[trigger] old(rows)@[a])@.len() == t && all_wf(
                old(rows)@[a]@,
            ),
        minv@.len() == t,
        forall|a: int| 0 <= a < minv@.len() ==> (#[trigger] minv@[a])@.len() == t,
    ensures
        final(rows)@.len() == old(rows)@.len(),
        forall|a: int|
            0 <= a < final(rows)@.len() ==> (#[trigger] final(rows)@[a])@.len() == t && all_wf(
                final(rows)@[a]@,
            ),
        rows_view(final(rows)@) == fold_round(rows_view(old(rows)@), rows_view(minv@), i as int),
{
    let ghost c = rows_view(rows@);
    let n = rows.len();
    assert(i + 1 < n);
    let v = mat_vec_rows(minv, &rows[i + 1]);
    assert(c[i + 1] == vals(rows@[i + 1]@));
    assert(c[i as int] == vals(rows@[i as int]@));
    let ghost target = fold_round(c, rows_view(minv@), i as int);
    let mut low: Vec<Fq> = Vec::new();
    let mut high: Vec<Fq> = Vec::new();
    for k in 0..t
        invariant
            i + 1 < rows@.len(),
            c == rows_view(rows@),
            c[i + 1] == vals(rows@[i + 1]@),
            c[i as int] == vals(rows@[i as int]@),
            rows@[i as int]@.len() == t,
            all_wf(rows@[i as int]@),
            rows@[i + 1]@.len() == t,
            v@.len() == t,
            all_wf(v@),
            vals(v@) == mat_vec(rows_view(minv@), c[i + 1]),
            target == fold_round(c, rows_view(minv@), i as int),
            low@.len() == k,
            high@.len() == k,
            all_wf(low@),
            all_wf(high@),
            vals(low@) == target[i as int].take(k as int),
            vals(high@) == target[i + 1].take(k as int),
    {
        if k == 0 {
            low.push(rows[i][0]);
            high.push(v[0]);
        } else {
            low.push(rows[i][k].add(v[k]));
            high.push(Fq::zero());
        }
        assert(vals(low@) =~= target[i as int].take(k + 1));
        assert(vals(high@) =~= target[i + 1].take(k + 1));
    }
    assert(target[i as int].take(t as int) =~= target[i as int]);
    assert(target[i + 1].take(t as int) =~= target[i + 1]);
    rows.set(i, low);
    rows.set(i + 1, high);
    assert(rows_view(rows@) =~= target);
}

/// Rearranges the round constants for the partial rounds: walking back from the last
/// partial round, each round's constants are moved through the inverse of the mixing
/// matrix into the round before, leaving one constant per partial round after the first.
/// The mixing matrix must be square, of the state width, and invertible.
pub fn transform(arc: &ArcMatrix, mixing_matrix: &Matrix, rounds: RoundNumbers) -> (r: Result<
    OptimizedArcMatrix,
    MatrixError,
>)
    requires
        arc.wf(),
        mixing_matrix.wf(),
        rounds.full + rounds.partial <= usize::MAX,
    ensures
        r.is_ok() == (arc.0.n_rows == rounds.total_spec() && arc.0.n_cols > 0
            && mixing_matrix.n_rows == arc.0.n_cols && mixing_matrix.n_cols == arc.0.n_cols
            && crate::square::det(mixing_matrix@) != 0),
        r matches Err(e) ==> (e == MatrixError::DimensionError <==> (arc.0.n_rows
            != rounds.total_spec() || arc.0.n_cols == 0)),
        r matches Err(e) ==> e == MatrixError::DimensionError || e
            == MatrixError::InvalidMixingMatrixError,
        r matches Ok(m) ==> m.wf() && m.n_rows_spec() == arc.0.n_rows && m.n_cols_spec()
            == arc.0.n_cols && exists|minv: Seq<Seq<int>>|
            crate::square::is_inverse_of(minv, mixing_matrix@) && m@ == optimized_constants(
                arc@,
                minv,
                rounds,
            ),
{
    let t = arc.0.n_cols;
    if arc.0.n_rows != rounds.total() || t == 0 {
        return Err(MatrixError::DimensionError);
    }
    if mixing_matrix.n_rows != t || mixing_matrix.n_cols != t {
        return Err(MatrixError::InvalidMixingMatrixError);
    }
    let mds = SquareMatrix(mixing_matrix.clone_matrix());
    let minv = match mds.inverse() {
        Ok(m) => m,
        Err(_) => {
            return Err(MatrixError::InvalidMixingMatrixError);
        },
    };
    let ghost mv = minv@;
    let mut rows = arc.0.rows();
    assert(rows_view(rows@) =~= arc@) by {
        assert forall|a: int| 0 <= a < rows@.len() implies #[trigger] rows_view(rows@)[a]
            == arc@[a] by {}
    }
    if rounds.partial > 0 {
        let lo = rounds.full / 2;
        let hi = lo + rounds.partial - 1;
        let mut i = hi;
        while i > lo
            invariant
                lo <= i <= hi,
                hi < rows@.len(),
                t > 0,
                rows@.len() == arc.0.n_rows,
                minv.wf(),
                minv.dim() == t,
                mv == minv@,
                forall|a: int|
                    0 <= a < rows@.len() ==> (#[trigger] rows@[a])@.len() == t && all_wf(
                        rows@[a]@,
                    ),
                fold_rounds(arc@, mv, lo as int, hi as int) == fold_rounds(
                    rows_view(rows@),
                    mv,
                    lo as int,
                    i as int,
                ),
            decreases i,
        {
            proof {
                minv.0.lemma_shape();
                assert forall|a: int| 0 <= a < minv.0.rows@.len() implies (
                #[trigger] minv.0.rows@[a])@.len() == t by {}
            }
            fold_round_rows(&mut rows, &minv.0.rows, i - 1, t);
            i = i - 1;
        }
    }
    let m = OptimizedArcMatrix(ArcMatrix(Matrix { n_rows: arc.0.n_rows, n_cols: t, rows }));
    assert(crate::square::is_inverse_of(mv, mixing_matrix@));
    Ok(m)
}

/// The 8 little-endian bytes of `x`.
fn u64_le_bytes(x: u64) -> (r: Vec<u8>)
    ensures
        r@ == le_bytes_of(x as nat, 8),
        r@.len() == 8,
{
    proof {
        lemma_le_bytes_len(x as nat, 8);
    }
    let mut out: Vec<u8> = Vec::new();
    let mut y: u64 = x;
    for i in 0..8usize
        invariant
            out@ + le_bytes_of(y as nat, (8 - i) as nat) == le_bytes_of(x as nat, 8),
    {
        let ghost rest = le_bytes_of((y / 256) as nat, (7 - i) as nat);
        let b = (y % 256) as u8;
        assert(le_bytes_of(y as nat, (8 - i) as nat) == seq![b] + rest);
        let ghost prev = out@;
        out.push(b);
        y = y / 256;
        assert(out@ + rest =~= prev + (seq![b] + rest));
    }
    assert(out@ + le_bytes_of(y as nat, 0) =~= out@);
    out
}

/// Appends `more` to `out`.
fn extend(out: &mut Vec<u8>, more: &Vec<u8>)
    ensures
        final(out)@ == old(out)@ + more@,
{
    let ghost start = out@;
    for k in 0..more.len()
        invariant
            out@ == start + more@.take(k as int),
    {
        out.push(more[k]);
        assert(out@ =~= start + more@.take(k + 1));
    }
    assert(more@.take(more@.len() as int) =~= more@);
}

/// The field modulus as 32 little-endian bytes.
fn modulus_le_bytes() -> (r: Vec<u8>)
    ensures
        r@ == modulus_bytes(),
        r@.len() == 32,
{
    let mut out = u64_le_bytes(MODULUS_L0);
    extend(&mut out, &u64_le_bytes(MODULUS_L1));
    extend(&mut out, &u64_le_bytes(MODULUS_L2));
    extend(&mut out, &u64_le_bytes(MODULUS_L3));
    out
}

/// The encoding of the S-box exponent.
fn alpha_le_bytes(alpha: Alpha) -> (r: Vec<u8>)
    ensures
        r@ == alpha_bytes(alpha),
        r@.len() == 9,
{
    let (tag, e): (u8, u64) = match alpha {
        Alpha::Exponent(e) => (0, e as u64),
        Alpha::Inverse => (1, 0),
    };
    let mut out: Vec<u8> = Vec::new();
    out.push(tag);
    extend(&mut out, &u64_le_bytes(e));
    assert(out@ =~= alpha_bytes(alpha));
    out
}

/// Binds the transcript to the instance: field modulus, state width, security target,
/// round counts and exponent, in that order.
fn bind_instance(
    transcript: &mut ConstantsTranscript,
    input: &InputParameters,
    rounds: RoundNumbers,
    alpha: Alpha,
)
    requires
        old(transcript).ops() == seq![(0int, "round-constants"@, Seq::<u8>::empty())],
    ensures
        final(transcript).ops() == seeded_ops(*input, rounds, alpha),
{
    transcript.absorb("modulus", &modulus_le_bytes());
    transcript.absorb("t", &u64_le_bytes(input.t as u64));
    transcript.absorb("security_level", &u64_le_bytes(input.security_level as u64));
    transcript.absorb("r_F", &u64_le_bytes(rounds.full as u64));
    transcript.absorb("r_P", &u64_le_bytes(rounds.partial as u64));
    transcript.absorb("alpha", &alpha_le_bytes(alpha));
    assert(transcript.ops() =~= seeded_ops(*input, rounds, alpha));
}

/// A matrix of additive round constants: row `r` holds the constants added in round `r`.
#[derive(Clone, Debug, PartialEq, Eq)]
pub struct ArcMatrix(pub Matrix);

impl View for ArcMatrix {
    type V = Seq<Seq<int>>;

    open spec fn view(&self) -> Seq<Seq<int>> {
        self.0@
    }
}

impl ArcMatrix {
    pub open spec fn wf(&self) -> bool {
        self.0.wf()
    }

    pub open spec fn n_rows_spec(&self) -> usize {
        self.0.n_rows
    }

    pub open spec fn n_cols_spec(&self) -> usize {
        self.0.n_cols
    }

    /// Builds an `n_rows` by `n_cols` matrix from its elements in row-major order.
    pub fn new(n_rows: usize, n_cols: usize, elements: Vec<Fq>) -> (r: Result<Self, MatrixError>)
        requires
            all_wf(elements@),
        ensures
            r.is_ok() == (elements@.len() == n_rows as int * n_cols as int),
            r matches Ok(m) ==> m.wf() && m.n_rows_spec() == n_rows && m.n_cols_spec() == n_cols
                && crate::matrix::flat(m@) == vals(elements@),
            r matches Err(e) ==> e == MatrixError::DimensionError,
    {
        match Matrix::new(n_rows, n_cols, elements) {
            Ok(m) => Ok(ArcMatrix(m)),
            Err(e) => Err(e),
        }
    }

    /// The flat elements of the matrix.
    pub fn inner_elements(&self) -> (r: Vec<Fq>)
        requires
            self.wf(),
        ensures
            vals(r@) == crate::matrix::flat(self@),
            all_wf(r@),
    {
        self.0.elements()
    }

    pub fn n_rows(&self) -> (r: usize)
        ensures
            r == self.n_rows_spec(),
    {
        self.0.n_rows
    }

    pub fn n_cols(&self) -> (r: usize)
        ensures
            r == self.n_cols_spec(),
    {
        self.0.n_cols
    }

    /// The element in row `i` and column `j`.
    pub fn get_element(&self, i: usize, j: usize) -> (r: Fq)
        requires
            self.wf(),
            i < self.n_rows_spec(),
            j < self.n_cols_spec(),
        ensures
            r.wf(),
            r.val() == self@[i as int][j as int],
    {
        self.0.get_element(i, j)
    }

    /// Replaces the element in row `i` and column `j` with `val`.
    pub fn set_element(&mut self, i: usize, j: usize, val: Fq)
        requires
            old(self).wf(),
            val.wf(),
            i < old(self).n_rows_spec(),
            j < old(self).n_cols_spec(),
        ensures
            final(self).wf(),
            final(self).n_rows_spec() == old(self).n_rows_spec(),
            final(self).n_cols_spec() == old(self).n_cols_spec(),
            final(self)@ == old(self)@.update(
                i as int,
                old(self)@[i as int].update(j as int, val.val()),
            ),
    {
        self.0.set_element(i, j, val)
    }

    /// All elements in row-major order.
    pub fn elements(&self) -> (r: Vec<Fq>)
        requires
            self.wf(),
        ensures
            vals(r@) == crate::matrix::flat(self@),
            all_wf(r@),
    {
        self.0.elements()
    }

    /// The matrix with rows and columns exchanged.
    pub fn transpose(&self) -> (r: Self)
        requires
            self.wf(),
        ensures
            r.wf(),
            r.n_rows_spec() == self.n_cols_spec(),
            r.n_cols_spec() == self.n_rows_spec(),
            r@ == transpose_of(self@, self.n_rows_spec() as nat, self.n_cols_spec() as nat),
    {
        ArcMatrix(self.0.transpose())
    }

    /// The element-wise product; the two matrices must have the same shape.
    pub fn hadamard_product(&self, rhs: &Self) -> (r: Result<Self, MatrixError>)
        requires
            self.wf(),
            rhs.wf(),
        ensures
            r.is_ok() == (self.n_rows_spec() == rhs.n_rows_spec() && self.n_cols_spec()
                == rhs.n_cols_spec()),
            r matches Ok(m) ==> m.wf() && m.n_rows_spec() == self.n_rows_spec() && m.n_cols_spec()
                == self.n_cols_spec() && m@ == hadamard_of(
                self@,
                rhs@,
                self.n_rows_spec() as nat,
                self.n_cols_spec() as nat,
            ),
            r matches Err(e) ==> e == MatrixError::DimensionError,
    {
        match self.0.hadamard_product(&rhs.0) {
            Ok(m) => Ok(ArcMatrix(m)),
            Err(e) => Err(e),
        }
    }

    /// The rows of the matrix, each a vector of its elements.
    pub fn into_rows(self) -> (r: Vec<Vec<Fq>>)
        requires
            self.wf(),
        ensures
            r@.len() == self.n_rows_spec(),
            forall|i: int| 0 <= i < self.n_rows_spec() ==> vals((#[trigger] r@[i])@) == self@[i],
    {
        let r = self.0.rows();
        proof {
            assert forall|i: int| 0 <= i < self.n_rows_spec() implies vals((#[trigger] r@[i])@)
                == self@[i] by {
                assert(self@[i] == vals(self.0.rows@[i]@));
            }
        }
        r
    }

    /// Derives the round constants of an instance from a transcript bound to the
    /// instance's parameters: one row per round, one constant per state element.
    pub fn generate(input: &InputParameters, round_numbers: RoundNumbers, alpha: Alpha) -> (r:
        ArcMatrix)
        requires
            round_numbers.full + round_numbers.partial <= usize::MAX,
        ensures
            r.wf(),
            r.0.n_rows == round_numbers.total_spec(),
            r.0.n_cols == input.t,
            r@ == round_constants(*input, round_numbers, alpha),
    {
        let mut transcript = ConstantsTranscript::new("round-constants");
        bind_instance(&mut transcript, input, round_numbers, alpha);
        let ghost h0 = transcript.ops();
        let ghost target = round_constants(*input, round_numbers, alpha);
        let total = round_numbers.total();
        let t = input.t;
        let ghost mut k: int = 0;
        assert(0 * t == 0);
        let mut rows: Vec<Vec<Fq>> = Vec::new();
        for i in 0..total
            invariant
                h0 == seeded_ops(*input, round_numbers, alpha),
                target == round_constants(*input, round_numbers, alpha),
                total == round_numbers.total_spec(),
                t == input.t,
                k == i * t,
                transcript.ops() == draw_ops(h0, k as nat),
                rows@.len() == i,
                forall|a: int|
                    0 <= a < i ==> (#[trigger] rows@[a])@.len() == t && all_wf(rows@[a]@) && vals(
                        rows@[a]@,
                    ) == target[a],
        {
            let mut row: Vec<Fq> = Vec::new();
            for j in 0..t
                invariant
                    h0 == seeded_ops(*input, round_numbers, alpha),
                    target == round_constants(*input, round_numbers, alpha),
                    total == round_numbers.total_spec(),
                    t == input.t,
                    i < total,
                    k == i * t + j,
                    k >= 0,
                    transcript.ops() == draw_ops(h0, k as nat),
                    row@.len() == j,
                    all_wf(row@),
                    vals(row@) == target[i as int].take(j as int),
            {
                let x = transcript.round_constant();
                row.push(x);
                proof {
                    k = k + 1;
                    assert(draw_ops(h0, k as nat) == draw_ops(h0, (k - 1) as nat).push(
                        (
                            2int,
                            "round-constant"@,
                            challenge_of(
                                draw_ops(h0, (k - 1) as nat),
                                "round-constant"@,
                                CONSTANT_BYTES as nat,
                            ),
                        ),
                    ));
                    assert(vals(row@) =~= target[i as int].take(j + 1));
                }
            }
            assert(target[i as int].take(t as int) =~= target[i as int]);
            rows.push(row);
            proof {
                assert(k == (i + 1) * t) by (nonlinear_arith)
                    requires
                        k == i * t + t,
                ;
            }
        }
        let m = ArcMatrix(Matrix { n_rows: total, n_cols: t, rows });
        assert(m@ =~= target) by {
            assert forall|a: int| 0 <= a < total implies #[trigger] m@[a] =~= target[a] by {
                assert(m@[a] == vals(rows@[a]@));
            }
        }
        m
    }
}

/// Round constants rearranged for the partial rounds: constants are folded backward
/// through the mixing matrix so that each partial round after the first injects a
/// single constant, into the element that passes through the S-box.
#[derive(Clone, Debug, PartialEq, Eq)]
pub struct OptimizedArcMatrix(pub ArcMatrix);

impl View for OptimizedArcMatrix {
    type V = Seq<Seq<int>>;

    open spec fn view(&self) -> Seq<Seq<int>> {
        self.0@
    }
}

impl OptimizedArcMatrix {
    pub open spec fn wf(&self) -> bool {
        self.0.wf()
    }

    pub open spec fn n_rows_spec(&self) -> usize {
        self.0.0.n_rows
    }

    pub open spec fn n_cols_spec(&self) -> usize {
        self.0.0.n_cols
    }

    /// Builds an `n_rows` by `n_cols` matrix from its elements in row-major order.
    pub fn new(n_rows: usize, n_cols: usize, elements: Vec<Fq>) -> (r: Result<Self, MatrixError>)
        requires
            all_wf(elements@),
        ensures
            r.is_ok() == (elements@.len() == n_rows as int * n_cols as int),
            r matches Ok(m) ==> m.wf() && m.n_rows_spec() == n_rows && m.n_cols_spec() == n_cols
                && crate::matrix::flat(m@) == vals(elements@),
            r matches Err(e) ==> e == MatrixError::DimensionError,
    {
        match Matrix::new(n_rows, n_cols, elements) {
            Ok(m) => Ok(OptimizedArcMatrix(ArcMatrix(m))),
            Err(e) => Err(e),
        }
    }

    pub fn n_rows(&self) -> (r: usize)
        ensures
            r == self.n_rows_spec(),
    {
        self.0.0.n_rows
    }

    pub fn n_cols(&self) -> (r: usize)
        ensures
            r == self.n_cols_spec(),
    {
        self.0.0.n_cols
    }

    /// The element in row `i` and column `j`.
    pub fn get_element(&self, i: usize, j: usize) -> (r: Fq)
        requires
            self.wf(),
            i < self.n_rows_spec(),
            j < self.n_cols_spec(),
        ensures
            r.wf(),
            r.val() == self@[i as int][j as int],
    {
        self.0.0.get_element(i, j)
    }

    /// Replaces the element in row `i` and column `j` with `val`.
    pub fn set_element(&mut self, i: usize, j: usize, val: Fq)
        requires
            old(self).wf(),
            val.wf(),
            i < old(self).n_rows_spec(),
            j < old(self).n_cols_spec(),
        ensures
            final(self).wf(),
            final(self).n_rows_spec() == old(self).n_rows_spec(),
            final(self).n_cols_spec() == old(self).n_cols_spec(),
            final(self)@ == old(self)@.update(
                i as int,
                old(self)@[i as int].update(j as int, val.val()),
            ),
    {
        self.0.0.set_element(i, j, val)
    }

    /// All elements in row-major order.
    pub fn elements(&self) -> (r: Vec<Fq>)
        requires
            self.wf(),
        ensures
            vals(r@) == crate::matrix::flat(self@),
            all_wf(r@),
    {
        self.0.0.elements()
    }

    /// The matrix with rows and columns exchanged.
    pub fn transpose(&self) -> (r: Self)
        requires
            self.wf(),
        ensures
            r.wf(),
            r.n_rows_spec() == self.n_cols_spec(),
            r.n_cols_spec() == self.n_rows_spec(),
            r@ == transpose_of(self@, self.n_rows_spec() as nat, self.n_cols_spec() as nat),
    {
        OptimizedArcMatrix(ArcMatrix(self.0.0.transpose()))
    }

    /// The element-wise product; the two matrices must have the same shape.
    pub fn hadamard_product(&self, rhs: &Self) -> (r: Result<Self, MatrixError>)
        requires
            self.wf(),
            rhs.wf(),
        ensures
            r.is_ok() == (self.n_rows_spec() == rhs.n_rows_spec() && self.n_cols_spec()
                == rhs.n_cols_spec()),
            r matches Ok(m) ==> m.wf() && m.n_rows_spec() == self.n_rows_spec() && m.n_cols_spec()
                == self.n_cols_spec() && m@ == hadamard_of(
                self@,
                rhs@,
                self.n_rows_spec() as nat,
                self.n_cols_spec() as nat,
            ),
            r matches Err(e) ==> e == MatrixError::DimensionError,
    {
        match self.0.0.hadamard_product(&rhs.0.0) {
            Ok(m) => Ok(OptimizedArcMatrix(ArcMatrix(m))),
            Err(e) => Err(e),
        }
    }

    /// The rows of the matrix, each a vector of its elements.
    pub fn into_rows(self) -> (r: Vec<Vec<Fq>>)
        requires
            self.wf(),
        ensures
            r@.len() == self.n_rows_spec(),
            forall|i: int| 0 <= i < self.n_rows_spec() ==> vals((#[trigger] r@[i])@) == self@[i],
    {
        let r = self.0.0.rows();
        proof {
            assert forall|i: int| 0 <= i < self.n_rows_spec() implies vals((#[trigger] r@[i])@)
                == self@[i] by {
                assert(self@[i] == vals(self.0.0.rows@[i]@));
            }
        }
        r
    }
}

} // verus!
