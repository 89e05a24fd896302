use vstd::prelude::*;

use crate::field::{fadd, modulus};
use crate::matrix::{column, dot, product_of, vals};
use crate::round_constants::{
    fold_round, fold_rounds, mat_vec, optimized_constants, ArcMatrix, RoundNumbers,
};
use crate::square::{
    identity_of, is_inverse_of, lemma_cong_add, lemma_cong_mul, lemma_cong_reduce, lemma_dot_two,
    lemma_inverse_is_two_sided_two_by_two, lemma_modulus_positive, SquareMatrix,
};

verus! {

/// `c` with `v` added to every element but the first.
pub open spec fn add_tail(c: Seq<int>, v: Seq<int>) -> Seq<int> {
    Seq::new(c.len(), |k: int| if k == 0 { c[0] } else { fadd(c[k], v[k]) })
}

/// A vector of length `n` that keeps only the first element of `v`.
pub open spec fn head_only(v: Seq<int>, n: nat) -> Seq<int> {
    Seq::new(n, |k: int| if k == 0 { v[0] } else { 0int })
}

/// The constants accumulated at round `i` when rounds `i + 1 ..= hi` are folded back
/// through `minv`.
pub open spec fn accumulated(c: Seq<Seq<int>>, minv: Seq<Seq<int>>, i: int, hi: int) -> Seq<int>
    decreases hi - i,
{
    if i >= hi {
        c[hi]
    } else {
        add_tail(c[i], mat_vec(minv, accumulated(c, minv, i + 1, hi)))
    }
}

/// The constants once rounds `j + 1 ..= hi` have been folded back into round `j`.
pub open spec fn folded_down_to(c: Seq<Seq<int>>, minv: Seq<Seq<int>>, j: int, hi: int) -> Seq<
    Seq<int>,
> {
    Seq::new(
        c.len(),
        |r: int|
            if r < j || r > hi {
                c[r]
            } else if r == j {
                accumulated(c, minv, j, hi)
            } else {
                head_only(mat_vec(minv, accumulated(c, minv, r, hi)), c[r].len())
            },
    )
}

proof fn lemma_fold_step(c: Seq<Seq<int>>, minv: Seq<Seq<int>>, j: int, hi: int)
    requires
        1 <= j <= hi < c.len(),
    ensures
        fold_round(folded_down_to(c, minv, j, hi), minv, j - 1) == folded_down_to(
            c,
            minv,
            j - 1,
            hi,
        ),
{
    let cur = folded_down_to(c, minv, j, hi);
    let next = folded_down_to(c, minv, j - 1, hi);
    assert(cur[j] == accumulated(c, minv, j, hi));
    assert(cur[j - 1] == c[j - 1]);
    assert(accumulated(c, minv, j - 1, hi) == add_tail(
        c[j - 1],
        mat_vec(minv, accumulated(c, minv, j, hi)),
    ));
    let f = fold_round(cur, minv, j - 1);
    assert(f =~= next) by {
        assert forall|r: int| 0 <= r < c.len() implies #[trigger] f[r] =~= next[r] by {
            if r == j - 1 {
                assert(f[r] =~= add_tail(c[j - 1], mat_vec(minv, accumulated(c, minv, j, hi))));
            } else if r == j {
                if j < hi {
                    assert(cur[j].len() == c[j].len());
                }
            }
        }
    }
}

/// Folding rounds `lo + 1 ..= hi` back into round `lo` leaves [`accumulated`] constants in
/// round `lo`, a single constant in each later folded round, and every other round as it was.
pub proof fn lemma_fold_rounds_closed_form(c: Seq<Seq<int>>, minv: Seq<Seq<int>>, lo: int, hi: int)
    requires
        0 <= lo <= hi < c.len(),
    ensures
        fold_rounds(c, minv, lo, hi) == folded_down_to(c, minv, lo, hi),
    decreases hi - lo,
{
    assert(folded_down_to(c, minv, hi, hi) =~= c) by {
        assert(accumulated(c, minv, hi, hi) == c[hi]);
    }
    lemma_fold_from(c, minv, lo, hi, hi);
}

proof fn lemma_fold_from(c: Seq<Seq<int>>, minv: Seq<Seq<int>>, lo: int, j: int, hi: int)
    requires
        0 <= lo <= j <= hi < c.len(),
    ensures
        fold_rounds(folded_down_to(c, minv, j, hi), minv, lo, j) == folded_down_to(c, minv, lo, hi),
    decreases j - lo,
{
    if j > lo {
        lemma_fold_step(c, minv, j, hi);
        lemma_fold_from(c, minv, lo, j - 1, hi);
    }
}

/// Element-wise field sum.
pub open spec fn vadd(x: Seq<int>, y: Seq<int>) -> Seq<int> {
    Seq::new(x.len(), |k: int| fadd(x[k], y[k]))
}

/// Every element is a canonical representative.
pub open spec fn canonical(v: Seq<int>) -> bool {
    forall|k: int| 0 <= k < v.len() ==> 0 <= #[trigger] v[k] < modulus()
}

/// The S-box `f` applied to every element.
pub open spec fn sbox_all(f: spec_fn(int) -> int, x: Seq<int>) -> Seq<int> {
    Seq::new(x.len(), |k: int| f(x[k]))
}

/// The S-box `f` applied to the first element only.
pub open spec fn sbox_first(f: spec_fn(int) -> int, x: Seq<int>) -> Seq<int> {
    x.update(0, f(x[0]))
}

/// Round `r` is a full round: the partial rounds are `full / 2 .. full / 2 + partial`.
pub open spec fn is_full_round(rounds: RoundNumbers, r: int) -> bool {
    r < rounds.full as int / 2 || r >= rounds.full as int / 2 + rounds.partial
}

/// One round of the plain schedule: add the round's constants, apply the S-box (to every
/// element in a full round, to the first in a partial round), then the mixing matrix `m`.
pub open spec fn plain_round(
    m: Seq<Seq<int>>,
    c: Seq<Seq<int>>,
    rounds: RoundNumbers,
    f: spec_fn(int) -> int,
    r: int,
    s: Seq<int>,
) -> Seq<int> {
    let x = vadd(s, c[r]);
    mat_vec(m, if is_full_round(rounds, r) { sbox_all(f, x) } else { sbox_first(f, x) })
}

/// The state after the first `n` rounds of the plain schedule from `s`.
pub open spec fn plain_schedule(
    m: Seq<Seq<int>>,
    c: Seq<Seq<int>>,
    rounds: RoundNumbers,
    f: spec_fn(int) -> int,
    s: Seq<int>,
    n: nat,
) -> Seq<int>
    decreases n,
{
    if n == 0 {
        s
    } else {
        plain_round(m, c, rounds, f, n - 1, plain_schedule(m, c, rounds, f, s, (n - 1) as nat))
    }
}

/// One round of the optimized schedule. Full rounds are as in the plain schedule. The
/// first partial round adds its whole constant vector before the S-box; every partial
/// round but the last adds the first constant of the next round right after its S-box.
pub open spec fn optimized_round(
    m: Seq<Seq<int>>,
    c: Seq<Seq<int>>,
    rounds: RoundNumbers,
    f: spec_fn(int) -> int,
    r: int,
    s: Seq<int>,
) -> Seq<int> {
    let lo = rounds.full as int / 2;
    if is_full_round(rounds, r) {
        plain_round(m, c, rounds, f, r, s)
    } else {
        let z = sbox_first(f, if r == lo { vadd(s, c[r]) } else { s });
        mat_vec(
            m,
            if r + 1 < lo + rounds.partial {
                z.update(0, fadd(z[0], c[r + 1][0]))
            } else {
                z
            },
        )
    }
}

/// The state after the first `n` rounds of the optimized schedule from `s`.
pub open spec fn optimized_schedule(
    m: Seq<Seq<int>>,
    c: Seq<Seq<int>>,
    rounds: RoundNumbers,
    f: spec_fn(int) -> int,
    s: Seq<int>,
    n: nat,
) -> Seq<int>
    decreases n,
{
    if n == 0 {
        s
    } else {
        optimized_round(
            m,
            c,
            rounds,
            f,
            n - 1,
            optimized_schedule(m, c, rounds, f, s, (n - 1) as nat),
        )
    }
}

proof fn lemma_fadd_assoc(a: int, b: int, c: int)
    ensures
        fadd(a, fadd(b, c)) == fadd(fadd(a, b), c),
{
    let p = modulus();
    assert(p > 0);
    vstd::arithmetic::div_mod::lemma_add_mod_noop(a, (b + c) % p, p);
    vstd::arithmetic::div_mod::lemma_mod_twice(b + c, p);
    vstd::arithmetic::div_mod::lemma_add_mod_noop(a, b + c, p);
    vstd::arithmetic::div_mod::lemma_add_mod_noop((a + b) % p, c, p);
    vstd::arithmetic::div_mod::lemma_mod_twice(a + b, p);
    vstd::arithmetic::div_mod::lemma_add_mod_noop(a + b, c, p);
    assert(a + (b + c) == (a + b) + c);
}

proof fn lemma_accumulated_shape(c: Seq<Seq<int>>, minv: Seq<Seq<int>>, i: int, hi: int, t: nat)
    requires
        0 <= i <= hi < c.len(),
        t >= 1,
        minv.len() == t,
        forall|r: int| 0 <= r < c.len() ==> (#[trigger] c[r]).len() == t && canonical(c[r]),
    ensures
        accumulated(c, minv, i, hi).len() == t,
        canonical(accumulated(c, minv, i, hi)),
    decreases hi - i,
{
    assert(modulus() > 0);
    if i < hi {
        lemma_accumulated_shape(c, minv, i + 1, hi, t);
    }
}

/// The optimized schedule on the folded constants agrees with the plain schedule on the
/// original constants, for a mixing map that is linear and undone by `minv`.
proof fn lemma_schedules_agree_given(
    m: Seq<Seq<int>>,
    minv: Seq<Seq<int>>,
    c: Seq<Seq<int>>,
    rounds: RoundNumbers,
    f: spec_fn(int) -> int,
    s: Seq<int>,
    n: nat,
    t: nat,
)
    requires
        t >= 1,
        m.len() == t,
        minv.len() == t,
        s.len() == t,
        rounds.partial >= 1,
        c.len() == rounds.full + rounds.partial,
        n <= c.len(),
        forall|r: int| 0 <= r < c.len() ==> (#[trigger] c[r]).len() == t && canonical(c[r]),
        forall|x: Seq<int>, y: Seq<int>|
            x.len() == t && y.len() == t ==> #[trigger] mat_vec(m, vadd(x, y)) == vadd(
                mat_vec(m, x),
                mat_vec(m, y),
            ),
        forall|v: Seq<int>|
            v.len() == t && canonical(v) ==> #[trigger] mat_vec(m, mat_vec(minv, v)) == v,
    ensures
        ({
            let lo = rounds.full as int / 2;
            let hi = lo + rounds.partial - 1;
            let o = optimized_schedule(m, optimized_constants(c, minv, rounds), rounds, f, s, n);
            let p = plain_schedule(m, c, rounds, f, s, n);
            &&& o.len() == t
            &&& p.len() == t
            &&& (n <= lo || n > hi) ==> o == p
            &&& (lo < n <= hi) ==> o == vadd(p, accumulated(c, minv, n as int, hi))
        }),
    decreases n,
{
    let lo = rounds.full as int / 2;
    let hi = lo + rounds.partial - 1;
    let opt = optimized_constants(c, minv, rounds);
    lemma_fold_rounds_closed_form(c, minv, lo, hi);
    assert(opt == folded_down_to(c, minv, lo, hi));
    if n > 0 {
        let r = n - 1;
        lemma_schedules_agree_given(m, minv, c, rounds, f, s, (n - 1) as nat, t);
        let o0 = optimized_schedule(m, opt, rounds, f, s, (n - 1) as nat);
        let p0 = plain_schedule(m, c, rounds, f, s, (n - 1) as nat);
        assert(optimized_schedule(m, opt, rounds, f, s, n) == optimized_round(
            m,
            opt,
            rounds,
            f,
            r,
            o0,
        ));
        assert(plain_schedule(m, c, rounds, f, s, n) == plain_round(m, c, rounds, f, r, p0));
        if is_full_round(rounds, r) {
            assert(opt[r] == c[r]);
        } else {
            lemma_accumulated_shape(c, minv, r, hi, t);
            let acc = accumulated(c, minv, r, hi);
            let x = vadd(p0, c[r]);
            let xo = if r == lo {
                vadd(o0, opt[r])
            } else {
                o0
            };
            assert(xo == vadd(p0, acc)) by {
                if r == lo {
                    assert(opt[r] == acc);
                }
            }
            if r < hi {
                lemma_accumulated_shape(c, minv, r + 1, hi, t);
                let acc1 = accumulated(c, minv, r + 1, hi);
                let w = mat_vec(minv, acc1);
                assert(acc == add_tail(c[r], w));
                assert(opt[r + 1] == head_only(w, c[r + 1].len()));
                let z = sbox_first(f, xo);
                let y = z.update(0, fadd(z[0], opt[r + 1][0]));
                let base = sbox_first(f, x);
                assert(y =~= vadd(base, w)) by {
                    assert forall|k: int| 0 <= k < t implies #[trigger] y[k] == vadd(base, w)[k] by {
                        if k > 0 {
                            lemma_fadd_assoc(p0[k], c[r][k], w[k]);
                        }
                    }
                }
                assert(mat_vec(m, vadd(base, w)) == vadd(mat_vec(m, base), mat_vec(m, w)));
                assert(mat_vec(m, w) == acc1);
            } else {
                assert(acc == c[hi]);
                assert(xo =~= x);
            }
        }
    }
}

/// With no partial rounds, the two schedules are the same.
proof fn lemma_schedules_agree_all_full(
    m: Seq<Seq<int>>,
    c: Seq<Seq<int>>,
    rounds: RoundNumbers,
    f: spec_fn(int) -> int,
    s: Seq<int>,
    n: nat,
)
    requires
        rounds.partial == 0,
    ensures
        optimized_schedule(m, c, rounds, f, s, n) == plain_schedule(m, c, rounds, f, s, n),
    decreases n,
{
    if n > 0 {
        lemma_schedules_agree_all_full(m, c, rounds, f, s, (n - 1) as nat);
    }
}

/// A 2 by 2 mixing matrix acts linearly on vectors of length 2.
proof fn lemma_linear_width_two(m: Seq<Seq<int>>, x: Seq<int>, y: Seq<int>)
    requires
        m.len() == 2,
        m[0].len() == 2,
        m[1].len() == 2,
        x.len() == 2,
        y.len() == 2,
    ensures
        mat_vec(m, vadd(x, y)) == vadd(mat_vec(m, x), mat_vec(m, y)),
{
    let p = modulus();
    lemma_modulus_positive();
    let l = mat_vec(m, vadd(x, y));
    let r = vadd(mat_vec(m, x), mat_vec(m, y));
    assert forall|k: int| 0 <= k < 2 implies #[trigger] l[k] == r[k] by {
        let a = m[k];
        let xy = vadd(x, y);
        lemma_dot_two(a, xy);
        lemma_dot_two(a, x);
        lemma_dot_two(a, y);
        lemma_cong_reduce(x[0] + y[0]);
        lemma_cong_reduce(x[1] + y[1]);
        lemma_cong_reduce(a[0]);
        lemma_cong_reduce(a[1]);
        lemma_cong_mul(a[0], xy[0], a[0], x[0] + y[0]);
        lemma_cong_mul(a[1], xy[1], a[1], x[1] + y[1]);
        lemma_cong_add(a[0] * xy[0], a[1] * xy[1], a[0] * (x[0] + y[0]), a[1] * (x[1] + y[1]));
        let (dx, dy) = (dot(a, x), dot(a, y));
        lemma_cong_add(dx, dy, a[0] * x[0] + a[1] * x[1], a[0] * y[0] + a[1] * y[1]);
        lemma_cong_reduce(dx + dy);
        assert(a[0] * (x[0] + y[0]) + a[1] * (x[1] + y[1]) == (a[0] * x[0] + a[1] * x[1]) + (
        a[0] * y[0] + a[1] * y[1])) by (nonlinear_arith);
        vstd::arithmetic::div_mod::lemma_small_mod(l[k] as nat, p as nat);
        vstd::arithmetic::div_mod::lemma_small_mod(r[k] as nat, p as nat);
    }
    assert(l =~= r);
}

proof fn lemma_regroup(a0: int, a1: int, m00: int, m01: int, m10: int, m11: int, v0: int, v1: int)
    ensures
        a0 * (m00 * v0 + m01 * v1) + a1 * (m10 * v0 + m11 * v1) == (a0 * m00 + a1 * m10) * v0 + (a0
            * m01 + a1 * m11) * v1,
{
    assert(a0 * (m00 * v0 + m01 * v1) == a0 * m00 * v0 + a0 * m01 * v1) by (nonlinear_arith);
    assert(a1 * (m10 * v0 + m11 * v1) == a1 * m10 * v0 + a1 * m11 * v1) by (nonlinear_arith);
    assert((a0 * m00 + a1 * m10) * v0 == a0 * m00 * v0 + a1 * m10 * v0) by (nonlinear_arith);
    assert((a0 * m01 + a1 * m11) * v1 == a0 * m01 * v1 + a1 * m11 * v1) by (nonlinear_arith);
}

/// A 2 by 2 mixing matrix undoes its inverse on canonical vectors of length 2.
proof fn lemma_undoes_inverse_width_two(mds: SquareMatrix, minv: Seq<Seq<int>>, v: Seq<int>)
    requires
        mds.wf(),
        mds.dim() == 2,
        is_inverse_of(minv, mds@),
        v.len() == 2,
        canonical(v),
    ensures
        mat_vec(mds@, mat_vec(minv, v)) == v,
{
    let p = modulus();
    lemma_modulus_positive();
    mds.0.lemma_shape();
    let m = mds@;
    lemma_inverse_is_two_sided_two_by_two(mds, minv);
    let pr = product_of(m, minv, 2, 2, 2);
    assert(minv.len() == 2 && minv[0].len() == 2 && minv[1].len() == 2);
    let u = mat_vec(minv, v);
    let l = mat_vec(m, u);
    assert forall|k: int| 0 <= k < 2 implies #[trigger] l[k] == v[k] by {
        let a = m[k];
        lemma_dot_two(a, u);
        lemma_dot_two(minv[0], v);
        lemma_dot_two(minv[1], v);
        let (u0, u1) = (minv[0][0] * v[0] + minv[0][1] * v[1], minv[1][0] * v[0] + minv[1][1] * v[1]);
        lemma_cong_reduce(a[0]);
        lemma_cong_reduce(a[1]);
        lemma_cong_mul(a[0], u[0], a[0], u0);
        lemma_cong_mul(a[1], u[1], a[1], u1);
        lemma_cong_add(a[0] * u[0], a[1] * u[1], a[0] * u0, a[1] * u1);
        let (e0, e1) = (a[0] * minv[0][0] + a[1] * minv[1][0], a[0] * minv[0][1] + a[1] * minv[1][1]);
        lemma_dot_two(a, column(minv, 2, 0));
        lemma_dot_two(a, column(minv, 2, 1));
        assert(pr[k][0] == dot(a, column(minv, 2, 0)));
        assert(pr[k][1] == dot(a, column(minv, 2, 1)));
        assert(pr[k][0] == identity_of(2)[k][0]);
        assert(pr[k][1] == identity_of(2)[k][1]);
        lemma_cong_reduce(v[0]);
        lemma_cong_reduce(v[1]);
        lemma_cong_mul(pr[k][0], v[0], e0, v[0]);
        lemma_cong_mul(pr[k][1], v[1], e1, v[1]);
        lemma_cong_add(pr[k][0] * v[0], pr[k][1] * v[1], e0 * v[0], e1 * v[1]);
        lemma_regroup(a[0], a[1], minv[0][0], minv[0][1], minv[1][0], minv[1][1], v[0], v[1]);
        assert(pr[k][0] * v[0] + pr[k][1] * v[1] == v[k]) by (nonlinear_arith)
            requires
                0 <= k < 2,
                pr[k][0] == (if k == 0 { 1int } else { 0int }),
                pr[k][1] == (if k == 1 { 1int } else { 0int }),
        ;
        vstd::arithmetic::div_mod::lemma_small_mod(l[k] as nat, p as nat);
        vstd::arithmetic::div_mod::lemma_small_mod(v[k] as nat, p as nat);
    }
    assert(l =~= v);
}

/// For state width 2: running the permutation with the optimized constants of `arc`
/// (as `transform` computes them, through the inverse `minv` of the mixing matrix) gives,
/// for every S-box `f` and every input state `s`, exactly the output of the plain
/// schedule with `arc`.
pub proof fn lemma_optimized_schedule_agrees_width_two(
    mds: SquareMatrix,
    minv: Seq<Seq<int>>,
    arc: ArcMatrix,
    rounds: RoundNumbers,
    f: spec_fn(int) -> int,
    s: Seq<int>,
)
    requires
        mds.wf(),
        mds.dim() == 2,
        is_inverse_of(minv, mds@),
        arc.wf(),
        arc.0.n_rows == rounds.total_spec(),
        arc.0.n_cols == 2,
        s.len() == 2,
    ensures
        optimized_schedule(
            mds@,
            optimized_constants(arc@, minv, rounds),
            rounds,
            f,
            s,
            rounds.total_spec(),
        ) == plain_schedule(mds@, arc@, rounds, f, s, rounds.total_spec()),
{
    let c = arc@;
    let n = rounds.total_spec();
    arc.0.lemma_shape();
    mds.0.lemma_shape();
    if rounds.partial == 0 {
        let lo = rounds.full as int / 2;
        assert(optimized_constants(c, minv, rounds) == c);
        lemma_schedules_agree_all_full(mds@, c, rounds, f, s, n);
        return;
    }
    assert forall|r: int| 0 <= r < c.len() implies (#[trigger] c[r]).len() == 2 && canonical(
        c[r],
    ) by {
        assert(c[r] == vals(arc.0.rows@[r]@));
        assert forall|k: int| 0 <= k < c[r].len() implies 0 <= #[trigger] c[r][k] < modulus() by {
            assert(arc.0.rows@[r]@[k].wf());
        }
    }
    assert(minv.len() == 2);
    assert forall|x: Seq<int>, y: Seq<int>| x.len() == 2 && y.len() == 2 implies #[trigger] mat_vec(
        mds@,
        vadd(x, y),
    ) == vadd(mat_vec(mds@, x), mat_vec(mds@, y)) by {
        lemma_linear_width_two(mds@, x, y);
    }
    assert forall|v: Seq<int>| v.len() == 2 && canonical(v) implies #[trigger] mat_vec(
        mds@,
        mat_vec(minv, v),
    ) == v by {
        lemma_undoes_inverse_width_two(mds, minv, v);
    }
    lemma_schedules_agree_given(mds@, minv, c, rounds, f, s, n, 2);
}

} // verus!
