use poseidon_paramgen::{
    transform, Alpha, ArcMatrix, Fq, InputParameters, Matrix, MatrixError, OptimizedArcMatrix,
    ParameterSet, RoundNumbers, ValidationFailure,
};

fn fq(n: u64) -> Fq {
    Fq::from_u64(n)
}

fn input(t: usize) -> InputParameters {
    InputParameters { t, security_level: 128 }
}

fn rounds() -> RoundNumbers {
    RoundNumbers { full: 4, partial: 3 }
}

fn sbox(x: Fq) -> Fq {
    let x2 = x.mul(x);
    x2.mul(x2).mul(x)
}

fn mix(m: &Matrix, s: &[Fq]) -> Vec<Fq> {
    let mut out = Vec::new();
    for i in 0..m.n_rows() {
        let mut acc = Fq::zero();
        for j in 0..m.n_cols() {
            acc = acc.add(m.get_element(i, j).mul(s[j]));
        }
        out.push(acc);
    }
    out
}

fn is_full(r: usize, rounds: RoundNumbers) -> bool {
    r < rounds.full / 2 || r >= rounds.full / 2 + rounds.partial
}

fn permute(arc: &ArcMatrix, mds: &Matrix, rounds: RoundNumbers, state: &[Fq]) -> Vec<Fq> {
    let mut s = state.to_vec();
    for r in 0..rounds.full + rounds.partial {
        for k in 0..s.len() {
            s[k] = s[k].add(arc.get_element(r, k));
        }
        if is_full(r, rounds) {
            for k in 0..s.len() {
                s[k] = sbox(s[k]);
            }
        } else {
            s[0] = sbox(s[0]);
        }
        s = mix(mds, &s);
    }
    s
}

fn permute_optimized(
    arc: &OptimizedArcMatrix,
    mds: &Matrix,
    rounds: RoundNumbers,
    state: &[Fq],
) -> Vec<Fq> {
    let first_partial = rounds.full / 2;
    let mut s = state.to_vec();
    for r in 0..rounds.full + rounds.partial {
        if is_full(r, rounds) || r == first_partial {
            for k in 0..s.len() {
                s[k] = s[k].add(arc.get_element(r, k));
            }
        }
        if is_full(r, rounds) {
            for k in 0..s.len() {
                s[k] = sbox(s[k]);
            }
        } else {
            s[0] = sbox(s[0]);
            if r + 1 < first_partial + rounds.partial {
                s[0] = s[0].add(arc.get_element(r + 1, 0));
            }
        }
        s = mix(mds, &s);
    }
    s
}

#[test]
fn generation_is_deterministic() {
    let a = ArcMatrix::generate(&input(3), rounds(), Alpha::Exponent(5));
    let b = ArcMatrix::generate(&input(3), rounds(), Alpha::Exponent(5));
    assert_eq!(a, b);
    assert_eq!((a.n_rows(), a.n_cols()), (7, 3));
}

#[test]
fn generation_depends_on_every_argument() {
    let base = ArcMatrix::generate(&input(3), rounds(), Alpha::Exponent(5));
    let first_row = |m: &ArcMatrix| (0..3).map(|j| m.get_element(0, j)).collect::<Vec<Fq>>();
    let other_alpha = ArcMatrix::generate(&input(3), rounds(), Alpha::Exponent(17));
    assert_ne!(first_row(&base), first_row(&other_alpha));
    let inverse_alpha = ArcMatrix::generate(&input(3), rounds(), Alpha::Inverse);
    assert_ne!(first_row(&base), first_row(&inverse_alpha));
    let other_rounds =
        ArcMatrix::generate(&input(3), RoundNumbers { full: 4, partial: 4 }, Alpha::Exponent(5));
    assert_ne!(first_row(&base), first_row(&other_rounds));
    let other_security = ArcMatrix::generate(
        &InputParameters { t: 3, security_level: 256 },
        rounds(),
        Alpha::Exponent(5),
    );
    assert_ne!(first_row(&base), first_row(&other_security));
    let other_width = ArcMatrix::generate(&input(4), rounds(), Alpha::Exponent(5));
    let first_three = (0..3).map(|j| other_width.get_element(0, j)).collect::<Vec<Fq>>();
    assert_ne!(first_row(&base), first_three);
}

#[test]
fn generated_constants_are_not_trivial() {
    let m = ArcMatrix::generate(&input(2), rounds(), Alpha::Exponent(5));
    assert_ne!(m.get_element(0, 0), m.get_element(0, 1));
    assert_ne!(m.get_element(0, 0), Fq::zero());
}

#[test]
fn optimized_schedule_matches_plain_schedule() {
    for t in 2..=3 {
        let arc = ArcMatrix::generate(&input(t), rounds(), Alpha::Exponent(5));
        let mut elements = Vec::new();
        for i in 0..t {
            for j in 0..t {
                elements.push(fq((i * t + j) as u64 * (j as u64 + 1) + 1 + (i == j) as u64 * 7));
            }
        }
        let mds = Matrix::new(t, t, elements).unwrap();
        let optimized = transform(&arc, &mds, rounds()).unwrap();
        let state: Vec<Fq> = (0..t).map(|k| fq(k as u64 + 11)).collect();
        assert_eq!(
            permute(&arc, &mds, rounds(), &state),
            permute_optimized(&optimized, &mds, rounds(), &state)
        );
        assert_ne!(optimized.0, arc);
    }
}

#[test]
fn transform_rejects_bad_mixing_matrices() {
    let arc = ArcMatrix::generate(&input(2), rounds(), Alpha::Exponent(5));
    let singular = Matrix::new(2, 2, vec![fq(1), fq(2), fq(2), fq(4)]).unwrap();
    assert_eq!(transform(&arc, &singular, rounds()), Err(MatrixError::InvalidMixingMatrixError));
    let wide = Matrix::new(2, 3, vec![fq(1); 6]).unwrap();
    assert_eq!(transform(&arc, &wide, rounds()), Err(MatrixError::InvalidMixingMatrixError));
    let good = Matrix::new(2, 2, vec![fq(2), fq(1), fq(1), fq(3)]).unwrap();
    let other_rounds = RoundNumbers { full: 4, partial: 5 };
    assert_eq!(transform(&arc, &good, other_rounds), Err(MatrixError::DimensionError));
}

#[test]
fn parameter_set_reports_every_failure() {
    let arc = ArcMatrix::generate(&input(2), rounds(), Alpha::Exponent(5));
    let mds = Matrix::new(2, 2, vec![fq(2), fq(1), fq(1), fq(3)]).unwrap();
    let optimized = transform(&arc, &mds, rounds()).unwrap();
    let ok = ParameterSet::new(
        input(2),
        rounds(),
        Alpha::Exponent(5),
        mds.clone(),
        arc.clone(),
        optimized.clone(),
    );
    let set = ok.unwrap();
    assert_eq!(set.rounds(), &rounds());
    assert_eq!(set.input(), &input(2));
    assert_eq!(set.alpha(), &Alpha::Exponent(5));
    assert_eq!(set.mds(), &mds);
    assert_eq!(set.arc(), &arc);
    assert_eq!(set.optimized_arc(), &optimized);

    let singular = Matrix::new(2, 2, vec![fq(1), fq(2), fq(2), fq(4)]).unwrap();
    let short = ArcMatrix::new(1, 3, vec![fq(1), fq(2), fq(3)]).unwrap();
    let bad = ParameterSet::new(input(2), rounds(), Alpha::Exponent(5), singular, short, optimized);
    assert_eq!(
        bad,
        Err(vec![
            ValidationFailure::MixingMatrixSingular,
            ValidationFailure::ArcMatrixWidth,
            ValidationFailure::ArcMatrixRounds,
        ])
    );

    let wide = Matrix::new(2, 3, vec![fq(1); 6]).unwrap();
    let optimized = transform(&arc, &mds, rounds()).unwrap();
    let bad = ParameterSet::new(input(3), rounds(), Alpha::Inverse, wide, arc, optimized);
    assert_eq!(
        bad,
        Err(vec![
            ValidationFailure::MixingMatrixShape,
            ValidationFailure::ArcMatrixWidth,
            ValidationFailure::OptimizedArcMatrixWidth,
        ])
    );
}
