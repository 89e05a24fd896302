use vstd::prelude::*;

use crate::matrix::Matrix;
use crate::round_constants::{Alpha, ArcMatrix, InputParameters, OptimizedArcMatrix, RoundNumbers};
use crate::square::{det, SquareMatrix};

verus! {

/// A check that a parameter set failed.
#[derive(Clone, Copy, Debug, PartialEq, Eq)]
pub enum ValidationFailure {
    /// The mixing matrix is not `t` by `t`.
    MixingMatrixShape,
    /// The mixing matrix is `t` by `t` but has determinant zero.
    MixingMatrixSingular,
    /// The round constants do not have one column per state element.
    ArcMatrixWidth,
    /// The round constants do not have one row per round.
    ArcMatrixRounds,
    /// The optimized round constants do not have one column per state element.
    OptimizedArcMatrixWidth,
    /// The optimized round constants do not have one row per round.
    OptimizedArcMatrixRounds,
}

/// `seq![f]` where `failed`, else nothing.
pub open spec fn check(failed: bool, f: ValidationFailure) -> Seq<ValidationFailure> {
    if failed {
        seq![f]
    } else {
        seq![]
    }
}

/// Every check that the given parts fail, in a fixed order.
pub open spec fn failures_of(
    input: InputParameters,
    rounds: RoundNumbers,
    mds: Matrix,
    arc: ArcMatrix,
    optimized: OptimizedArcMatrix,
) -> Seq<ValidationFailure> {
    let t = input.t;
    let square = mds.n_rows == t && mds.n_cols == t;
    check(!square, ValidationFailure::MixingMatrixShape) + check(
        square && det(mds@) == 0,
        ValidationFailure::MixingMatrixSingular,
    ) + check(arc.0.n_cols != t, ValidationFailure::ArcMatrixWidth) + check(
        arc.0.n_rows != rounds.total_spec(),
        ValidationFailure::ArcMatrixRounds,
    ) + check(optimized.0.0.n_cols != t, ValidationFailure::OptimizedArcMatrixWidth) + check(
        optimized.0.0.n_rows != rounds.total_spec(),
        ValidationFailure::OptimizedArcMatrixRounds,
    )
}

/// Appends `f` to `out` where `failed`.
fn record(out: &mut Vec<ValidationFailure>, failed: bool, f: ValidationFailure)
    ensures
        final(out)@ == old(out)@ + check(failed, f),
{
    if failed {
        out.push(f);
    }
    assert(out@ =~= old(out)@ + check(failed, f));
}

/// The validated parameters of one permutation instance. Its fields are private: a
/// value exists only once [`ParameterSet::new`] has accepted its parts.
#[derive(Clone, Debug, PartialEq, Eq)]
pub struct ParameterSet {
    input: InputParameters,
    rounds: RoundNumbers,
    alpha: Alpha,
    mds: Matrix,
    arc: ArcMatrix,
    optimized_arc: OptimizedArcMatrix,
}

impl ParameterSet {
    pub closed spec fn input_spec(&self) -> InputParameters {
        self.input
    }

    pub fn input(&self) -> (r: &InputParameters)
        ensures
            *r == self.input_spec(),
    {
        &self.input
    }

    pub closed spec fn rounds_spec(&self) -> RoundNumbers {
        self.rounds
    }

    pub fn rounds(&self) -> (r: &RoundNumbers)
        ensures
            *r == self.rounds_spec(),
    {
        &self.rounds
    }

    pub closed spec fn alpha_spec(&self) -> Alpha {
        self.alpha
    }

    pub fn alpha(&self) -> (r: &Alpha)
        ensures
            *r == self.alpha_spec(),
    {
        &self.alpha
    }

    pub closed spec fn mds_spec(&self) -> Matrix {
        self.mds
    }

    pub fn mds(&self) -> (r: &Matrix)
        ensures
            *r == self.mds_spec(),
    {
        &self.mds
    }

    pub closed spec fn arc_spec(&self) -> ArcMatrix {
        self.arc
    }

    pub fn arc(&self) -> (r: &ArcMatrix)
        ensures
            *r == self.arc_spec(),
    {
        &self.arc
    }

    pub closed spec fn optimized_arc_spec(&self) -> OptimizedArcMatrix {
        self.optimized_arc
    }

    pub fn optimized_arc(&self) -> (r: &OptimizedArcMatrix)
        ensures
            *r == self.optimized_arc_spec(),
    {
        &self.optimized_arc
    }

    /// Validates the parts and bundles them; on failure, reports every check that failed.
    pub fn new(
        input: InputParameters,
        rounds: RoundNumbers,
        alpha: Alpha,
        mds: Matrix,
        arc: ArcMatrix,
        optimized_arc: OptimizedArcMatrix,
    ) -> (r: Result<ParameterSet, Vec<ValidationFailure>>)
        requires
            mds.wf(),
            rounds.full + rounds.partial <= usize::MAX,
        ensures
            r.is_ok() == (failures_of(input, rounds, mds, arc, optimized_arc).len() == 0),
            r matches Err(v) ==> v@ == failures_of(input, rounds, mds, arc, optimized_arc),
            r matches Ok(p) ==> p.input_spec() == input && p.rounds_spec() == rounds
                && p.alpha_spec() == alpha && p.mds_spec() == mds && p.arc_spec() == arc
                && p.optimized_arc_spec() == optimized_arc,
    {
        let t = input.t;
        let total = rounds.total();
        let square = mds.n_rows == t && mds.n_cols == t;
        let singular = if square {
            SquareMatrix(mds.clone_matrix()).determinant().is_zero()
        } else {
            false
        };
        let mut failures: Vec<ValidationFailure> = Vec::new();
        record(&mut failures, !square, ValidationFailure::MixingMatrixShape);
        record(&mut failures, singular, ValidationFailure::MixingMatrixSingular);
        record(&mut failures, arc.0.n_cols != t, ValidationFailure::ArcMatrixWidth);
        record(&mut failures, arc.0.n_rows != total, ValidationFailure::ArcMatrixRounds);
        record(
            &mut failures,
            optimized_arc.0.0.n_cols != t,
            ValidationFailure::OptimizedArcMatrixWidth,
        );
        record(
            &mut failures,
            optimized_arc.0.0.n_rows != total,
            ValidationFailure::OptimizedArcMatrixRounds,
        );
        assert(failures@ =~= failures_of(input, rounds, mds, arc, optimized_arc));
        if failures.len() > 0 {
            Err(failures)
        } else {
            Ok(ParameterSet { input, rounds, alpha, mds, arc, optimized_arc })
        }
    }
}

} // verus!
