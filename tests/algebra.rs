use poseidon_paramgen::{
    dot_product, flatten, mat_mul, Fq, Matrix, MatrixError, SquareMatrix,
};

fn fq(n: u64) -> Fq {
    Fq::from_u64(n)
}

fn vandermonde(n: usize) -> SquareMatrix {
    let mut elements = Vec::new();
    for i in 0..n {
        let x = fq(i as u64 + 2);
        let mut p = Fq::one();
        for _ in 0..n {
            elements.push(p);
            p = p.mul(x);
        }
    }
    SquareMatrix::new(n, elements).unwrap()
}

#[test]
fn field_operations_compute_modular_results() {
    assert_eq!(fq(2).add(fq(3)), fq(5));
    assert_eq!(fq(2).sub(fq(3)), fq(1).neg());
    assert_eq!(fq(7).neg().add(fq(7)), Fq::zero());
    assert_eq!(fq(6).mul(fq(7)), fq(42));
    assert_eq!(fq(3).inverse().unwrap().mul(fq(3)), Fq::one());
    assert!(Fq::zero().inverse().is_none());
    assert_eq!(fq(42).div(fq(6)), fq(7));
    assert!(fq(0).is_zero());
    assert!(!fq(1).is_zero());
}

#[test]
fn inverse_is_two_sided_for_sizes_one_to_five() {
    for n in 1..=5 {
        let a = vandermonde(n);
        let inv = a.inverse().unwrap();
        assert_eq!(a.mul(&inv), SquareMatrix::identity(n));
        assert_eq!(inv.mul(&a), SquareMatrix::identity(n));
    }
}

#[test]
fn inverse_of_inverse_gives_back_the_matrix() {
    for n in 1..=4 {
        let a = vandermonde(n);
        assert_eq!(a.inverse().unwrap().inverse().unwrap(), a);
    }
}

#[test]
fn singular_matrix_has_no_inverse() {
    let m = SquareMatrix::new(2, vec![fq(1), fq(2), fq(2), fq(4)]).unwrap();
    assert_eq!(m.determinant(), Fq::zero());
    assert_eq!(m.inverse(), Err(MatrixError::SingularMatrixError));
}

#[test]
fn transpose_twice_is_identity() {
    let m = Matrix::new(2, 3, vec![fq(1), fq(2), fq(3), fq(4), fq(5), fq(6)]).unwrap();
    assert_eq!(m.transpose().transpose(), m);
}

#[test]
fn hadamard_product_commutes() {
    let a = Matrix::new(2, 2, vec![fq(1), fq(2), fq(3), fq(4)]).unwrap();
    let b = Matrix::new(2, 2, vec![fq(5), fq(6), fq(7), fq(8)]).unwrap();
    let ab = a.hadamard_product(&b).unwrap();
    assert_eq!(ab, b.hadamard_product(&a).unwrap());
    assert_eq!(ab.get_element(1, 0), fq(21));
    let c = Matrix::new(1, 2, vec![fq(1), fq(2)]).unwrap();
    assert_eq!(a.hadamard_product(&c), Err(MatrixError::DimensionError));
}

#[test]
fn mat_mul_shapes() {
    let a = Matrix::new(2, 3, vec![fq(1), fq(2), fq(3), fq(4), fq(5), fq(6)]).unwrap();
    let b = Matrix::new(3, 1, vec![fq(1), fq(0), fq(2)]).unwrap();
    let p = mat_mul(&a, &b).unwrap();
    assert_eq!((p.n_rows(), p.n_cols()), (2, 1));
    assert_eq!(p.get_element(0, 0), fq(7));
    assert_eq!(p.get_element(1, 0), fq(16));
    assert_eq!(mat_mul(&b, &a), Err(MatrixError::DimensionError));
}

#[test]
fn two_by_two_fixture() {
    let m = SquareMatrix::new(2, vec![fq(1), fq(2), fq(3), fq(4)]).unwrap();
    assert_eq!(m.determinant(), fq(2).neg());
    let cof = m.cofactors();
    let expected = SquareMatrix::new(2, vec![fq(4), fq(3).neg(), fq(2).neg(), fq(1)]).unwrap();
    assert_eq!(cof, expected);
    let scale = Fq::one().div(fq(2).neg());
    assert_eq!(m.inverse().unwrap(), cof.transpose().scalar_mul(scale));
}

#[test]
fn two_by_three_transpose_fixture() {
    let m = Matrix::new(2, 3, vec![fq(1), fq(2), fq(3), fq(4), fq(5), fq(6)]).unwrap();
    let expected = Matrix::new(3, 2, vec![fq(1), fq(4), fq(2), fq(5), fq(3), fq(6)]).unwrap();
    assert_eq!(m.transpose(), expected);
}

#[test]
fn construction_checks_element_count() {
    assert_eq!(Matrix::new(2, 2, vec![fq(1)]), Err(MatrixError::DimensionError));
    assert_eq!(SquareMatrix::from_vec(vec![fq(1), fq(2)]), Err(MatrixError::DimensionError));
    assert_eq!(SquareMatrix::new(2, vec![fq(1)]), Err(MatrixError::DimensionError));
    assert_eq!(SquareMatrix::from_vec(vec![]).unwrap().n_rows(), 0);
}

#[test]
fn empty_matrix_determinant_is_one() {
    assert_eq!(SquareMatrix::identity(0).determinant(), Fq::one());
}

#[test]
fn set_element_replaces_one_entry() {
    let mut m = Matrix::new(2, 2, vec![fq(1), fq(2), fq(3), fq(4)]).unwrap();
    m.set_element(1, 0, fq(9));
    assert_eq!(m.elements(), vec![fq(1), fq(2), fq(9), fq(4)]);
}

#[test]
fn dot_product_and_flatten() {
    assert_eq!(dot_product(vec![fq(1), fq(2), fq(3)], vec![fq(4), fq(5), fq(6)]), fq(32));
    assert_eq!(dot_product(vec![], vec![]), Fq::zero());
    assert_eq!(flatten(vec![vec![1u8, 2], vec![], vec![3]]), vec![1u8, 2, 3]);
}

#[test]
fn scalar_mul_scales_every_entry() {
    let m = SquareMatrix::new(2, vec![fq(1), fq(2), fq(3), fq(4)]).unwrap();
    let s = m.scalar_mul(fq(3));
    assert_eq!(s.elements(), vec![fq(3), fq(6), fq(9), fq(12)]);
}
