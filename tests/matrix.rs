use poseidon_paramgen::{mat_mul, ArcMatrix, Fq, Matrix, SquareMatrix};

fn fq(n: u64) -> Fq {
    Fq::from_u64(n)
}

fn square(elements: Vec<Fq>) -> SquareMatrix {
    SquareMatrix::from_vec(elements).unwrap()
}

#[test]
fn matrix_identity_matrix() {
    let identity = SquareMatrix::identity(2);
    assert_eq!(identity.get_element(0, 0), Fq::one());
    assert_eq!(identity.get_element(0, 1), Fq::zero());
    assert_eq!(identity.get_element(1, 1), Fq::one());
    assert_eq!(identity.get_element(1, 0), Fq::zero());
}

#[test]
fn matrix_square_matmul() {
    let identity = SquareMatrix::identity(2);
    let matrix_2x2 = square(vec![Fq::one(), fq(2), fq(3), fq(4)]);

    let res = matrix_2x2.mul(&identity);
    assert_eq!(res.get_element(0, 0), Fq::one());
    assert_eq!(res.get_element(0, 1), fq(2));
    assert_eq!(res.get_element(1, 0), fq(3));
    assert_eq!(res.get_element(1, 1), fq(4));
}

#[test]
fn nonsquare_matmul() {
    let test_elements = vec![Fq::one(), fq(2), fq(3), fq(4), fq(5), fq(6)];
    let matrix_2x3 = Matrix::new(3, 2, test_elements).unwrap();

    let res = mat_mul(&matrix_2x3, &matrix_2x3);
    assert!(res.is_err());

    let matrix_3x2 = matrix_2x3.transpose();
    let res = mat_mul(&matrix_2x3, &matrix_3x2).expect("is ok");
    assert_eq!(res.get_element(0, 0), fq(5));
    assert_eq!(res.get_element(0, 1), fq(11));
    assert_eq!(res.get_element(0, 2), fq(17));
    assert_eq!(res.get_element(1, 0), fq(11));
    assert_eq!(res.get_element(1, 1), fq(25));
    assert_eq!(res.get_element(1, 2), fq(39));
    assert_eq!(res.get_element(2, 0), fq(17));
    assert_eq!(res.get_element(2, 1), fq(39));
    assert_eq!(res.get_element(2, 2), fq(61));
}

#[test]
fn matrix_hadamard_product() {
    let test_elements = vec![Fq::one(), fq(2), fq(3), fq(4), fq(5), fq(6)];
    let matrix_2x3 = Matrix::new(3, 2, test_elements).unwrap();

    let res = matrix_2x3.hadamard_product(&matrix_2x3).expect("is ok");
    assert_eq!(res.get_element(0, 0), fq(1));
    assert_eq!(res.get_element(0, 1), fq(4));
    assert_eq!(res.get_element(1, 0), fq(9));
    assert_eq!(res.get_element(1, 1), fq(16));
    assert_eq!(res.get_element(2, 0), fq(25));
    assert_eq!(res.get_element(2, 1), fq(36));
}

#[test]
fn matrix_transpose() {
    let matrix_2x3 =
        Matrix::new(3, 2, vec![Fq::one(), fq(2), fq(3), fq(4), fq(5), fq(6)]).unwrap();
    assert_eq!(matrix_2x3.get_element(0, 1), fq(2));
    assert_eq!(matrix_2x3.get_element(1, 0), fq(3));
    assert_eq!(matrix_2x3.get_element(1, 1), fq(4));
    assert_eq!(matrix_2x3.get_element(2, 0), fq(5));
    assert_eq!(matrix_2x3.get_element(2, 1), fq(6));
    let res = matrix_2x3.transpose();
    assert_eq!(res.get_element(1, 0), fq(2));
    assert_eq!(res.get_element(0, 1), fq(3));
    assert_eq!(res.get_element(1, 1), fq(4));
    assert_eq!(res.get_element(0, 2), fq(5));
    assert_eq!(res.get_element(1, 2), fq(6));

    let matrix_2x2 = square(vec![Fq::one(), fq(2), fq(3), fq(4)]);

    let res = matrix_2x2.transpose();
    assert_eq!(res.get_element(0, 0), Fq::one());
    assert_eq!(res.get_element(0, 1), fq(3));
    assert_eq!(res.get_element(1, 0), fq(2));
    assert_eq!(res.get_element(1, 1), fq(4));
}

#[test]
fn matrix_cofactors() {
    let identity_1x1 = SquareMatrix::identity(1);
    let expected_res = square(vec![Fq::one()]);
    assert_eq!(identity_1x1.cofactors(), expected_res);

    let identity_2x2 = SquareMatrix::identity(2);
    let expected_res = square(vec![Fq::one(), Fq::zero(), Fq::zero(), Fq::one()]);
    assert_eq!(identity_2x2.cofactors(), expected_res);
}

#[test]
fn matrix_inverse() {
    let matrix_1x1 = square(vec![fq(2)]);
    let res = matrix_1x1.inverse().unwrap();
    assert_eq!(matrix_1x1.mul(&res), SquareMatrix::identity(1));

    let matrix_2x2 = square(vec![Fq::one(), fq(2), fq(3), fq(4)]);

    let res = matrix_2x2.inverse().unwrap();
    assert_eq!(matrix_2x2.mul(&res), SquareMatrix::identity(2));

    let identity_3x3 = SquareMatrix::identity(3);
    assert_eq!(identity_3x3, identity_3x3.inverse().unwrap());

    let matrix_3x3 = square(vec![
        fq(3),
        fq(0),
        fq(2),
        fq(2),
        fq(0),
        fq(2).neg(),
        fq(0),
        fq(1),
        fq(1),
    ]);
    let res = matrix_3x3.inverse().unwrap();
    assert_eq!(matrix_3x3.mul(&res), SquareMatrix::identity(3));
    let expected_res = square(vec![
        fq(2),
        fq(2),
        fq(0),
        fq(2).neg(),
        fq(3),
        fq(10),
        fq(2),
        fq(3).neg(),
        fq(0),
    ])
    .scalar_mul(Fq::one().div(fq(10)));
    assert_eq!(res, expected_res);
}

#[test]
fn create_matrix_from_vec() {
    let matrix_2x2 = square(vec![Fq::one(), fq(2), fq(3), fq(4)]);
    assert_eq!(matrix_2x2.get_element(0, 0), Fq::one());
    assert_eq!(matrix_2x2.get_element(0, 1), fq(2));
    assert_eq!(matrix_2x2.get_element(1, 0), fq(3));
    assert_eq!(matrix_2x2.get_element(1, 1), fq(4));

    let matrix_2x3 =
        Matrix::new(2, 3, vec![Fq::one(), fq(2), fq(3), fq(4), fq(5), fq(6)]).unwrap();
    assert_eq!(matrix_2x3.get_element(0, 0), Fq::one());
    assert_eq!(matrix_2x3.get_element(0, 1), fq(2));
    assert_eq!(matrix_2x3.get_element(0, 2), fq(3));
    assert_eq!(matrix_2x3.get_element(1, 0), fq(4));
    assert_eq!(matrix_2x3.get_element(1, 1), fq(5));
    assert_eq!(matrix_2x3.get_element(1, 2), fq(6));
}

#[test]
fn matrix_determinant() {
    let matrix_1x1 = square(vec![Fq::one()]);
    assert_eq!(matrix_1x1.determinant(), Fq::one());

    let a = Fq::one();
    let b = Fq::one().add(Fq::one());
    let c = fq(3);
    let d = fq(4);
    let matrix_2x2 = square(vec![a, b, c, d]);
    assert_eq!(matrix_2x2.determinant(), fq(2).neg());

    let e = fq(5);
    let f = fq(6);
    let g = fq(7);
    let h = fq(8);
    let i = fq(9);
    let matrix_3x3 = square(vec![a, b, c, d, e, f, g, h, i]);
    assert_eq!(matrix_3x3.determinant(), fq(0));

    let elem = fq(10);
    let matrix_4x4 = square(vec![
        a, b, c, d, e, f, g, h, i, elem, elem, elem, elem, elem, elem, elem,
    ]);
    assert_eq!(matrix_4x4.determinant(), fq(0));
}

#[test]
fn convert_from_arc_to_vec_of_vecs() {
    let arc_matrix = ArcMatrix::new(2, 3, vec![fq(1), fq(2), fq(0), fq(4), fq(5), fq(6)]).unwrap();
    let vec_of_vecs: Vec<Vec<Fq>> = arc_matrix.into_rows();
    assert_eq!(vec_of_vecs[0][0], fq(1));
    assert_eq!(vec_of_vecs[0][1], fq(2));
    assert_eq!(vec_of_vecs[0][2], fq(0));
    assert_eq!(vec_of_vecs[1][0], fq(4));
    assert_eq!(vec_of_vecs[1][1], fq(5));
    assert_eq!(vec_of_vecs[1][2], fq(6));
}
