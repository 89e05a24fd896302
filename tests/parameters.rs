use poseidon_paramgen::{mat_mul, square_mat_mul, Fq, Matrix, SquareMatrix};

fn fq(n: u64) -> Fq {
    Fq::from_u64(n)
}

#[test]
fn parameters_identity_matrix() {
    let identity = SquareMatrix::identity(2);
    assert_eq!(identity.get_element(0, 0), fq(1));
    assert_eq!(identity.get_element(0, 1), fq(0));
    assert_eq!(identity.get_element(1, 1), fq(1));
    assert_eq!(identity.get_element(1, 0), fq(0));
}

#[test]
fn parameters_square_matmul() {
    let identity = SquareMatrix::identity(2);

    let elements = vec![fq(1), fq(2), fq(3), fq(4)];
    let matrix_2x2 = SquareMatrix::new(2, elements).unwrap();

    let res: SquareMatrix = square_mat_mul(&matrix_2x2, &identity);
    assert_eq!(res.get_element(0, 0), fq(1));
    assert_eq!(res.get_element(0, 1), fq(2));
    assert_eq!(res.get_element(1, 0), fq(3));
    assert_eq!(res.get_element(1, 1), fq(4));
}

#[test]
fn nonsquare_matmul_happy() {
    let test_elements = vec![fq(1), fq(2), fq(3), fq(4), fq(5), fq(6)];
    let matrix_2x3 = Matrix::new(3, 2, test_elements).unwrap();

    let matrix_3x2 = matrix_2x3.transpose();
    let res: Matrix = mat_mul(&matrix_2x3, &matrix_3x2).unwrap();
    assert_eq!(res.get_element(0, 0), fq(5));
    assert_eq!(res.get_element(0, 1), fq(11));
    assert_eq!(res.get_element(0, 2), fq(17));
    assert_eq!(res.get_element(1, 0), fq(11));
    assert_eq!(res.get_element(1, 1), fq(25));
    assert_eq!(res.get_element(1, 2), fq(39));
    assert_eq!(res.get_element(2, 0), fq(17));
    assert_eq!(res.get_element(2, 1), fq(39));
    assert_eq!(res.get_element(2, 2), fq(61));
}

#[test]
fn parameters_hadamard_product() {
    let test_elements = vec![fq(1), fq(2), fq(3), fq(4), fq(5), fq(6)];
    let matrix_3x2 = Matrix::new(3, 2, test_elements).unwrap();

    let res = matrix_3x2.hadamard_product(&matrix_3x2).expect("is ok");
    assert_eq!(res.get_element(0, 0), fq(1));
    assert_eq!(res.get_element(0, 1), fq(4));
    assert_eq!(res.get_element(1, 0), fq(9));
    assert_eq!(res.get_element(1, 1), fq(16));
    assert_eq!(res.get_element(2, 0), fq(25));
    assert_eq!(res.get_element(2, 1), fq(36));
}

#[test]
fn parameters_transpose() {
    let test_elements = vec![fq(1), fq(2), fq(3), fq(4), fq(5), fq(6)];
    let matrix_2x3 = Matrix::new(3, 2, test_elements).unwrap();
    assert_eq!(matrix_2x3.get_element(0, 1), fq(2));
    assert_eq!(matrix_2x3.get_element(1, 0), fq(3));
    assert_eq!(matrix_2x3.get_element(1, 1), fq(4));
    assert_eq!(matrix_2x3.get_element(2, 0), fq(5));
    assert_eq!(matrix_2x3.get_element(2, 1), fq(6));
    let res = matrix_2x3.transpose();
    assert_eq!(res.get_element(1, 0), fq(2));
    assert_eq!(res.get_element(0, 1), fq(3));
    assert_eq!(res.get_element(1, 1), fq(4));
    assert_eq!(res.get_element(0, 2), fq(5));
    assert_eq!(res.get_element(1, 2), fq(6));

    let test_elements = vec![fq(1), fq(2), fq(3), fq(4)];
    let matrix_2x2 = SquareMatrix::new(2, test_elements).unwrap();

    let res = matrix_2x2.transpose();
    assert_eq!(res.get_element(0, 0), fq(1));
    assert_eq!(res.get_element(0, 1), fq(3));
    assert_eq!(res.get_element(1, 0), fq(2));
    assert_eq!(res.get_element(1, 1), fq(4));
}

#[test]
fn parameters_cofactors() {
    let identity_1x1 = SquareMatrix::identity(1);
    let expected_res = SquareMatrix::new(1, vec![fq(1)]).unwrap();
    assert_eq!(identity_1x1.cofactors(), expected_res);

    let identity_2x2 = SquareMatrix::identity(2);
    let test_elements = vec![fq(1), fq(0), fq(0), fq(1)];
    let expected_res = SquareMatrix::new(2, test_elements).unwrap();
    assert_eq!(identity_2x2.cofactors(), expected_res);
}

#[test]
fn parameters_inverse() {
    let matrix_1x1 = SquareMatrix::new(1, vec![fq(2)]).unwrap();
    let res = matrix_1x1.inverse().unwrap();
    assert_eq!(square_mat_mul(&matrix_1x1, &res), SquareMatrix::identity(1));

    let matrix_2x2 = SquareMatrix::new(2, vec![fq(1), fq(2), fq(3), fq(4)]).unwrap();

    let res = matrix_2x2.inverse().unwrap();
    assert_eq!(square_mat_mul(&matrix_2x2, &res), SquareMatrix::identity(2));

    let identity_3x3 = SquareMatrix::identity(3);
    assert_eq!(identity_3x3, identity_3x3.inverse().unwrap());

    let matrix_3x3 = SquareMatrix::new(
        3,
        vec![fq(3), fq(0), fq(2), fq(2), fq(0), fq(2).neg(), fq(0), fq(1), fq(1)],
    )
    .unwrap();
    let res = matrix_3x3.inverse().unwrap();
    assert_eq!(square_mat_mul(&matrix_3x3, &res), SquareMatrix::identity(3));

    let expected_res = SquareMatrix::new(
        3,
        vec![fq(2), fq(2), fq(0), fq(2).neg(), fq(3), fq(10), fq(2), fq(3).neg(), fq(0)],
    )
    .unwrap()
    .scalar_mul(fq(1).div(fq(10)));
    assert_eq!(res, expected_res);
}

#[test]
fn create_matrix_from_array() {
    let matrix_2x2 = SquareMatrix::new(2, vec![fq(1), fq(2), fq(3), fq(4)]).unwrap();
    assert_eq!(matrix_2x2.get_element(0, 0), fq(1));
    assert_eq!(matrix_2x2.get_element(0, 1), fq(2));
    assert_eq!(matrix_2x2.get_element(1, 0), fq(3));
    assert_eq!(matrix_2x2.get_element(1, 1), fq(4));

    let matrix_2x3 = Matrix::new(2, 3, vec![fq(1), fq(2), fq(3), fq(4), fq(5), fq(6)]).unwrap();
    assert_eq!(matrix_2x3.get_element(0, 0), fq(1));
    assert_eq!(matrix_2x3.get_element(0, 1), fq(2));
    assert_eq!(matrix_2x3.get_element(0, 2), fq(3));
    assert_eq!(matrix_2x3.get_element(1, 0), fq(4));
    assert_eq!(matrix_2x3.get_element(1, 1), fq(5));
    assert_eq!(matrix_2x3.get_element(1, 2), fq(6));
}

#[test]
fn parameters_determinant() {
    let matrix_1x1 = SquareMatrix::new(1, vec![fq(1)]).unwrap();
    assert_eq!(matrix_1x1.determinant(), fq(1));

    let a = fq(1);
    let b = fq(1).add(fq(1));
    let c = fq(3);
    let d = fq(4);
    let matrix_2x2 = SquareMatrix::new(2, vec![a, b, c, d]).unwrap();
    assert_eq!(matrix_2x2.determinant(), fq(2).neg());

    let e = fq(5);
    let f = fq(6);
    let g = fq(7);
    let h = fq(8);
    let i = fq(9);
    let matrix_3x3 = SquareMatrix::new(3, vec![a, b, c, d, e, f, g, h, i]).unwrap();
    assert_eq!(matrix_3x3.determinant(), fq(0));

    let elem = fq(10);
    let matrix_4x4 = SquareMatrix::new(
        4,
        vec![a, b, c, d, e, f, g, h, i, elem, elem, elem, elem, elem, elem, elem],
    )
    .unwrap();
    assert_eq!(matrix_4x4.determinant(), fq(0));

    let matrix_5x5 = SquareMatrix::new(
        5,
        vec![
            a, b, c, d, e, f, g, h, i, elem, elem, elem, elem, elem, elem, elem, elem, elem, elem,
            elem, elem, elem, elem, elem, elem,
        ],
    )
    .unwrap();
    assert_eq!(matrix_5x5.determinant(), fq(0));

    let mut elements = vec![a, b, c, d, e, f, g, h, i];
    elements.extend_from_slice(&[elem; 27]);
    let matrix_6x6 = SquareMatrix::new(6, elements).unwrap();
    assert_eq!(matrix_6x6.determinant(), fq(0));

    let mut elements = vec![a, b, c, d, e, f, g, h, i];
    elements.extend_from_slice(&[elem; 40]);
    let matrix_7x7 = SquareMatrix::new(7, elements).unwrap();
    assert_eq!(matrix_7x7.determinant(), fq(0));

    let mut elements = vec![a, b, c, d, e, f, g, h, i];
    elements.extend_from_slice(&[elem; 55]);
    let matrix_8x8 = SquareMatrix::new(8, elements).unwrap();
    assert_eq!(matrix_8x8.determinant(), fq(0));
}
