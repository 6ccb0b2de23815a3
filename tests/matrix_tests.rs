use matrix::matrix::{lerp, perfect_square_root, Matrix};
use matrix::shape::{AlgebraError, Dimension, IncompatibleError, D1, D2};
use matrix::space::VectorSpace;
use matrix::vector::Vector;

fn v(x: Vec<i32>) -> Vector<i32> {
    Vector::from_vec(x)
}

fn rows(r: Vec<Vec<i32>>) -> Matrix<i32> {
    let rs: Vec<Vector<i32>> = r.into_iter().map(Vector::from_vec).collect();
    Matrix::from_rows(rs.as_slice()).unwrap()
}

fn flat(x: &[i32]) -> Matrix<i32> {
    Matrix::from_flat(x).unwrap()
}

fn cols(c: Vec<Vec<i32>>) -> Matrix<i32> {
    Matrix::from_columns(c.into_iter().map(Vector::from_vec).collect()).unwrap()
}

#[test]
fn matrix_macro_test() {
    let m1 = rows(vec![vec![1, 2, 3], vec![4, 5, 6]]);
    let m2 = flat(&[1, 2, 3, 4]);
    let m3 = Matrix::filled(-1, 2, 2);
    let m4 = Matrix::filled(0, 3, 2);

    assert_eq!(m1, cols(vec![vec![1, 4], vec![2, 5], vec![3, 6]]));
    assert_eq!(m2, cols(vec![vec![1, 3], vec![2, 4]]));
    assert_eq!(m3, cols(vec![vec![-1, -1], vec![-1, -1]]));
    assert_eq!(m4, cols(vec![vec![0, 0, 0], vec![0, 0, 0]]));
}

#[test]
fn perfect_square_root_test() {
    let x: usize = 50;
    let y: usize = 49;

    assert_eq!(perfect_square_root(x), None);
    assert_eq!(perfect_square_root(y), Some(7 as usize));
}

#[test]
fn transpose_test() {
    let mut m1 = flat(&[1, 2, 3, 4]);
    let mut m2 = flat(&[1, 2, 3, 4, 5, 6, 7, 8, 9]);

    m1.transpose_mut();
    m2.transpose_mut();

    assert_eq!(m1, flat(&[1, 3, 2, 4]));
    assert_eq!(m2, flat(&[1, 4, 7, 2, 5, 8, 3, 6, 9]));
}

#[test]
fn shape_test() {
    let m1 = flat(&[1, 2, 3, 4]);
    let m2 = flat(&[1, 2, 3, 4, 5, 6, 7, 8, 9]);
    let m3: Matrix<i32> = Matrix::from_rows([v(vec![1, 2, 3]), v(vec![3, 4, 5])].as_slice()).unwrap();

    assert_eq!(m1.shape(), Dimension::D2(D2 { rows: 2, cols: 2 }));
    assert_eq!(m2.shape(), Dimension::D2(D2 { rows: 3, cols: 3 }));
    assert_eq!(m3.shape(), Dimension::D2(D2 { rows: 2, cols: 3 }));
}

#[test]
fn size_test() {
    let m1 = flat(&[1, 2, 3, 4]);
    let m2 = flat(&[1, 2, 3, 4, 5, 6, 7, 8, 9]);

    assert_eq!(m1.size(), 4);
    assert_eq!(m2.size(), 9);
}

#[test]
fn col_sum_test() {
    let m = rows(vec![vec![1, 2, 3], vec![4, 5, 6]]);

    assert_eq!(m.col_sum(), v(vec![5, 7, 9]));
}

#[test]
fn swap_cols_test() {
    let mut m = rows(vec![vec![1, 2, 3], vec![4, 5, 6], vec![7, 8, 9]]);
    m.swap_cols(0, 2);
    assert_eq!(m, rows(vec![vec![3, 2, 1], vec![6, 5, 4], vec![9, 8, 7]]));
}

#[test]
fn set_row_test() {
    let mut m = rows(vec![vec![1, 2, 3], vec![4, 5, 6], vec![7, 8, 9]]);
    m.set_row(1, &v(vec![40, 50, 60]));
    assert_eq!(m, rows(vec![vec![1, 2, 3], vec![40, 50, 60], vec![7, 8, 9]]));
}

#[test]
fn swap_rows_test() {
    let mut m = rows(vec![vec![1, 2, 3], vec![4, 5, 6], vec![7, 8, 9]]);
    m.swap_rows(0, 2);
    assert_eq!(m, rows(vec![vec![7, 8, 9], vec![4, 5, 6], vec![1, 2, 3]]));
}

#[test]
fn matrix_add_test() {
    let mut m1 = flat(&[1, 2, 3, 4]);
    let mut m2 = rows(vec![vec![3], vec![4], vec![7]]);
    let m3 = flat(&[2, 2, 2, 2]);
    let m4 = rows(vec![vec![-1], vec![3], vec![0]]);

    m1.add(&m3).unwrap();
    m2.add(&m4).unwrap();

    assert_eq!(m1, flat(&[1 + 2, 2 + 2, 3 + 2, 4 + 2]));
    assert_eq!(m2, rows(vec![vec![3 + -1], vec![4 + 3], vec![7 + 0]]));
}

#[test]
fn matrix_sub_test() {
    let mut m1 = flat(&[1, 2, 3, 4]);
    let mut m2 = rows(vec![vec![3], vec![4], vec![7]]);
    let m3 = flat(&[2, 2, 2, 2]);
    let m4 = rows(vec![vec![-1], vec![3], vec![0]]);

    m1.sub(&m3).unwrap();
    m2.sub(&m4).unwrap();

    assert_eq!(m1, flat(&[1 - 2, 2 - 2, 3 - 2, 4 - 2]));
    assert_eq!(m2, rows(vec![vec![3 - -1], vec![4 - 3], vec![7 - 0]]));
}

#[test]
fn scl_test() {
    let mut m1 = flat(&[1, 2, 3, 4]);
    let mut m2 = rows(vec![vec![3], vec![4], vec![7]]);
    let a1 = 2;

    m1.scl(a1);
    m2.scl(a1);

    assert_eq!(m1, flat(&[1 * a1, 2 * a1, 3 * a1, 4 * a1]));
    assert_eq!(m2, rows(vec![vec![3 * a1], vec![4 * a1], vec![7 * a1]]));
}

#[test]
fn mul_vec_test() {
    let u = rows(vec![vec![2, -2], vec![-2, 2]]);

    assert_eq!(u.mul_vec(&v(vec![4, 2])).unwrap(), v(vec![4, -4]));
}

#[test]
fn mul_mat_test() {
    let u = rows(vec![vec![3, -5], vec![6, 8]]);
    let w = rows(vec![vec![2, 1], vec![4, 2]]);

    assert_eq!(u.mul_mat(&w).unwrap(), rows(vec![vec![-14, -7], vec![44, 22]]));

    let u = rows(vec![vec![1, 2, 3], vec![4, 5, 6]]);
    let w = rows(vec![vec![7, 8, 9, 10], vec![11, 12, 13, 14], vec![15, 16, 17, 18]]);

    assert_eq!(
        u.mul_mat(&w).unwrap(),
        rows(vec![vec![74, 80, 86, 92], vec![173, 188, 203, 218]])
    );
}

#[test]
fn trace_test() {
    let m = rows(vec![vec![2, -5, 0], vec![4, 3, 7], vec![-2, 3, 4]]);

    assert_eq!(m.trace().unwrap(), 9);
}

#[test]
fn discard_test() {
    let m = rows(vec![vec![1, 2, 3], vec![4, 5, 6], vec![7, 8, 9]]);

    assert_eq!(m.discard(0, 0), rows(vec![vec![5, 6], vec![8, 9]]));
    assert_eq!(m.discard(0, 1), rows(vec![vec![4, 6], vec![7, 9]]));
    assert_eq!(m.discard(1, 2), rows(vec![vec![1, 2], vec![7, 8]]));
}

#[test]
fn determinant_sq_lt2_test() {
    let m1 = rows(vec![vec![2, 7], vec![5, 9]]);
    let m2 = flat(&[-3]);

    assert_eq!(m1.determinant_sq_lt2(), -17);
    assert_eq!(m2.determinant_sq_lt2(), -3);
}

#[test]
fn determinant_test() {
    let m2 = rows(vec![vec![2, 7], vec![5, 9]]);
    let m1 = flat(&[-3]);
    let m3 = rows(vec![vec![1, 22, 3], vec![30, 51, 16], vec![7, -8, 5]]);
    let m4 = rows(vec![
        vec![1, 40, 3, 2],
        vec![5, 8, 7, 9],
        vec![19, -7, 60, 4],
        vec![-13, 12, 17, 24],
    ]);
    assert_eq!(m1.determinant().unwrap(), -3);
    assert_eq!(m2.determinant().unwrap(), -17);
    assert_eq!(m3.determinant().unwrap(), -2244);
    assert_eq!(m4.determinant().unwrap(), -511916);
}

#[test]
fn transpose_twice_gives_back_the_matrix() {
    let m = flat(&[4, -1, 7, 0, 2, 9, -3, 5, 1]);
    assert_eq!(m.transpose().transpose(), m);
    let r = rows(vec![vec![1, 2, 3], vec![4, 5, 6]]);
    assert_eq!(r.transpose(), rows(vec![vec![1, 4], vec![2, 5], vec![3, 6]]));
    assert_eq!(r.transpose().transpose(), r);
}

#[test]
fn product_shape_is_outer_dimensions() {
    let a = rows(vec![vec![1, 0, 2], vec![0, 1, 1]]);
    let b = rows(vec![vec![1, 2, 3, 4], vec![0, 1, 0, 1], vec![2, 2, 2, 2]]);
    let p = a.mul_mat(&b).unwrap();
    assert_eq!(p.shape(), Dimension::D2(D2 { rows: 2, cols: 4 }));
    assert_eq!(p, rows(vec![vec![5, 6, 7, 8], vec![2, 3, 2, 3]]));
}

#[test]
fn product_errors() {
    let a = rows(vec![vec![1, 2], vec![3, 4]]);
    let b = rows(vec![vec![1, 2, 3]]);
    assert_eq!(
        a.mul_mat(&b),
        Err(AlgebraError::ShapeMismatch(IncompatibleError::new(
            Dimension::D2(D2 { rows: 2, cols: 2 }),
            Dimension::D2(D2 { rows: 1, cols: 3 })
        )))
    );
    let empty: Matrix<i32> = Matrix::from_columns(vec![]).unwrap();
    assert_eq!(a.mul_mat(&empty), Err(AlgebraError::EmptyOperand));
    assert_eq!(
        a.mul_vec(&v(vec![1, 2, 3])),
        Err(AlgebraError::ShapeMismatch(IncompatibleError::new(
            Dimension::D1(D1 { length: 2 }),
            Dimension::D1(D1 { length: 3 })
        )))
    );
}

#[test]
fn determinant_two_by_two_formula() {
    let m = rows(vec![vec![2, 7], vec![5, 9]]);
    assert_eq!(m.determinant().unwrap(), 2 * 9 - 7 * 5);
    let n = rows(vec![vec![-4, 3], vec![6, 1]]);
    assert_eq!(n.determinant().unwrap(), -4 * 1 - 3 * 6);
}

#[test]
fn determinant_and_trace_errors() {
    let r = rows(vec![vec![1, 2, 3], vec![4, 5, 6]]);
    assert_eq!(r.determinant(), Err(AlgebraError::NotSquare(D2 { rows: 2, cols: 3 })));
    assert_eq!(r.trace(), Err(AlgebraError::NotSquare(D2 { rows: 2, cols: 3 })));
    let empty: Matrix<i32> = Matrix::from_columns(vec![]).unwrap();
    assert_eq!(empty.determinant(), Err(AlgebraError::EmptyOperand));
    assert_eq!(empty.trace(), Err(AlgebraError::EmptyOperand));
}

#[test]
fn construction_errors() {
    let fifty: Vec<i32> = (0..50).collect();
    assert_eq!(Matrix::from_flat(fifty.as_slice()), Err(AlgebraError::ConstructionError));
    let fortynine: Vec<i32> = (0..49).collect();
    assert_eq!(Matrix::from_flat(fortynine.as_slice()).unwrap().shape(), Dimension::D2(D2 { rows: 7, cols: 7 }));
    assert_eq!(
        Matrix::from_rows([v(vec![1, 2]), v(vec![1, 2, 3])].as_slice()),
        Err(AlgebraError::ConstructionError)
    );
    assert_eq!(
        Matrix::from_columns(vec![v(vec![1]), v(vec![1, 2])]),
        Err(AlgebraError::ConstructionError)
    );
}

#[test]
fn row_echelon_of_invertible_matrix_is_identity() {
    let m = rows(vec![vec![1, 22, 3], vec![30, 51, 16], vec![7, -8, 5]]);
    let r = m.row_echelon();
    assert_eq!(r, rows(vec![vec![1, 0, 0], vec![0, 1, 0], vec![0, 0, 1]]));
    assert_eq!(m, rows(vec![vec![1, 22, 3], vec![30, 51, 16], vec![7, -8, 5]]));
}

#[test]
fn row_echelon_pivot_columns() {
    let m = rows(vec![vec![8, 5, -2, 4, 28], vec![4, 2, 20, 4, -4], vec![8, 5, 1, 4, 17]]);
    let r = m.row_echelon();
    assert_eq!(
        r,
        rows(vec![vec![1, 0, 0, 0, 3], vec![0, 1, 0, 2, -8], vec![0, 0, 1, 0, 0]])
    );
    let z = rows(vec![vec![0, 1], vec![0, 2]]);
    assert_eq!(z.row_echelon(), rows(vec![vec![0, 1], vec![0, 0]]));
    let s = rows(vec![vec![0, 2], vec![3, 0]]);
    assert_eq!(s.row_echelon(), rows(vec![vec![1, 0], vec![0, 1]]));
}

#[test]
fn matrix_norms_and_sums() {
    let m = rows(vec![vec![1, -2], vec![3, -4]]);
    assert_eq!(m.sum(), -2);
    assert_eq!(m.sqsum(), 30);
    assert_eq!(m.norm(), 5);
    assert_eq!(m.norm_1(), 10);
    assert_eq!(m.norm_inf(), 4);
}

#[test]
fn matrix_shape_mismatch() {
    let mut a = flat(&[1, 2, 3, 4]);
    let b = rows(vec![vec![1, 2]]);
    assert_eq!(
        a.add(&b),
        Err(IncompatibleError::new(
            Dimension::D2(D2 { rows: 2, cols: 2 }),
            Dimension::D2(D2 { rows: 1, cols: 2 })
        ))
    );
    assert!(a.sub(&b).is_err());
    assert_eq!(a, flat(&[1, 2, 3, 4]));
    assert!(a.eq_shape_compatible(&b).is_err());
}

#[test]
fn matrix_integer_lerp() {
    let m1 = rows(vec![vec![2, 1], vec![3, 4]]);
    let m2 = rows(vec![vec![20, 10], vec![30, 40]]);
    assert_eq!(lerp(&m1, &m2, 2).unwrap(), rows(vec![vec![38, 19], vec![57, 76]]));
    assert!(lerp(&m1, &rows(vec![vec![1, 2]]), 1).is_err());
}

#[test]
fn append_col_and_access() {
    let mut m = rows(vec![vec![1, 2], vec![3, 4]]);
    m.append_col(v(vec![5, 6])).unwrap();
    assert_eq!(m, rows(vec![vec![1, 2, 5], vec![3, 4, 6]]));
    assert_eq!(
        m.append_col(v(vec![1])),
        Err(AlgebraError::ShapeMismatch(IncompatibleError::new(
            Dimension::D1(D1 { length: 2 }),
            Dimension::D1(D1 { length: 1 })
        )))
    );
    assert_eq!(m.get(1, 2), 6);
    assert_eq!(m.n_rows(), 2);
    assert_eq!(m.n_cols(), 3);
    assert!(!m.is_square());
    assert_eq!(m.clone_row(1), v(vec![3, 4, 6]));
    assert_eq!(m.column(2), &v(vec![5, 6]));
    let mut e: Matrix<i32> = Matrix::from_columns(vec![]).unwrap();
    e.append_col(v(vec![7, 8, 9])).unwrap();
    assert_eq!(e.shape(), Dimension::D2(D2 { rows: 3, cols: 1 }));
}

#[test]
fn matrix_elementwise_products() {
    let mut a = rows(vec![vec![1, 2], vec![3, 4]]);
    a.mul_elementwise(&rows(vec![vec![5, 6], vec![7, 8]])).unwrap();
    assert_eq!(a, rows(vec![vec![5, 12], vec![21, 32]]));
    a.div_elementwise(&rows(vec![vec![2, 5], vec![-4, 3]])).unwrap();
    assert_eq!(a, rows(vec![vec![2, 2], vec![-5, 10]]));
    assert!(a.mul_elementwise(&rows(vec![vec![1, 2]])).is_err());
    a.mul_columns_by(&v(vec![10, -1])).unwrap();
    assert_eq!(a, rows(vec![vec![20, 20], vec![5, -10]]));
    assert_eq!(
        a.mul_columns_by(&v(vec![1, 2, 3])),
        Err(IncompatibleError::new(
            Dimension::D1(D1 { length: 2 }),
            Dimension::D1(D1 { length: 3 })
        ))
    );
    assert_eq!(a.columns().len(), 2);
    assert_eq!(a.columns()[1], v(vec![20, -10]));
}

#[test]
fn i64_matrix_norm() {
    let m: Matrix<i64> = Matrix::from_flat(&[-3i64, 0, 0, 4]).unwrap();
    assert_eq!(m.norm(), 5);
    assert_eq!(m.norm_1(), 7);
    assert_eq!(m.determinant().unwrap(), -12);
    assert_eq!(m.duplicate(), m);
}
