use matrix::shape::{AlgebraError, Dimension, IncompatibleError, D1};
use matrix::space::VectorSpace;
use matrix::vector::{angle_cos, cross_product, lerp, linear_combination, Vector};

fn v(x: Vec<i32>) -> Vector<i32> {
    Vector::from(x)
}

#[test]
fn vector_macro_test() {
    let v1 = v(vec![1, 5, -2, 3]);
    let v2 = Vector::filled(924, 5);

    assert_eq!(v1, Vector::from_slice(&[1, 5, -2, 3]));
    assert_eq!(v2, v(vec![924, 924, 924, 924, 924]));
}

#[test]
fn vector_add_test() {
    let mut t1 = v(vec![1, 2, 3]);
    let mut t2 = Vector::from_slice([0, -2, 1000, 45].as_slice());
    let o1 = v(vec![-5, 3, 0]);
    let o2 = v(vec![1, 1, 1, 1]);

    t1.add(&o1).unwrap();
    t2.add(&o2).unwrap();

    assert_eq!(t1, v(vec![-4, 5, 3]));
    assert_eq!(t2, v(vec![1, -1, 1001, 46]));

    t1.add(&o1).unwrap();
    t2.add(&o2).unwrap();

    assert_eq!(t1, v(vec![-9, 8, 3]));
    assert_eq!(t2, v(vec![2, 0, 1002, 47]));
}

#[test]
fn vector_sub_test() {
    let mut t1 = v(vec![-9, 9, 3]);
    let o1 = v(vec![-5, 3, 0]);

    t1.sub(&o1).unwrap();
    assert_eq!(t1, v(vec![-4, 6, 3]));

    t1.sub(&o1).unwrap();
    assert_eq!(t1, v(vec![1, 3, 3]));
}

#[test]
fn vector_multiplication_test() {
    let mut t1 = v(vec![1, 2, 3]);
    let o1 = v(vec![-5, 3, 21]);

    t1.mul_elementwise(&o1).unwrap();
    assert_eq!(t1, v(vec![-5, 6, 63]));
}

#[test]
fn scalar_multiplication_test() {
    let mut t1 = v(vec![1, 2, 3]);
    let s1 = 25;

    t1.scl(s1);
    assert_eq!(t1, v(vec![25, 50, 75]));

    t1.scl(s1);
    assert_eq!(t1, v(vec![625, 1250, 1875]));
}

#[test]
fn check_compatibility_test() {
    let t1 = v(vec![1, 2, 3]);
    let t2 = v(vec![0, -2, 1000, 45]);
    let t3 = v(vec![100, -32932, 42124, 0]);

    assert!(t1.eq_size_compatible(&t2).is_err());
    assert!(matches!(t3.eq_shape_compatible(&t2), Ok(_)));
}

#[test]
fn linear_combination_test() {
    let v1 = v(vec![1, 2, 3]);
    let v2 = v(vec![0, 10, -100]);

    assert_eq!(
        v(vec![10, 0, 230]),
        linear_combination([v1, v2].as_slice(), [10, -2].as_slice())
    )
}

#[test]
fn dot_test() {
    assert_eq!(v(vec![-1, 6]).dot(&v(vec![3, 2])), 9);
}

#[test]
fn norm_1_test() {
    let v1 = v(vec![1, 2, 3]);
    let v2 = v(vec![-1, -2]);

    assert_eq!(v1.norm_1(), 6);
    assert_eq!(v2.norm_1(), 3);
}

#[test]
fn norm_inf_test() {
    let v1 = v(vec![1, 2, 3]);
    let v2 = v(vec![-1, -2]);

    assert_eq!(v1.norm_inf(), 3);
    assert_eq!(v2.norm_inf(), 2);
}

#[test]
fn cross_product_test() {
    let v1 = v(vec![1, 2, 3]);
    let v2 = v(vec![4, 5, 6]);
    let v3 = v(vec![4, 2, -3]);
    let v4 = v(vec![-2, -5, 16]);

    assert_eq!(cross_product(&v1, &v2).unwrap(), v(vec![-3, 6, -3]));
    assert_eq!(cross_product(&v3, &v4).unwrap(), v(vec![17, -58, -16]));
}

#[test]
fn neg_test() {
    let v1 = v(vec![1, 2, 3]);

    assert_eq!(v1.neg(), v(vec![-1, -2, -3]));
}

#[test]
fn add_then_sub_gives_back_the_vector() {
    let u = v(vec![7, -3, 0, 12]);
    let w = v(vec![-4, 9, 5, 1]);
    let mut x = u.clone();
    x.add(&w).unwrap();
    assert_eq!(x, v(vec![3, 6, 5, 13]));
    x.sub(&w).unwrap();
    assert_eq!(x, u);
}

#[test]
fn add_mismatch_is_reported_and_changes_nothing() {
    let mut t1 = v(vec![1, 2, 3]);
    let t2 = v(vec![1, 2]);
    let e = t1.add(&t2).unwrap_err();
    assert_eq!(
        e,
        IncompatibleError::new(Dimension::D1(D1 { length: 3 }), Dimension::D1(D1 { length: 2 }))
    );
    assert_eq!(t1, v(vec![1, 2, 3]));
    assert!(t1.sub(&t2).is_err());
    assert!(t1.mul_elementwise(&t2).is_err());
}

#[test]
fn size_compatibility_reports_both_sizes() {
    let t1 = v(vec![1, 2, 3]);
    let t2 = v(vec![0, -2, 1000, 45]);
    assert_eq!(
        t1.eq_size_compatible(&t2),
        Err(IncompatibleError::new(
            Dimension::D1(D1 { length: 3 }),
            Dimension::D1(D1 { length: 4 })
        ))
    );
    assert_eq!(t2.eq_size_compatible(&t2), Ok(4));
    assert_eq!(t1.shape(), Dimension::D1(D1 { length: 3 }));
    assert_eq!(t1.size(), 3);
}

#[test]
fn sums_and_norms() {
    let x = v(vec![3, -4, 12]);
    assert_eq!(x.sum(), 11);
    assert_eq!(x.sqsum(), 169);
    assert_eq!(x.norm(), 13);
    assert_eq!(v(vec![1, 2, 3]).norm(), 3);
    assert_eq!(x.norm_inf(), 12);
    assert_eq!(x.norm_1(), 19);
}

#[test]
fn empty_vector_policy_is_zero() {
    let e: Vector<i64> = Vector::from_vec(vec![]);
    assert_eq!(e.sum(), 0);
    assert_eq!(e.sqsum(), 0);
    assert_eq!(e.norm(), 0);
    assert_eq!(e.norm_1(), 0);
    assert_eq!(e.norm_inf(), 0);
    assert_eq!(e.dot(&e), 0);
}

#[test]
fn integer_lerp() {
    let r = lerp(&v(vec![2, 10]), &v(vec![6, 0]), 2).unwrap();
    assert_eq!(r, v(vec![10, -10]));
    assert_eq!(
        lerp(&v(vec![1]), &v(vec![1, 2]), 1),
        Err(IncompatibleError::new(
            Dimension::D1(D1 { length: 2 }),
            Dimension::D1(D1 { length: 1 })
        ))
    );
}

#[test]
fn integer_angle_cos() {
    // dot = 32, |u| = 3 (floor of sqrt 14), |v| = 8 (floor of sqrt 77): 32 / 3 / 8 = 1
    let u = v(vec![1, 2, 3]);
    let w = v(vec![4, 5, 6]);
    assert_eq!(angle_cos(&u, &w), Ok(1));
    let z = v(vec![0, 0, 0]);
    assert_eq!(angle_cos(&u, &z), Err(AlgebraError::DomainError));
    assert!(matches!(
        angle_cos(&u, &v(vec![1, 2])),
        Err(AlgebraError::ShapeMismatch(_))
    ));
}

#[test]
fn cross_product_wrong_length() {
    let a = v(vec![1, 2]);
    let b = v(vec![1, 2, 3]);
    assert_eq!(cross_product(&a, &b), Err(AlgebraError::DimensionError(2)));
    assert_eq!(cross_product(&b, &v(vec![1, 2, 3, 4])), Err(AlgebraError::DimensionError(4)));
}

#[test]
fn element_access_and_append() {
    let mut x = v(vec![5, 6]);
    x.append(7);
    assert_eq!(x.len(), 3);
    assert_eq!(x.get(2), 7);
    x.set(0, -1);
    assert_eq!(x.iter().copied().collect::<Vec<i32>>(), vec![-1, 6, 7]);
    assert_eq!(x.as_slice(), &[-1, 6, 7]);
    x.div_scalar(2);
    assert_eq!(x, v(vec![0, 3, 3]));
}

#[test]
fn i64_fields_work_too() {
    let a: Vector<i64> = Vector::from_vec(vec![3_000_000_000, -1]);
    let b: Vector<i64> = Vector::from_vec(vec![2, 5]);
    assert_eq!(a.dot(&b), 5_999_999_995);
}

#[test]
fn i64_norms_go_through_abs_and_sqrt() {
    let a: Vector<i64> = Vector::from_vec(vec![-6_000_000_000, 8_000_000_000]);
    assert_eq!(a.norm_1(), 14_000_000_000);
    assert_eq!(a.norm_inf(), 8_000_000_000);
    let b: Vector<i64> = Vector::from_vec(vec![-30, 40]);
    assert_eq!(b.norm(), 50);
    assert_eq!(b.neg(), Vector::from_vec(vec![30i64, -40]));
}

#[test]
fn elementwise_division() {
    let mut a = v(vec![7, -7, 9]);
    a.div_elementwise(&v(vec![2, 2, -3])).unwrap();
    assert_eq!(a, v(vec![3, -3, -3]));
    assert!(a.div_elementwise(&v(vec![1])).is_err());
}

#[test]
fn every_integer_width_has_abs_and_sqrt() {
    let a: Vector<i8> = Vector::from_vec(vec![-3, 4]);
    assert_eq!((a.norm_1(), a.norm(), a.norm_inf()), (7, 5, 4));
    let b: Vector<i16> = Vector::from_vec(vec![-30, 40]);
    assert_eq!((b.norm_1(), b.norm(), b.norm_inf()), (70, 50, 40));
    let c: Vector<i32> = Vector::from_vec(vec![-300, 400]);
    assert_eq!((c.norm_1(), c.norm(), c.norm_inf()), (700, 500, 400));
    let d: Vector<i128> = Vector::from_vec(vec![-3_000_000_000_000, 4_000_000_000_000]);
    assert_eq!(d.norm_1(), 7_000_000_000_000);
    assert_eq!(d.norm(), 5_000_000_000_000);
    let e: Vector<isize> = Vector::from_vec(vec![-6, 8]);
    assert_eq!((e.norm_1(), e.norm(), e.norm_inf()), (14, 10, 8));
}
