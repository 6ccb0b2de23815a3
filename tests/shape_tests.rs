use matrix::shape::{AlgebraError, Dimension, IncompatibleError, D1, D2};

#[test]
fn dimension_inv_eq_test() {
    let d2_1 = Dimension::D2(D2 { rows: 2, cols: 3 });
    let d2_2 = Dimension::D2(D2 { rows: 3, cols: 2 });

    assert!(d2_1.inv_eq(&d2_2));

    let d1_1 = Dimension::D1(D1 { length: 2 });

    assert!(!d1_1.inv_eq(&d2_2));
}

#[test]
fn dimension_accessors() {
    let d1 = Dimension::D1(D1 { length: 4 });
    let d2 = Dimension::D2(D2 { rows: 2, cols: 5 });
    assert_eq!(d1.d1(), Some(D1 { length: 4 }));
    assert_eq!(d1.d2(), None);
    assert_eq!(d2.d2(), Some(D2 { rows: 2, cols: 5 }));
    assert_eq!(d2.d1(), None);
    assert!(!d2.inv_eq(&d2));
    assert!(!d2.inv_eq(&d1));
}

#[test]
fn incompatible_error_fields() {
    let e = IncompatibleError::new(Dimension::D1(D1 { length: 3 }), Dimension::D1(D1 { length: 4 }));
    assert_eq!(e.expected, Dimension::D1(D1 { length: 3 }));
    assert_eq!(e.found, Dimension::D1(D1 { length: 4 }));
    assert_ne!(AlgebraError::ShapeMismatch(e), AlgebraError::EmptyOperand);
}
