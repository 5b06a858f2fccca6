use rcli::{multiply, Matrix};

#[test]
fn test_multiply() {
    let a = Matrix::new(vec![1, 2, 3, 4], 2, 2);
    let b = Matrix::new(vec![5, 6, 7, 8], 2, 2);
    let c = multiply(&a, &b).unwrap();
    assert_eq!(c.to_text(), "{19 22, 43 50}");
}

#[test]
fn multiply_rejects_mismatched_dimensions() {
    let a = Matrix::new(vec![1, 2, 3, 4, 5, 6], 2, 3);
    let b = Matrix::new(vec![1, 2, 3, 4], 2, 2);
    let r = multiply(&a, &b);
    assert_eq!(r.err(), Some("Matrix dimensions do not match"));
}

#[test]
fn multiply_rectangular_shapes() {
    // 2x3 times 3x2 gives 2x2
    let a = Matrix::new(vec![1, 2, 3, 4, 5, 6], 2, 3);
    let b = Matrix::new(vec![7, 8, 9, 10, 11, 12], 3, 2);
    let c = multiply(&a, &b).unwrap();
    assert_eq!(c.rows(), 2);
    assert_eq!(c.cols(), 2);
    assert_eq!(c.to_text(), "{58 64, 139 154}");
}

#[test]
fn extra_backing_entries_are_ignored() {
    let a = Matrix::new(vec![1, 2, 3, 4, 99], 2, 2);
    let b = Matrix::new(vec![5, 6, 7, 8], 2, 2);
    let c = multiply(&a, &b).unwrap();
    assert_eq!(c.to_text(), "{19 22, 43 50}");
}

#[test]
fn text_form_handles_negative_numbers_and_zero() {
    let m = Matrix::new(vec![-1, 0, 25, i64::MIN], 2, 2);
    assert_eq!(m.to_text(), "{-1 0, 25 -9223372036854775808}");
}
