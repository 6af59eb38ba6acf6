use bacon_sci::polynomial::Polynomial;

fn poly(c: &[i64]) -> Polynomial<i64> {
    Polynomial::from_coefficients(c.to_vec())
}

fn coeffs<N: Copy>(p: &Polynomial<N>) -> Vec<N> {
    p.coefficients().clone()
}

#[test]
fn new_is_the_zero_polynomial() {
    let p: Polynomial<f64> = Polynomial::new();
    assert_eq!(coeffs(&p), vec![0.0]);
    assert_eq!(p.order(), 0);
    assert_eq!(p.evaluate(3.5), 0.0);
    let d: Polynomial<f64> = Default::default();
    assert_eq!(coeffs(&d), vec![0.0]);
}

#[test]
fn order_and_get_coefficient() {
    let p = poly(&[4, 0, -2]);
    assert_eq!(p.order(), 2);
    assert_eq!(p.get_coefficient(0), 4);
    assert_eq!(p.get_coefficient(2), -2);
    assert_eq!(p.get_coefficient(3), 0);
    assert_eq!(p.get_coefficient(100), 0);
}

#[test]
fn evaluate_by_horner() {
    // 1 + 2x + 3x^2 at 2
    let p = poly(&[1, 2, 3]);
    assert_eq!(p.evaluate(2), 17);
    assert_eq!(p.evaluate(0), 1);
    assert_eq!(p.evaluate(-1), 2);
    let q = Polynomial::from_coefficients(vec![4.0, -1.0]);
    assert_eq!(q.evaluate(3.0), 1.0);
    assert_eq!(poly(&[7]).evaluate(100), 7);
}

#[test]
fn evaluate_derivative_pairs() {
    // p = 1 + 2x + 3x^2, p' = 2 + 6x
    let p = poly(&[1, 2, 3]);
    assert_eq!(p.evaluate_derivative(2), (17, 14));
    let q = poly(&[5, -1, 0, 2]);
    // q(3) = 5 - 3 + 54 = 56, q'(3) = -1 + 6 * 9 = 53
    assert_eq!(q.evaluate_derivative(3), (56, 53));
    let l = poly(&[3, 4]);
    assert_eq!(l.evaluate_derivative(10), (43, 4));
}

#[test]
fn evaluate_derivative_of_a_constant() {
    // A constant c has value c and derivative 0.
    let p = poly(&[5]);
    assert_eq!(p.evaluate_derivative(2), (5, 0));
    let q = Polynomial::from_coefficients(vec![2.0]);
    assert_eq!(q.evaluate_derivative(0.5), (2.0, 0.0));
}

#[test]
fn set_coefficient_grows_with_zeros() {
    let mut p = poly(&[1]);
    p.set_coefficient(3, 7);
    assert_eq!(coeffs(&p), vec![1, 0, 0, 7]);
    p.set_coefficient(1, -2);
    assert_eq!(coeffs(&p), vec![1, -2, 0, 7]);
    p.set_coefficient(0, 9);
    assert_eq!(coeffs(&p), vec![9, -2, 0, 7]);
    let mut q: Polynomial<f64> = Polynomial::new();
    q.set_coefficient(2, 1.5);
    assert_eq!(coeffs(&q), vec![0.0, 0.0, 1.5]);
    assert_eq!(q.get_coefficient(2), 1.5);
}

#[test]
fn purge_coefficient_zeroes_or_leaves_unchanged() {
    let mut p = poly(&[1, 2, 3]);
    p.purge_coefficient(1);
    assert_eq!(coeffs(&p), vec![1, 0, 3]);
    // A power equal to the number of coefficients has no coefficient to remove.
    p.purge_coefficient(3);
    assert_eq!(coeffs(&p), vec![1, 0, 3]);
    p.purge_coefficient(2);
    assert_eq!(coeffs(&p), vec![1, 0, 0]);
    p.purge_coefficient(0);
    assert_eq!(coeffs(&p), vec![0, 0, 0]);
    let mut e = poly(&[]);
    e.purge_coefficient(0);
    assert_eq!(coeffs(&e), Vec::<i64>::new());
}

#[test]
fn derivative_coefficients() {
    let p = poly(&[1, 2, 3, 4]);
    assert_eq!(coeffs(&p.derivative()), vec![2, 6, 12]);
    let c = poly(&[42]);
    assert_eq!(coeffs(&c.derivative()), vec![0]);
    let f = Polynomial::from_coefficients(vec![0.5, 0.25, 2.0]);
    assert_eq!(coeffs(&f.derivative()), vec![0.25, 4.0]);
}

#[test]
fn add_scalar_variants() {
    let p = poly(&[1, 2]);
    assert_eq!(coeffs(&(&p + 5)), vec![6, 2]);
    assert_eq!(coeffs(&(p.duplicate() + 5)), vec![6, 2]);
    assert_eq!(coeffs(&(&p - 5)), vec![-4, 2]);
    assert_eq!(coeffs(&(p - 5)), vec![-4, 2]);
    let mut q = poly(&[1, 2]);
    q.add_assign_scalar(3);
    assert_eq!(coeffs(&q), vec![4, 2]);
    q.sub_assign_scalar(10);
    assert_eq!(coeffs(&q), vec![-6, 2]);
}

#[test]
fn add_polynomial_variants() {
    let a = poly(&[1, 2, 3]);
    let b = poly(&[10, 20]);
    let expected = vec![11, 22, 3];
    assert_eq!(coeffs(&(&a + &b)), expected);
    assert_eq!(coeffs(&(&b + &a)), expected);
    assert_eq!(coeffs(&(a.duplicate() + &b)), expected);
    assert_eq!(coeffs(&(&a + b.duplicate())), expected);
    assert_eq!(coeffs(&(a.duplicate() + b.duplicate())), expected);
    let mut c = b.duplicate();
    c.add_assign_polynomial(&a);
    assert_eq!(coeffs(&c), expected);
}

#[test]
fn sub_polynomial_variants() {
    let a = poly(&[1, 2, 3]);
    let b = poly(&[10, 20]);
    assert_eq!(coeffs(&(&a - &b)), vec![-9, -18, 3]);
    assert_eq!(coeffs(&(&b - &a)), vec![9, 18, -3]);
    assert_eq!(coeffs(&(b.duplicate() - a.duplicate())), vec![9, 18, -3]);
    assert_eq!(coeffs(&(a.duplicate() - &b)), vec![-9, -18, 3]);
    assert_eq!(coeffs(&(&a - b.duplicate())), vec![-9, -18, 3]);
    let mut c = b.duplicate();
    c.sub_assign_polynomial(&a);
    assert_eq!(coeffs(&c), vec![9, 18, -3]);
    assert_eq!(coeffs(&(&a - &a)), vec![0, 0, 0]);
}

#[test]
fn scalar_mul_and_div() {
    let a = poly(&[1, -2, 3]);
    assert_eq!(coeffs(&(&a * 4)), vec![4, -8, 12]);
    assert_eq!(coeffs(&(a.duplicate() * -1)), vec![-1, 2, -3]);
    let b = poly(&[9, 6, -3]);
    assert_eq!(coeffs(&(&b / 3)), vec![3, 2, -1]);
    assert_eq!(coeffs(&(b.duplicate() / -3)), vec![-3, -2, 1]);
    let mut c = poly(&[2, 4]);
    c.mul_assign_scalar(5);
    assert_eq!(coeffs(&c), vec![10, 20]);
    c.div_assign_scalar(10);
    assert_eq!(coeffs(&c), vec![1, 2]);
    let f = Polynomial::from_coefficients(vec![1.0, 3.0]);
    assert_eq!(coeffs(&(&f / 2.0)), vec![0.5, 1.5]);
}

#[test]
fn polynomial_product() {
    // (1 + x)(1 - x) = 1 - x^2
    let a = poly(&[1, 1]);
    let b = poly(&[1, -1]);
    assert_eq!(coeffs(&(&a * &b)), vec![1, 0, -1]);
    // (2 + 3x + x^2)(4 + 5x) = 8 + 22x + 19x^2 + 5x^3
    let c = poly(&[2, 3, 1]);
    let d = poly(&[4, 5]);
    assert_eq!(coeffs(&(&c * &d)), vec![8, 22, 19, 5]);
    assert_eq!(coeffs(&(d.duplicate() * c.duplicate())), vec![8, 22, 19, 5]);
    assert_eq!(coeffs(&(c.duplicate() * &d)), vec![8, 22, 19, 5]);
    assert_eq!(coeffs(&(&c * d.duplicate())), vec![8, 22, 19, 5]);
    assert_eq!(coeffs(&(&poly(&[3]) * &poly(&[7]))), vec![21]);
}

#[test]
fn duplicate_copies() {
    let a = poly(&[3, 1, 4]);
    let b = a.duplicate();
    assert_eq!(coeffs(&a), coeffs(&b));
}

#[test]
fn derivative_with_given_index_values() {
    let p = poly(&[1, 2, 3, 4]);
    assert_eq!(coeffs(&p.derivative_with_index_values(&vec![0, 1, 2, 3])), vec![2, 6, 12]);
    assert_eq!(coeffs(&p.derivative_with_index_values(&vec![0, 10, 10, 10])), vec![20, 30, 40]);
    assert_eq!(coeffs(&poly(&[9]).derivative_with_index_values(&vec![0])), vec![0]);
}
