use bacon_sci::polynomial::Polynomial;
use bacon_sci::special::{factorial, hermite, laguerre, legendre, n_choose_k};

fn close(a: f64, b: f64) -> bool {
    (a - b).abs() < 1e-9
}

fn coeffs(p: &Polynomial<f64>) -> Vec<f64> {
    p.coefficients().clone()
}

#[test]
fn factorial_values() {
    assert_eq!(factorial(0), 1);
    assert_eq!(factorial(1), 1);
    assert_eq!(factorial(5), 120);
    assert_eq!(factorial(10), 3628800);
    assert_eq!(factorial(12), 479001600);
}

#[test]
fn binomial_values() {
    assert_eq!(n_choose_k(0, 0), 1);
    assert_eq!(n_choose_k(5, 0), 1);
    assert_eq!(n_choose_k(5, 2), 10);
    assert_eq!(n_choose_k(5, 5), 1);
    assert_eq!(n_choose_k(12, 6), 924);
    assert_eq!(n_choose_k(30, 3), 4060);
    assert_eq!(n_choose_k(u32::MAX, 1), u32::MAX);
    assert_eq!(n_choose_k(65536, 2), 2147450880);
}

#[test]
fn legendre_third() {
    let p_3 = legendre::<f64>(3);
    assert_eq!(p_3.order(), 3);
    assert!(p_3.get_coefficient(0).abs() < 0.00001);
    assert!((p_3.get_coefficient(1) + 1.5).abs() < 0.00001);
    assert!(p_3.get_coefficient(2).abs() < 0.00001);
    assert!((p_3.get_coefficient(3) - 2.5).abs() < 0.00001);
}

#[test]
fn legendre_low_orders() {
    assert_eq!(coeffs(&legendre::<f64>(0)), vec![1.0]);
    assert_eq!(coeffs(&legendre::<f64>(1)), vec![0.0, 1.0]);
    let p_2 = coeffs(&legendre::<f64>(2));
    assert_eq!(p_2.len(), 3);
    assert!(close(p_2[0], -0.5) && close(p_2[1], 0.0) && close(p_2[2], 1.5));
}

#[test]
fn hermite_third() {
    // H_3 = 8x^3 - 12x, the physicists' normalization.
    let h_3 = hermite::<f64>(3);
    assert_eq!(h_3.order(), 3);
    assert!(h_3.get_coefficient(0).abs() < 0.0001);
    assert!((h_3.get_coefficient(1) + 12.0).abs() < 0.0001);
    assert!(h_3.get_coefficient(2).abs() < 0.0001);
    assert!((h_3.get_coefficient(3) - 8.0).abs() < 0.0001);
}

#[test]
fn hermite_integer_coefficients() {
    assert_eq!(hermite::<i64>(0).coefficients().clone(), vec![1]);
    assert_eq!(hermite::<i64>(1).coefficients().clone(), vec![0, 2]);
    assert_eq!(hermite::<i64>(2).coefficients().clone(), vec![-2, 0, 4]);
    assert_eq!(hermite::<i64>(4).coefficients().clone(), vec![12, 0, -48, 0, 16]);
}

#[test]
fn laguerre_third() {
    let p_3 = laguerre::<f64>(3);
    assert_eq!(p_3.order(), 3);
    assert!((p_3.get_coefficient(0) - 1.0).abs() < 0.00001);
    assert!((p_3.get_coefficient(1) + 3.0).abs() < 0.00001);
    assert!((p_3.get_coefficient(2) - 9.0 / 6.0).abs() < 0.00001);
    assert!((p_3.get_coefficient(3) + 1.0 / 6.0).abs() < 0.00001);
}

#[test]
fn laguerre_low_orders() {
    assert_eq!(coeffs(&laguerre::<f64>(0)), vec![1.0]);
    assert_eq!(coeffs(&laguerre::<f64>(1)), vec![1.0, -1.0]);
    assert_eq!(laguerre::<f64>(12).order(), 12);
}
