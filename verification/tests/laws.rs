use bacon_sci::polynomial::Polynomial;
use bacon_sci::special::{hermite, laguerre, legendre};

fn poly(c: &[i64]) -> Polynomial<i64> {
    Polynomial::from_coefficients(c.to_vec())
}

#[test]
fn value_of_sum_difference_and_product() {
    let a = poly(&[3, -1, 2]);
    let b = poly(&[1, 4]);
    for x in -3..4 {
        assert_eq!((&a + &b).evaluate(x), a.evaluate(x) + b.evaluate(x));
        assert_eq!((&a - &b).evaluate(x), a.evaluate(x) - b.evaluate(x));
        assert_eq!((&a * &b).evaluate(x), a.evaluate(x) * b.evaluate(x));
        assert_eq!((&a * 5).evaluate(x), a.evaluate(x) * 5);
    }
    let c = poly(&[12, -6, 18]);
    assert_eq!((&c / 6).evaluate(2), c.evaluate(2) / 6);
}

#[test]
fn addition_commutes() {
    let a = poly(&[3, -1, 2]);
    let b = poly(&[1, 4]);
    assert_eq!((&a + &b).coefficients().clone(), (&b + &a).coefficients().clone());
}

#[test]
fn evaluate_derivative_agrees_with_evaluate_and_derivative() {
    let c = poly(&[6]);
    assert_eq!(c.evaluate_derivative(4), (c.evaluate(4), c.derivative().evaluate(4)));
    let p = poly(&[2, -3, 0, 5, 1]);
    for x in -2..3 {
        let (value, slope) = p.evaluate_derivative(x);
        assert_eq!(value, p.evaluate(x));
        assert_eq!(slope, p.derivative().evaluate(x));
    }
}

#[test]
fn set_then_get_reads_back() {
    let mut p = poly(&[1, 2]);
    p.set_coefficient(5, 11);
    assert_eq!(p.get_coefficient(5), 11);
    assert_eq!(p.get_coefficient(1), 2);
    assert_eq!(p.get_coefficient(4), 0);
    p.purge_coefficient(1);
    assert_eq!(p.get_coefficient(1), 0);
}

#[test]
fn legendre_value_at_one() {
    for n in 0..10 {
        assert!((legendre::<f64>(n).evaluate(1.0) - 1.0).abs() < 1e-9);
    }
}

#[test]
fn hermite_leading_coefficient() {
    for n in 0..10u32 {
        let h = hermite::<i64>(n);
        assert_eq!(h.order(), n as usize);
        assert_eq!(h.get_coefficient(n as usize), 1i64 << n);
    }
}

#[test]
fn laguerre_value_at_zero() {
    for n in 0..13 {
        assert_eq!(laguerre::<f64>(n).evaluate(0.0), 1.0);
    }
}

fn coef(p: &Polynomial<i64>, k: i64) -> i64 {
    if k >= 0 && (k as usize) < p.coefficients().len() {
        p.coefficients()[k as usize]
    } else {
        0
    }
}

#[test]
fn hermite_recurrence_coefficients() {
    for n in 1..8i64 {
        let next = hermite::<i64>(n as u32 + 1);
        let cur = hermite::<i64>(n as u32);
        let prev = hermite::<i64>(n as u32 - 1);
        for k in 0..(n + 4) {
            assert_eq!(coef(&next, k), 2 * coef(&cur, k - 1) - 2 * n * coef(&prev, k));
        }
    }
}

#[test]
fn legendre_recurrence_coefficients() {
    for n in 1..8u32 {
        let next = legendre::<f64>(n + 1);
        let cur = legendre::<f64>(n);
        let prev = legendre::<f64>(n - 1);
        let c = |p: &Polynomial<f64>, k: i64| -> f64 {
            if k >= 0 && (k as usize) < p.coefficients().len() { p.coefficients()[k as usize] } else { 0.0 }
        };
        let nf = n as f64;
        for k in 0..(n as i64 + 3) {
            let lhs = (nf + 1.0) * c(&next, k);
            let rhs = (2.0 * nf + 1.0) * c(&cur, k - 1) - nf * c(&prev, k);
            assert!((lhs - rhs).abs() < 1e-9);
        }
    }
}

#[test]
fn horner_equals_power_sum() {
    let p = poly(&[3, -2, 0, 5]);
    for x in -3..4i64 {
        let sum = 3 - 2 * x + 5 * x * x * x;
        assert_eq!(p.evaluate(x), sum);
    }
}

#[test]
fn set_coefficient_changes_value_by_the_difference() {
    let old = poly(&[1, 2, 3]);
    for (power, c) in [(1u32, 7i64), (4, -2), (0, 0)] {
        let mut new = old.duplicate();
        new.set_coefficient(power, c);
        for x in -2..3i64 {
            let old_c = coef(&old, power as i64);
            assert_eq!(new.evaluate(x), old.evaluate(x) + (c - old_c) * x.pow(power));
        }
    }
}

#[test]
fn hermite_derivative_is_scaled_predecessor() {
    for n in 1..9u32 {
        let d = hermite::<i64>(n).derivative();
        let scaled = &hermite::<i64>(n - 1) * (2 * n as i64);
        assert_eq!(d.coefficients().clone(), scaled.coefficients().clone());
    }
}

#[test]
fn laguerre_recurrence_coefficients() {
    let c = |p: &Polynomial<f64>, k: i64| -> f64 {
        if k >= 0 && (k as usize) < p.coefficients().len() { p.coefficients()[k as usize] } else { 0.0 }
    };
    for n in 1..12u32 {
        let next = laguerre::<f64>(n + 1);
        let cur = laguerre::<f64>(n);
        let prev = laguerre::<f64>(n - 1);
        let nf = n as f64;
        for k in 0..(n as i64 + 3) {
            let lhs = (nf + 1.0) * c(&next, k);
            let rhs = (2.0 * nf + 1.0) * c(&cur, k) - c(&cur, k - 1) - nf * c(&prev, k);
            assert!((lhs - rhs).abs() < 1e-9);
        }
    }
}

#[test]
fn subtraction_undoes_addition() {
    let a = poly(&[3, -1, 2]);
    let b = poly(&[1, 4, 0, 7, -5]);
    let r = &(&a + &b) - &b;
    assert_eq!(r.coefficients().len(), 5);
    for k in 0..7i64 {
        assert_eq!(coef(&r, k), coef(&a, k));
    }
    let r2 = &(&b + &a) - &a;
    assert_eq!(r2.coefficients().clone(), b.coefficients().clone());
}

#[test]
fn division_undoes_scaling() {
    let p = Polynomial::from_coefficients(vec![1.5, -2.0, 0.25]);
    let q = &(&p * 4.0) / 4.0;
    assert_eq!(q.coefficients().clone(), p.coefficients().clone());
    let r = &(&poly(&[3, -7, 11]) * 5) / 5;
    assert_eq!(r.coefficients().clone(), vec![3, -7, 11]);
}
