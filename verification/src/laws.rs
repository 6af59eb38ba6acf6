//! Laws of polynomial arithmetic and evaluation, stated over the specifications
//! that the operations of `Polynomial` are proved to meet, for coefficient types
//! whose operations obey the ring laws of `crate::ring`.
use vstd::prelude::*;
use vstd::std_specs::ops::{AddSpec, SubSpec, MulSpec, DivSpec, NegSpec};
use vstd::std_specs::convert::FromSpec;
use core::ops::{Add, Sub, Mul, Div, Neg};
use crate::polynomial::{
    horner,
    add_seqs,
    sub_seqs,
    scale_seq,
    divide_seq,
    product_low,
    product_high,
    product_terms,
    product_seqs,
    derivative_accumulators,
    value_and_derivative,
    derivative_coefficients,
    sets_coefficient,
    is_zero_value,
    horner_trace,
    horner_result,
    derivative_trace,
    derivative_result,
    convolution_trace,
    convolution_result,
    product_of,
    sum_of,
};
use crate::ring::{
    commutative_ring_ops,
    integer_constants,
    negation_distributes,
    subtraction_adds_negation,
    lemma_neg_add,
    lemma_sub_is_add_neg,
    lemma_add_comm,
    lemma_add_assoc,
    lemma_mul_comm,
    lemma_mul_assoc,
    lemma_distrib,
    lemma_add_swap_middle,
    lemma_constants,
    lemma_constant_succ,
    negation_cancels,
    division_by_constants,
    lemma_neg_cancel,
    lemma_div,
    lemma_div_self,
    lemma_constant_add,
    default_is_zero,
    division_by_products,
    lemma_div_product,
    division_undoes_multiplication,
    lemma_mul_div_cancel,
};
use crate::special::{
    constant,
    legendre_seq,
    hermite_seq,
    laguerre_seq,
    alternating_sign,
    fact,
    binomial,
    lemma_fact_monotone,
    lemma_binomial_zero,
};

verus! {

/// Adding polynomials is commutative when adding coefficients is.
pub proof fn law_add_commutative<N: Add<Output = N> + Mul<Output = N>>(a: Seq<N>, b: Seq<N>)
    requires
        commutative_ring_ops::<N>(),
    ensures
        add_seqs(a, b) == add_seqs(b, a),
{
    assert forall|i: int| 0 <= i < add_seqs(a, b).len() implies #[trigger] add_seqs(a, b)[i]
        == add_seqs(b, a)[i] by {
        if i < a.len() && i < b.len() {
            lemma_add_comm(a[i], b[i]);
        }
    }
    assert(add_seqs(a, b) =~= add_seqs(b, a));
}

/// The value of a sum of polynomials is the sum of their values.
pub proof fn law_evaluate_add<N: Add<Output = N> + Mul<Output = N>>(a: Seq<N>, b: Seq<N>, x: N)
    requires
        a.len() >= 1,
        b.len() >= 1,
        commutative_ring_ops::<N>(),
    ensures
        horner(add_seqs(a, b), x) == horner(a, x).add_spec(horner(b, x)),
    decreases a.len() + b.len(),
{
    let s = add_seqs(a, b);
    let a0 = a[0];
    let b0 = b[0];
    if a.len() == 1 && b.len() == 1 {
        assert(s.len() == 1);
    } else if b.len() == 1 {
        assert(s.drop_first() =~= a.drop_first());
        let h = horner(a.drop_first(), x).mul_spec(x);
        lemma_add_assoc(h, a0, b0);
    } else if a.len() == 1 {
        assert(s.drop_first() =~= b.drop_first());
        let h = horner(b.drop_first(), x).mul_spec(x);
        lemma_add_assoc(a0, h, b0);
        lemma_add_comm(a0, h);
        lemma_add_assoc(h, a0, b0);
    } else {
        assert(s.drop_first() =~= add_seqs(a.drop_first(), b.drop_first()));
        law_evaluate_add(a.drop_first(), b.drop_first(), x);
        let ha = horner(a.drop_first(), x);
        let hb = horner(b.drop_first(), x);
        lemma_distrib(x, ha, hb);
        lemma_add_swap_middle(ha.mul_spec(x), hb.mul_spec(x), a0, b0);
    }
}

/// Every coefficient negated.
pub open spec fn negate_seq<N: Neg<Output = N>>(a: Seq<N>) -> Seq<N> {
    Seq::new(a.len(), |i: int| a[i].neg_spec())
}

/// The value of the negated polynomial is the negated value.
proof fn lemma_evaluate_negate<N: Add<Output = N> + Mul<Output = N> + Neg<Output = N>>(
    b: Seq<N>,
    x: N,
)
    requires
        b.len() >= 1,
        negation_distributes::<N>(),
    ensures
        horner(negate_seq(b), x) == horner(b, x).neg_spec(),
    decreases b.len(),
{
    let nb = negate_seq(b);
    if b.len() >= 2 {
        assert(nb.drop_first() =~= negate_seq(b.drop_first()));
        lemma_evaluate_negate(b.drop_first(), x);
        let h = horner(b.drop_first(), x);
        lemma_neg_add(h, x);
        lemma_neg_add(h.mul_spec(x), b[0]);
    }
}

/// The value of a difference of polynomials is the difference of their values.
pub proof fn law_evaluate_sub<N: Add<Output = N> + Sub<Output = N> + Mul<Output = N> + Neg<
    Output = N,
>>(a: Seq<N>, b: Seq<N>, x: N)
    requires
        a.len() >= 1,
        b.len() >= 1,
        commutative_ring_ops::<N>(),
        subtraction_adds_negation::<N>(),
        negation_distributes::<N>(),
    ensures
        horner(sub_seqs(a, b), x) == horner(a, x).sub_spec(horner(b, x)),
{
    assert forall|i: int| 0 <= i < sub_seqs(a, b).len() implies #[trigger] sub_seqs(a, b)[i]
        == add_seqs(a, negate_seq(b))[i] by {
        if i < a.len() && i < b.len() {
            lemma_sub_is_add_neg(a[i], b[i]);
        }
    }
    assert(sub_seqs(a, b) =~= add_seqs(a, negate_seq(b)));
    law_evaluate_add(a, negate_seq(b), x);
    lemma_evaluate_negate(b, x);
    lemma_sub_is_add_neg(horner(a, x), horner(b, x));
}

/// The value of a polynomial whose coefficients are all multiplied by `c` is
/// the value of the polynomial multiplied by `c`.
pub proof fn law_evaluate_scale<N: Add<Output = N> + Mul<Output = N>>(a: Seq<N>, c: N, x: N)
    requires
        a.len() >= 1,
        commutative_ring_ops::<N>(),
    ensures
        horner(scale_seq(a, c), x) == horner(a, x).mul_spec(c),
    decreases a.len(),
{
    let s = scale_seq(a, c);
    if a.len() >= 2 {
        assert(s.drop_first() =~= scale_seq(a.drop_first(), c));
        law_evaluate_scale(a.drop_first(), c, x);
        let h = horner(a.drop_first(), x);
        // (h * c) * x == (h * x) * c
        lemma_mul_assoc(h, c, x);
        lemma_mul_comm(c, x);
        lemma_mul_assoc(h, x, c);
        lemma_distrib(c, h.mul_spec(x), a[0]);
    }
}

/// The value accumulator of `evaluate_derivative` runs Horner's rule.
proof fn lemma_value_accumulator_is_horner<N: Add<Output = N> + Mul<Output = N>>(s: Seq<N>, x: N)
    requires
        s.len() >= 1,
    ensures
        derivative_accumulators(s, x).0 == horner(s, x),
    decreases s.len(),
{
    if s.len() >= 2 {
        lemma_value_accumulator_is_horner(s.drop_first(), x);
    }
}

/// Along a run of Horner's rule whose steps follow vstd's specifications, each
/// recorded value is Horner's rule on the coefficients from that power up.
proof fn lemma_trace_suffix<N: Add<Output = N> + Mul<Output = N>>(
    c: Seq<N>,
    x: N,
    v: Seq<N>,
    p: Seq<N>,
    k: int,
)
    requires
        c.len() >= 1,
        horner_trace(c, x, v, p),
        0 <= k < c.len(),
        N::obeys_add_spec(),
        N::obeys_mul_spec(),
    ensures
        v[k] == horner(c.subrange(k, c.len() as int), x),
    decreases c.len() - k,
{
    let n = c.len() as int;
    if k == n - 1 {
        assert(c.subrange(k, n) =~= seq![c[k]]);
    } else {
        lemma_trace_suffix(c, x, v, p, k + 1);
        assert(c.subrange(k, n).drop_first() =~= c.subrange(k + 1, n));
        assert(product_of(v[k + 1], x, p[k]));
        assert(sum_of(p[k], c[k], v[k]));
    }
}

/// For a coefficient type whose `+` and `*` follow vstd's specifications, the
/// only value that Horner's rule may give is `horner(c, x)`.
pub proof fn law_horner_result_is_horner<N: Add<Output = N> + Mul<Output = N>>(
    c: Seq<N>,
    x: N,
    r: N,
)
    requires
        c.len() >= 1,
        horner_result(c, x, r),
        N::obeys_add_spec(),
        N::obeys_mul_spec(),
    ensures
        r == horner(c, x),
{
    let (v, p) = choose|v: Seq<N>, p: Seq<N>| #[trigger] horner_trace(c, x, v, p) && r == v[0];
    lemma_trace_suffix(c, x, v, p, 0);
    assert(c.subrange(0, c.len() as int) =~= c);
}

/// Along a run of `evaluate_derivative` whose steps follow vstd's
/// specifications, the recorded accumulators at each power `k >= 1` are the
/// accumulators of the coefficients from `k` up.
proof fn lemma_derivative_trace_suffix<N: Add<Output = N> + Mul<Output = N>>(
    c: Seq<N>,
    x: N,
    ve: Seq<N>,
    vd: Seq<N>,
    pe: Seq<N>,
    pd: Seq<N>,
    k: int,
)
    requires
        c.len() >= 2,
        derivative_trace(c, x, ve, vd, pe, pd),
        1 <= k < c.len(),
        N::obeys_add_spec(),
        N::obeys_mul_spec(),
    ensures
        (ve[k], vd[k]) == derivative_accumulators(c.subrange(k, c.len() as int), x),
    decreases c.len() - k,
{
    let n = c.len() as int;
    if k == n - 1 {
        assert(c.subrange(k, n) =~= seq![c[k]]);
    } else {
        lemma_derivative_trace_suffix(c, x, ve, vd, pe, pd, k + 1);
        assert(c.subrange(k, n).drop_first() =~= c.subrange(k + 1, n));
        assert(product_of(ve[k + 1], x, pe[k]));
        assert(sum_of(pe[k], c[k], ve[k]));
        assert(product_of(vd[k + 1], x, pd[k]));
        assert(sum_of(pd[k], ve[k], vd[k]));
    }
}

/// For a coefficient type whose `+` and `*` follow vstd's specifications, the
/// only pair that `evaluate_derivative` may give on two or more coefficients is
/// `value_and_derivative(c, x)`.
pub proof fn law_derivative_result_is_value_and_derivative<N: Add<Output = N> + Mul<Output = N>>(
    c: Seq<N>,
    x: N,
    r: (N, N),
)
    requires
        c.len() >= 2,
        derivative_result(c, x, r),
        N::obeys_add_spec(),
        N::obeys_mul_spec(),
    ensures
        r == value_and_derivative(c, x),
{
    let (ve, vd, pe, pd) = choose|ve: Seq<N>, vd: Seq<N>, pe: Seq<N>, pd: Seq<N>|
        #[trigger] derivative_trace(c, x, ve, vd, pe, pd) && r == (ve[0], vd[1]);
    lemma_derivative_trace_suffix(c, x, ve, vd, pe, pd, 1);
    assert(c.subrange(1, c.len() as int) =~= c.drop_first());
    assert(product_of(x, ve[1], pe[0]));
    assert(sum_of(pe[0], c[0], ve[0]));
}

/// Along a run of a product coefficient whose steps follow vstd's
/// specifications, each partial sum is the sum of the terms so far.
proof fn lemma_convolution_trace_prefix<N: Add<Output = N> + Mul<Output = N>>(
    a: Seq<N>,
    b: Seq<N>,
    k: int,
    s: Seq<N>,
    t: Seq<N>,
    i: int,
)
    requires
        convolution_trace(a, b, k, s, t),
        product_low(b, k) <= i <= product_high(a, k),
        N::obeys_add_spec(),
        N::obeys_mul_spec(),
    ensures
        s[i] == product_terms(a, b, k, i),
    decreases i - product_low(b, k),
{
    let lo = product_low(b, k);
    assert(product_of(a[i], b[k - i], t[i]));
    if i > lo {
        lemma_convolution_trace_prefix(a, b, k, s, t, i - 1);
        assert(sum_of(s[i - 1], t[i], s[i]));
    }
}

/// For a coefficient type whose `+` and `*` follow vstd's specifications, the
/// only value that the coefficient of `x^k` in a product may take is the one
/// in `product_seqs`.
pub proof fn law_convolution_result_is_product<N: Add<Output = N> + Mul<Output = N>>(
    a: Seq<N>,
    b: Seq<N>,
    k: int,
    r: N,
)
    requires
        a.len() >= 1,
        b.len() >= 1,
        0 <= k < a.len() + b.len() - 1,
        convolution_result(a, b, k, r),
        N::obeys_add_spec(),
        N::obeys_mul_spec(),
    ensures
        r == product_seqs(a, b)[k],
{
    let (s, t) = choose|s: Seq<N>, t: Seq<N>|
        #[trigger] convolution_trace(a, b, k, s, t) && r == s[product_high(a, k)];
    lemma_convolution_trace_prefix(a, b, k, s, t, product_high(a, k));
}

/// For a polynomial with at least two coefficients, the first component of
/// `evaluate_derivative` is the value that `evaluate` gives.
pub proof fn law_evaluate_derivative_value<N: Add<Output = N> + Mul<Output = N>>(c: Seq<N>, x: N)
    requires
        c.len() >= 2,
        commutative_ring_ops::<N>(),
    ensures
        value_and_derivative(c, x).0 == horner(c, x),
{
    lemma_value_accumulator_is_horner(c.drop_first(), x);
    lemma_mul_comm(x, horner(c.drop_first(), x));
}

/// For a constant polynomial `[c]`, the pair that `evaluate_derivative` gives,
/// `c` and a zero of the coefficient type, is the value that `evaluate` gives
/// and the value of `derivative()`, whose one coefficient is such a zero.
pub proof fn law_evaluate_derivative_constant<N: Default + From<u32> + Add<Output = N> + Mul<
    Output = N,
>>(c: Seq<N>, x: N, slope: N, d: Seq<N>)
    requires
        c.len() == 1,
        is_zero_value(slope),
        d.len() == 1,
        is_zero_value(d[0]),
        default_is_zero::<N>(),
    ensures
        c[0] == horner(c, x),
        slope == horner(d, x),
{
}

/// The coefficients `(o + 1) * t[0], (o + 2) * t[1], ...`.
pub open spec fn weighted_from<N: Mul<Output = N> + From<u32>>(t: Seq<N>, o: nat) -> Seq<N> {
    Seq::new(t.len(), |j: int| <N as FromSpec<u32>>::from_spec((o + j + 1) as u32).mul_spec(t[j]))
}

/// Horner's rule on the weighted coefficients gives the derivative accumulator
/// plus `o` times the value accumulator.
proof fn lemma_weighted_horner<N: Add<Output = N> + Mul<Output = N> + From<u32>>(
    t: Seq<N>,
    o: nat,
    x: N,
)
    requires
        t.len() >= 1,
        o + t.len() <= u32::MAX,
        commutative_ring_ops::<N>(),
        integer_constants::<N>(),
    ensures
        horner(weighted_from(t, o), x) == derivative_accumulators(t, x).1.add_spec(
            <N as FromSpec<u32>>::from_spec(o as u32).mul_spec(derivative_accumulators(t, x).0),
        ),
    decreases t.len(),
{
    let w = weighted_from(t, o);
    let f_o = <N as FromSpec<u32>>::from_spec(o as u32);
    let f_1 = <N as FromSpec<u32>>::from_spec(1u32);
    let f_o1 = <N as FromSpec<u32>>::from_spec((o + 1) as u32);
    let t0 = t[0];
    lemma_constant_succ::<N>(o as u32);
    assert(f_o1 == f_o.add_spec(f_1));
    if t.len() == 1 {
        // w = [(o + 1) * t0]; accumulators are (t0, t0)
        assert(w[0] == f_o1.mul_spec(t0));
        lemma_distrib(t0, f_o, f_1);
        lemma_constants::<N>(t0);
        lemma_mul_comm(f_o, t0);
        lemma_mul_comm(f_1, t0);
        lemma_add_comm(f_o.mul_spec(t0), t0);
        lemma_mul_comm(t0, f_o.add_spec(f_1));
    } else {
        let t1 = t.drop_first();
        assert(w.drop_first() =~= weighted_from(t1, o + 1));
        lemma_weighted_horner(t1, o + 1, x);
        let (e1, d1) = derivative_accumulators(t1, x);
        let e = e1.mul_spec(x).add_spec(t0);
        let d = d1.mul_spec(x).add_spec(e);
        assert(derivative_accumulators(t, x) == (e, d));
        // horner(w) = (d1 + f_o1 * e1) * x + f_o1 * t0
        //           = d1 * x + f_o1 * (e1 * x + t0) = d1 * x + f_o1 * e
        lemma_distrib(x, d1, f_o1.mul_spec(e1));
        lemma_mul_assoc(f_o1, e1, x);
        lemma_distrib(f_o1, e1.mul_spec(x), t0);
        lemma_add_assoc(d1.mul_spec(x), f_o1.mul_spec(e1).mul_spec(x), f_o1.mul_spec(t0));
        // d + f_o * e = d1 * x + (e + f_o * e) = d1 * x + f_o1 * e
        lemma_add_assoc(d1.mul_spec(x), e, f_o.mul_spec(e));
        lemma_distrib(e, f_o, f_1);
        lemma_constants::<N>(e);
        lemma_mul_comm(e, f_o);
        lemma_mul_comm(e, f_1);
        lemma_mul_comm(e, f_o1);
        lemma_add_comm(f_o.mul_spec(e), e);
    }
}

/// For a polynomial with at least two coefficients, the second component of
/// `evaluate_derivative` is the value of `derivative()`.
pub proof fn law_evaluate_derivative_slope<N: Add<Output = N> + Mul<Output = N> + From<u32>>(
    c: Seq<N>,
    x: N,
)
    requires
        c.len() >= 2,
        c.len() - 1 <= u32::MAX,
        commutative_ring_ops::<N>(),
        integer_constants::<N>(),
    ensures
        value_and_derivative(c, x).1 == horner(derivative_coefficients(c), x),
{
    let t = c.drop_first();
    assert(derivative_coefficients(c) =~= weighted_from(t, 0));
    lemma_weighted_horner(t, 0, x);
    let (e, d) = derivative_accumulators(t, x);
    lemma_constants::<N>(e);
    lemma_constants::<N>(d);
}


/// The terms of a product coefficient that involve `a[1..]` are the terms of
/// the corresponding coefficient of `a[1..] * b`, after the `a[0] * b[k]` term
/// when there is one.
proof fn lemma_product_terms_peel<N: Add<Output = N> + Mul<Output = N>>(
    a: Seq<N>,
    b: Seq<N>,
    k: int,
    j: int,
)
    requires
        a.len() >= 2,
        b.len() >= 1,
        1 <= k < a.len() + b.len() - 1,
        product_low(b, k) <= j <= product_high(a, k),
        j >= 1,
        commutative_ring_ops::<N>(),
    ensures
        k < b.len() ==> product_terms(a, b, k, j) == a[0].mul_spec(b[k]).add_spec(
            product_terms(a.drop_first(), b, k - 1, j - 1),
        ),
        k >= b.len() ==> product_terms(a, b, k, j) == product_terms(a.drop_first(), b, k - 1, j - 1),
    decreases j,
{
    let a1 = a.drop_first();
    assert(product_low(b, k - 1) == if k < b.len() {
        0
    } else {
        product_low(b, k) - 1
    });
    if k < b.len() {
        if j == 1 {
            assert(product_terms(a, b, k, 0) == a[0].mul_spec(b[k]));
            assert(product_terms(a1, b, k - 1, 0) == a1[0].mul_spec(b[k - 1]));
        } else {
            lemma_product_terms_peel(a, b, k, j - 1);
            lemma_add_assoc(
                a[0].mul_spec(b[k]),
                product_terms(a1, b, k - 1, j - 2),
                a[j].mul_spec(b[k - j]),
            );
            assert(a1[j - 1] == a[j]);
        }
    } else {
        if j == product_low(b, k) {
            assert(a1[j - 1] == a[j]);
        } else {
            lemma_product_terms_peel(a, b, k, j - 1);
            assert(a1[j - 1] == a[j]);
        }
    }
}

/// The value of a product of polynomials is the product of their values.
pub proof fn law_evaluate_mul<N: Add<Output = N> + Mul<Output = N>>(a: Seq<N>, b: Seq<N>, x: N)
    requires
        a.len() >= 1,
        b.len() >= 1,
        commutative_ring_ops::<N>(),
    ensures
        horner(product_seqs(a, b), x) == horner(a, x).mul_spec(horner(b, x)),
    decreases a.len(),
{
    let p = product_seqs(a, b);
    let a0 = a[0];
    let hb = horner(b, x);
    if a.len() == 1 {
        assert forall|k: int| 0 <= k < p.len() implies #[trigger] p[k] == scale_seq(b, a0)[k] by {
            assert(product_high(a, k) == 0);
            assert(product_low(b, k) == 0);
            lemma_mul_comm(a0, b[k]);
        }
        assert(p =~= scale_seq(b, a0));
        law_evaluate_scale(b, a0, x);
        lemma_mul_comm(hb, a0);
    } else {
        let a1 = a.drop_first();
        let b1 = b.drop_first();
        let q = product_seqs(a1, b);
        let s = scale_seq(b1, a0);
        assert forall|k: int| 0 <= k < p.drop_first().len() implies #[trigger] p.drop_first()[k]
            == add_seqs(s, q)[k] by {
            let kk = k + 1;
            lemma_product_terms_peel(a, b, kk, product_high(a, kk));
            assert(product_high(a1, k) == product_high(a, kk) - 1);
            if kk < b.len() {
                lemma_mul_comm(a0, b[kk]);
                assert(b1[k] == b[kk]);
            }
        }
        assert(p.drop_first() =~= add_seqs(s, q));
        assert(p[0] == a0.mul_spec(b[0]));
        law_evaluate_mul(a1, b, x);
        let ha1 = horner(a1, x);
        let b0 = b[0];
        if b.len() == 1 {
            assert(add_seqs(s, q) =~= q);
            // (ha1 * b0) * x + a0 * b0 == (ha1 * x + a0) * b0
            lemma_mul_assoc(ha1, b0, x);
            lemma_mul_comm(b0, x);
            lemma_mul_assoc(ha1, x, b0);
            lemma_distrib(b0, ha1.mul_spec(x), a0);
        } else {
            law_evaluate_add(s, q, x);
            law_evaluate_scale(b1, a0, x);
            let hb1 = horner(b1, x);
            let t1 = hb1.mul_spec(a0);
            let t2 = ha1.mul_spec(hb);
            let c = a0.mul_spec(b0);
            // horner(p) = (t1 + t2) * x + c = (t1 * x + t2 * x) + c
            lemma_distrib(x, t1, t2);
            // t1 * x == a0 * (hb1 * x)
            lemma_mul_comm(hb1, a0);
            lemma_mul_assoc(a0, hb1, x);
            // t2 * x == (ha1 * x) * hb
            lemma_mul_assoc(ha1, hb, x);
            lemma_mul_comm(hb, x);
            lemma_mul_assoc(ha1, x, hb);
            // (ha1 * x + a0) * hb == (ha1 * x) * hb + a0 * hb
            lemma_distrib(hb, ha1.mul_spec(x), a0);
            // a0 * hb == a0 * (hb1 * x) + a0 * b0
            lemma_distrib(a0, hb1.mul_spec(x), b0);
            let u = a0.mul_spec(hb1.mul_spec(x));
            let v = ha1.mul_spec(x).mul_spec(hb);
            // (u + v) + c == v + (u + c)
            lemma_add_comm(u, v);
            lemma_add_assoc(v, u, c);
        }
    }
}


/// The value of a polynomial whose coefficients are all divided by `c` is the
/// value of the polynomial divided by `c`.
pub proof fn law_evaluate_divide<N: Add<Output = N> + Mul<Output = N> + Div<Output = N> + From<u32>>(
    a: Seq<N>,
    c: N,
    x: N,
)
    requires
        a.len() >= 1,
        division_by_constants::<N>(),
    ensures
        horner(divide_seq(a, c), x) == horner(a, x).div_spec(c),
    decreases a.len(),
{
    let d = divide_seq(a, c);
    if a.len() >= 2 {
        assert(d.drop_first() =~= divide_seq(a.drop_first(), c));
        law_evaluate_divide(a.drop_first(), c, x);
        let h = horner(a.drop_first(), x);
        lemma_div(h, x, c);
        lemma_div(h.mul_spec(x), a[0], c);
    }
}

/// `P_n` has `n + 1` coefficients.
proof fn lemma_legendre_len<N: From<u32> + Add<Output = N> + Sub<Output = N> + Mul<Output = N> + Div<
    Output = N,
> + Neg<Output = N>>(n: nat)
    ensures
        legendre_seq::<N>(n).len() == n + 1,
    decreases n,
{
    if n >= 2 {
        lemma_legendre_len::<N>((n - 1) as nat);
        lemma_legendre_len::<N>((n - 2) as nat);
    }
}

/// `H_n` has `n + 1` coefficients.
proof fn lemma_hermite_len<N: From<u32> + Add<Output = N> + Sub<Output = N> + Mul<Output = N> + Div<
    Output = N,
> + Neg<Output = N>>(n: nat)
    ensures
        hermite_seq::<N>(n).len() == n + 1,
    decreases n,
{
    if n >= 2 {
        lemma_hermite_len::<N>((n - 1) as nat);
        lemma_hermite_len::<N>((n - 2) as nat);
    }
}

/// `2^n` in the coefficient type, as a product of the constant 2.
pub open spec fn power_of_two<N: From<u32> + Mul<Output = N>>(n: nat) -> N
    decreases n,
{
    if n == 0 {
        constant::<N>(1)
    } else {
        constant::<N>(2).mul_spec(power_of_two::<N>((n - 1) as nat))
    }
}

/// The physicists' normalization: `H_n` has degree `n` and leading coefficient
/// `2^n`.
pub proof fn law_hermite_leading_coefficient<N: From<u32> + Add<Output = N> + Sub<Output = N> + Mul<
    Output = N,
> + Div<Output = N> + Neg<Output = N>>(n: nat)
    requires
        commutative_ring_ops::<N>(),
        integer_constants::<N>(),
    ensures
        hermite_seq::<N>(n).len() == n + 1,
        hermite_seq::<N>(n)[n as int] == power_of_two::<N>(n),
    decreases n,
{
    lemma_hermite_len::<N>(n);
    if n == 1 {
        assert(power_of_two::<N>(0) == constant::<N>(1));
        lemma_constants::<N>(constant::<N>(2));
        lemma_mul_comm(constant::<N>(2), constant::<N>(1));
    } else if n >= 2 {
        let i = (n - 1) as nat;
        law_hermite_leading_coefficient::<N>(i);
        lemma_hermite_len::<N>((i - 1) as nat);
        let two_x = seq![constant::<N>(0), constant::<N>(2)];
        let p = product_seqs(two_x, hermite_seq::<N>(i));
        assert(product_low(hermite_seq::<N>(i), n as int) == 1);
        assert(product_high(two_x, n as int) == 1);
        assert(p[n as int] == constant::<N>(2).mul_spec(hermite_seq::<N>(i)[i as int]));
    }
}

/// The value of the Laguerre polynomial `L_n` at 0 is 1.
pub proof fn law_laguerre_at_zero<N: From<u32> + Add<Output = N> + Sub<Output = N> + Mul<
    Output = N,
> + Div<Output = N> + Neg<Output = N>>(n: nat)
    requires
        commutative_ring_ops::<N>(),
        integer_constants::<N>(),
        division_by_constants::<N>(),
    ensures
        horner(laguerre_seq::<N>(n), constant::<N>(0)) == constant::<N>(1),
{
    let s = laguerre_seq::<N>(n);
    let one = constant::<N>(1);
    let zero = constant::<N>(0);
    assert(binomial(n, 0) == 1);
    assert(fact(0) == 1);
    assert(alternating_sign::<N>(0) == one);
    lemma_div_self::<N>(1u32);
    assert(s[0] == one.div_spec(one).mul_spec(one));
    lemma_constants::<N>(one);
    if n >= 1 {
        let h = horner(s.drop_first(), zero);
        lemma_constants::<N>(h);
        lemma_mul_comm(h, zero);
        lemma_add_comm(zero, one);
        lemma_constants::<N>(one);
    }
}

/// The Legendre normalization: `P_n(1) = 1`.
pub proof fn law_legendre_at_one<N: From<u32> + Add<Output = N> + Sub<Output = N> + Mul<
    Output = N,
> + Div<Output = N> + Neg<Output = N>>(n: nat)
    requires
        n <= 0x8000_0000,
        commutative_ring_ops::<N>(),
        integer_constants::<N>(),
        subtraction_adds_negation::<N>(),
        negation_distributes::<N>(),
        negation_cancels::<N>(),
        division_by_constants::<N>(),
    ensures
        horner(legendre_seq::<N>(n), constant::<N>(1)) == constant::<N>(1),
    decreases n,
{
    let one = constant::<N>(1);
    let zero = constant::<N>(0);
    lemma_constants::<N>(one);
    if n == 1 {
        assert(legendre_seq::<N>(1) == seq![zero, one]);
        assert(legendre_seq::<N>(1).drop_first() =~= seq![one]);
        assert(horner(seq![one], one) == one);
        assert(horner(legendre_seq::<N>(1), one) == one.mul_spec(one).add_spec(zero));
    } else if n >= 2 {
        let i = (n - 1) as nat;
        law_legendre_at_one::<N>(i);
        law_legendre_at_one::<N>((i - 1) as nat);
        lemma_legendre_len::<N>(i);
        lemma_legendre_len::<N>((i - 1) as nat);
        let c_odd = constant::<N>(2 * i + 1);
        let c_i = constant::<N>(i);
        let c_i1 = constant::<N>(i + 1);
        let lin = seq![zero, c_odd];
        let x_term = product_seqs(lin, legendre_seq::<N>(i));
        let prev = scale_seq(legendre_seq::<N>((i - 1) as nat), c_i);
        let diff = sub_seqs(x_term, prev);
        law_evaluate_divide(diff, c_i1, one);
        law_evaluate_sub(x_term, prev, one);
        law_evaluate_mul(lin, legendre_seq::<N>(i), one);
        law_evaluate_scale(legendre_seq::<N>((i - 1) as nat), c_i, one);
        // horner(lin, 1) == c_odd
        assert(horner(lin, one) == horner(seq![c_odd], one).mul_spec(one).add_spec(zero)) by {
            assert(lin.drop_first() =~= seq![c_odd]);
        }
        lemma_mul_comm(c_odd, one);
        lemma_constants::<N>(c_odd);
        lemma_constants::<N>(c_odd.mul_spec(one));
        // c_odd * 1 == c_odd, and 1 * c_i == c_i
        lemma_constants::<N>(c_i);
        // c_odd - c_i == c_i1
        lemma_constant_add::<N>((i + 1) as u32, i as u32);
        assert(c_odd == c_i1.add_spec(c_i));
        lemma_sub_is_add_neg(c_odd, c_i);
        lemma_add_assoc(c_i1, c_i, c_i.neg_spec());
        lemma_neg_cancel(c_i);
        lemma_constants::<N>(c_i1);
        lemma_div_self::<N>((i + 1) as u32);
    }
}


/// The coefficient of `x^k` in `s`: zero past either end.
pub open spec fn coef<N: From<u32>>(s: Seq<N>, k: int) -> N {
    if 0 <= k < s.len() {
        s[k]
    } else {
        constant::<N>(0)
    }
}

/// Zero times anything, and anything times zero, is zero; zero added on either
/// side changes nothing.
proof fn lemma_zero<N: Add<Output = N> + Mul<Output = N> + From<u32>>(a: N)
    requires
        commutative_ring_ops::<N>(),
        integer_constants::<N>(),
    ensures
        constant::<N>(0).mul_spec(a) == constant::<N>(0),
        a.mul_spec(constant::<N>(0)) == constant::<N>(0),
        a.add_spec(constant::<N>(0)) == a,
        constant::<N>(0).add_spec(a) == a,
{
    lemma_constants::<N>(a);
    lemma_mul_comm(a, constant::<N>(0));
    lemma_add_comm(a, constant::<N>(0));
}

/// `a - 0 == a`, `0 - b == -b` and `-0 == 0`.
proof fn lemma_sub_zero<N: Add<Output = N> + Sub<Output = N> + Mul<Output = N> + Neg<Output = N>
    + From<u32>>(a: N)
    requires
        commutative_ring_ops::<N>(),
        integer_constants::<N>(),
        subtraction_adds_negation::<N>(),
        negation_cancels::<N>(),
    ensures
        constant::<N>(0).neg_spec() == constant::<N>(0),
        a.sub_spec(constant::<N>(0)) == a,
        constant::<N>(0).sub_spec(a) == a.neg_spec(),
{
    let z = constant::<N>(0);
    lemma_neg_cancel(z);
    lemma_zero(z.neg_spec());
    lemma_sub_is_add_neg(a, z);
    lemma_zero(a);
    lemma_sub_is_add_neg(z, a);
    lemma_zero(a.neg_spec());
}

/// The coefficients of `(a x) * s` are those of `s` shifted up one power and
/// multiplied by `a`.
proof fn lemma_coef_times_linear<N: Add<Output = N> + Mul<Output = N> + From<u32>>(
    a: N,
    s: Seq<N>,
    k: int,
)
    requires
        s.len() >= 1,
        0 <= k,
        commutative_ring_ops::<N>(),
        integer_constants::<N>(),
    ensures
        coef(product_seqs(seq![constant::<N>(0), a], s), k) == a.mul_spec(coef(s, k - 1)),
{
    let lin = seq![constant::<N>(0), a];
    let m = s.len() as int;
    lemma_zero(a);
    if k == 0 {
        assert(product_low(s, 0) == 0);
        assert(product_high(lin, 0) == 0);
        lemma_zero(s[0]);
    } else if k < m {
        assert(product_low(s, k) == 0);
        assert(product_high(lin, k) == 1);
        assert(product_terms(lin, s, k, 0) == constant::<N>(0).mul_spec(s[k]));
        lemma_zero(s[k]);
        lemma_zero(a.mul_spec(s[k - 1]));
    } else if k == m {
        assert(product_low(s, k) == 1);
        assert(product_high(lin, k) == 1);
    }
}

/// A coefficient of a difference is the difference of the coefficients.
proof fn lemma_coef_sub<N: Add<Output = N> + Sub<Output = N> + Mul<Output = N> + Neg<Output = N>
    + From<u32>>(u: Seq<N>, v: Seq<N>, k: int)
    requires
        0 <= k,
        commutative_ring_ops::<N>(),
        integer_constants::<N>(),
        subtraction_adds_negation::<N>(),
        negation_cancels::<N>(),
    ensures
        coef(sub_seqs(u, v), k) == coef(u, k).sub_spec(coef(v, k)),
{
    lemma_sub_zero(coef(u, k));
    lemma_sub_zero(coef(v, k));
    lemma_sub_zero(constant::<N>(0));
}

/// A coefficient of a scaled polynomial is the scaled coefficient.
proof fn lemma_coef_scale<N: Add<Output = N> + Mul<Output = N> + From<u32>>(s: Seq<N>, f: N, k: int)
    requires
        commutative_ring_ops::<N>(),
        integer_constants::<N>(),
    ensures
        coef(scale_seq(s, f), k) == coef(s, k).mul_spec(f),
{
    lemma_zero(f);
}

/// The physicists' Hermite recurrence, coefficient by coefficient:
/// `H_{n+1}[k] = 2 H_n[k-1] - 2n H_{n-1}[k]`.
pub proof fn law_hermite_recurrence<N: From<u32> + Add<Output = N> + Sub<Output = N> + Mul<
    Output = N,
> + Div<Output = N> + Neg<Output = N>>(n: nat, k: int)
    requires
        1 <= n,
        0 <= k,
        commutative_ring_ops::<N>(),
        integer_constants::<N>(),
        subtraction_adds_negation::<N>(),
        negation_cancels::<N>(),
    ensures
        coef(hermite_seq::<N>(n + 1), k) == constant::<N>(2).mul_spec(
            coef(hermite_seq::<N>(n), k - 1),
        ).sub_spec(
            constant::<N>(2).mul_spec(constant::<N>(n)).mul_spec(coef(hermite_seq::<N>((n - 1) as nat), k)),
        ),
{
    let f = constant::<N>(2).mul_spec(constant::<N>(n));
    let hn = hermite_seq::<N>(n);
    let hp = hermite_seq::<N>((n - 1) as nat);
    lemma_hermite_len::<N>(n);
    lemma_hermite_len::<N>((n - 1) as nat);
    let p = product_seqs(seq![constant::<N>(0), constant::<N>(2)], hn);
    let q = scale_seq(hp, f);
    assert(hermite_seq::<N>(n + 1) == sub_seqs(p, q));
    lemma_coef_times_linear(constant::<N>(2), hn, k);
    lemma_coef_scale(hp, f, k);
    lemma_mul_comm(coef(hp, k), f);
    lemma_coef_sub(p, q, k);
}

/// Bonnet's recurrence, multiplied out, coefficient by coefficient:
/// `(n + 1) P_{n+1}[k] = (2n + 1) P_n[k-1] - n P_{n-1}[k]`.
pub proof fn law_legendre_recurrence<N: From<u32> + Add<Output = N> + Sub<Output = N> + Mul<
    Output = N,
> + Div<Output = N> + Neg<Output = N>>(n: nat, k: int)
    requires
        1 <= n < 0x8000_0000,
        0 <= k,
        commutative_ring_ops::<N>(),
        integer_constants::<N>(),
        subtraction_adds_negation::<N>(),
        negation_cancels::<N>(),
        division_by_constants::<N>(),
    ensures
        constant::<N>(n + 1).mul_spec(coef(legendre_seq::<N>(n + 1), k)) == constant::<N>(
            2 * n + 1,
        ).mul_spec(coef(legendre_seq::<N>(n), k - 1)).sub_spec(
            constant::<N>(n).mul_spec(coef(legendre_seq::<N>((n - 1) as nat), k)),
        ),
{
    let pn = legendre_seq::<N>(n);
    let pp = legendre_seq::<N>((n - 1) as nat);
    lemma_legendre_len::<N>(n);
    lemma_legendre_len::<N>((n - 1) as nat);
    let c = constant::<N>(n + 1);
    let p = product_seqs(seq![constant::<N>(0), constant::<N>(2 * n + 1)], pn);
    let q = scale_seq(pp, constant::<N>(n));
    let d = sub_seqs(p, q);
    assert(legendre_seq::<N>(n + 1) == divide_seq(d, c));
    lemma_coef_times_linear(constant::<N>(2 * n + 1), pn, k);
    lemma_coef_scale(pp, constant::<N>(n), k);
    lemma_mul_comm(coef(pp, k), constant::<N>(n));
    lemma_coef_sub(p, q, k);
    // c * (d[k] / c) == d[k]
    let dk = coef(d, k);
    lemma_div(c, dk, c);
    lemma_div_self::<N>((n + 1) as u32);
    lemma_constants::<N>(dk);
    lemma_mul_comm(c, dk);
    lemma_mul_comm(dk.div_spec(c), c);
    lemma_div(dk, c, c);
    if 0 <= k < d.len() {
        assert(coef(legendre_seq::<N>(n + 1), k) == dk.div_spec(c));
    } else {
        lemma_zero(c);
    }
}


/// `x^k`, as a product of `k` factors `x` after the constant 1.
pub open spec fn power<N: Mul<Output = N> + From<u32>>(x: N, k: nat) -> N
    decreases k,
{
    if k == 0 {
        constant::<N>(1)
    } else {
        power(x, (k - 1) as nat).mul_spec(x)
    }
}

/// `c[0] x^0 + c[1] x^1 + ... + c[m-1] x^(m-1)`, summed from the constant 0.
pub open spec fn power_sum<N: Add<Output = N> + Mul<Output = N> + From<u32>>(
    c: Seq<N>,
    x: N,
    m: nat,
) -> N
    decreases m,
{
    if m == 0 {
        constant::<N>(0)
    } else {
        power_sum(c, x, (m - 1) as nat).add_spec(c[m - 1].mul_spec(power(x, (m - 1) as nat)))
    }
}

/// Splitting off the constant term of a power sum.
proof fn lemma_power_sum_shift<N: Add<Output = N> + Mul<Output = N> + From<u32>>(
    c: Seq<N>,
    x: N,
    m: nat,
)
    requires
        m + 1 <= c.len(),
        commutative_ring_ops::<N>(),
        integer_constants::<N>(),
    ensures
        power_sum(c, x, m + 1) == c[0].add_spec(power_sum(c.drop_first(), x, m).mul_spec(x)),
    decreases m,
{
    let c1 = c.drop_first();
    if m == 0 {
        assert(power_sum(c, x, 0) == constant::<N>(0));
        assert(power_sum(c1, x, 0) == constant::<N>(0));
        assert(power(x, 0) == constant::<N>(1));
        lemma_constants::<N>(c[0]);
        lemma_mul_comm(c[0], constant::<N>(1));
        lemma_zero(c[0]);
        lemma_zero(x);
    } else {
        lemma_power_sum_shift(c, x, (m - 1) as nat);
        let a = power_sum(c1, x, (m - 1) as nat);
        let t = c1[m - 1].mul_spec(power(x, (m - 1) as nat));
        assert(c1[m - 1] == c[m as int]);
        // (a + t) * x == a * x + t * x, and t * x == c[m] * x^m
        lemma_distrib(x, a, t);
        lemma_mul_assoc(c[m as int], power(x, (m - 1) as nat), x);
        lemma_add_assoc(c[0], a.mul_spec(x), t.mul_spec(x));
    }
}

/// Horner's rule computes the power sum `c[0] + c[1] x + ... + c[n-1] x^(n-1)`.
pub proof fn law_horner_is_power_sum<N: Add<Output = N> + Mul<Output = N> + From<u32>>(
    c: Seq<N>,
    x: N,
)
    requires
        c.len() >= 1,
        commutative_ring_ops::<N>(),
        integer_constants::<N>(),
    ensures
        horner(c, x) == power_sum(c, x, c.len()),
    decreases c.len(),
{
    lemma_power_sum_shift(c, x, (c.len() - 1) as nat);
    if c.len() == 1 {
        lemma_zero(x);
        lemma_zero(c[0]);
    } else {
        law_horner_is_power_sum(c.drop_first(), x);
        lemma_add_comm(c[0], horner(c.drop_first(), x).mul_spec(x));
    }
}


/// Power sums over a common prefix agree.
proof fn lemma_power_sum_prefix<N: Add<Output = N> + Mul<Output = N> + From<u32>>(
    u: Seq<N>,
    w: Seq<N>,
    x: N,
    m: nat,
)
    requires
        m <= u.len(),
        m <= w.len(),
        forall|i: int| 0 <= i < m ==> u[i] == w[i],
    ensures
        power_sum(u, x, m) == power_sum(w, x, m),
    decreases m,
{
    if m > 0 {
        lemma_power_sum_prefix(u, w, x, (m - 1) as nat);
    }
}

/// Zero coefficients past `m` add nothing to a power sum.
proof fn lemma_power_sum_zero_tail<N: Add<Output = N> + Mul<Output = N> + From<u32>>(
    t: Seq<N>,
    x: N,
    m: nat,
    big: nat,
)
    requires
        m <= big <= t.len(),
        forall|i: int| m <= i < big ==> t[i] == constant::<N>(0),
        commutative_ring_ops::<N>(),
        integer_constants::<N>(),
    ensures
        power_sum(t, x, big) == power_sum(t, x, m),
    decreases big,
{
    if big > m {
        lemma_power_sum_zero_tail(t, x, m, (big - 1) as nat);
        let y = power(x, (big - 1) as nat);
        lemma_zero(y);
        lemma_zero(power_sum(t, x, (big - 1) as nat));
    }
}

/// Changing one coefficient of a power sum changes it by the difference of the
/// two terms.
proof fn lemma_power_sum_update<N: Add<Output = N> + Mul<Output = N> + From<u32>>(
    u: Seq<N>,
    w: Seq<N>,
    x: N,
    p: nat,
    m: nat,
)
    requires
        p < m <= u.len(),
        m <= w.len(),
        forall|i: int| 0 <= i < m && i != p ==> u[i] == w[i],
        commutative_ring_ops::<N>(),
        integer_constants::<N>(),
    ensures
        power_sum(w, x, m).add_spec(u[p as int].mul_spec(power(x, p))) == power_sum(u, x, m).add_spec(
            w[p as int].mul_spec(power(x, p)),
        ),
    decreases m,
{
    let tu = u[p as int].mul_spec(power(x, p));
    let tw = w[p as int].mul_spec(power(x, p));
    if m == p + 1 {
        lemma_power_sum_prefix(u, w, x, p);
        let a = power_sum(u, x, p);
        lemma_add_assoc(a, tw, tu);
        lemma_add_assoc(a, tu, tw);
        lemma_add_comm(tu, tw);
    } else {
        lemma_power_sum_update(u, w, x, p, (m - 1) as nat);
        let t = u[m - 1].mul_spec(power(x, (m - 1) as nat));
        let pw = power_sum(w, x, (m - 1) as nat);
        let pu = power_sum(u, x, (m - 1) as nat);
        lemma_add_assoc(pw, t, tu);
        lemma_add_comm(t, tu);
        lemma_add_assoc(pw, tu, t);
        lemma_add_assoc(pu, t, tw);
        lemma_add_comm(t, tw);
        lemma_add_assoc(pu, tw, t);
    }
}

/// Setting the coefficient of `x^power` to `c` changes the value of the
/// polynomial by `(c - old coefficient) * x^power`.
pub proof fn law_set_coefficient_value<N: Default + From<u32> + Add<Output = N> + Sub<Output = N>
    + Mul<Output = N> + Neg<Output = N>>(old: Seq<N>, new: Seq<N>, p: nat, c: N, x: N)
    requires
        old.len() >= 1,
        sets_coefficient(old, new, p as int, c),
        default_is_zero::<N>(),
        commutative_ring_ops::<N>(),
        integer_constants::<N>(),
        subtraction_adds_negation::<N>(),
        negation_distributes::<N>(),
        negation_cancels::<N>(),
    ensures
        horner(new, x) == horner(old, x).add_spec(c.sub_spec(coef(old, p as int)).mul_spec(power(x, p))),
{
    let big = new.len();
    let ext = Seq::new(big, |i: int| coef(old, i));
    let small = if old.len() <= big {
        old.len()
    } else {
        big
    };
    assert(small == old.len());
    lemma_power_sum_zero_tail(ext, x, old.len(), big);
    lemma_power_sum_prefix(ext, old, x, old.len());
    assert forall|i: int| 0 <= i < big && i != p implies ext[i] == new[i] by {
        if i >= old.len() {
            assert(is_zero_value(new[i]));
        }
    }
    lemma_power_sum_update(ext, new, x, p, big);
    law_horner_is_power_sum(new, x);
    law_horner_is_power_sum(old, x);
    let h1 = horner(new, x);
    let h = horner(old, x);
    let o = coef(old, p as int);
    let y = power(x, p);
    assert(ext[p as int] == o);
    // h1 + o y == h + c y
    lemma_sub_is_add_neg(c, o);
    lemma_distrib(y, c, o.neg_spec());
    lemma_neg_add(o, y);
    let cy = c.mul_spec(y);
    let oy = o.mul_spec(y);
    lemma_add_assoc(h, cy, oy.neg_spec());
    lemma_add_assoc(h1, oy, oy.neg_spec());
    lemma_neg_cancel(oy);
    lemma_zero(h1);
}


/// `c(a) * c(b) == c(a * b)` for the integer constants.
proof fn lemma_constant_mul<N: Add<Output = N> + Mul<Output = N> + From<u32>>(a: nat, b: nat)
    requires
        a * b <= u32::MAX,
        a <= u32::MAX,
        b <= u32::MAX,
        commutative_ring_ops::<N>(),
        integer_constants::<N>(),
    ensures
        constant::<N>(a).mul_spec(constant::<N>(b)) == constant::<N>(a * b),
    decreases b,
{
    if b == 0 {
        lemma_zero(constant::<N>(a));
        assert(a * b == 0) by (nonlinear_arith)
            requires
                b == 0,
        ;
    } else {
        let b1 = (b - 1) as nat;
        assert(a * b1 <= a * b) by (nonlinear_arith)
            requires
                b1 < b,
        ;
        assert(a * b == a * b1 + a) by (nonlinear_arith)
            requires
                b1 == b - 1,
        ;
        lemma_constant_mul::<N>(a, b1);
        lemma_constant_succ::<N>(b1 as u32);
        lemma_distrib(constant::<N>(a), constant::<N>(b1), constant::<N>(1));
        lemma_constants::<N>(constant::<N>(a));
        lemma_mul_comm(constant::<N>(a), constant::<N>(1));
        lemma_constant_add::<N>((a * b1) as u32, a as u32);
    }
}

/// `u + w == v + w` implies `u == v`.
proof fn lemma_cancel<N: Add<Output = N> + Mul<Output = N> + Neg<Output = N> + From<u32>>(u: N, v: N, w: N)
    requires
        u.add_spec(w) == v.add_spec(w),
        commutative_ring_ops::<N>(),
        integer_constants::<N>(),
        negation_cancels::<N>(),
    ensures
        u == v,
{
    lemma_add_assoc(u, w, w.neg_spec());
    lemma_add_assoc(v, w, w.neg_spec());
    lemma_neg_cancel(w);
    lemma_zero(u);
    lemma_zero(v);
}

/// `a * (b * c) == b * (a * c)`
proof fn lemma_mul_swap<N: Add<Output = N> + Mul<Output = N>>(a: N, b: N, c: N)
    requires
        commutative_ring_ops::<N>(),
    ensures
        a.mul_spec(b.mul_spec(c)) == b.mul_spec(a.mul_spec(c)),
{
    lemma_mul_assoc(a, b, c);
    lemma_mul_comm(a, b);
    lemma_mul_assoc(b, a, c);
}

/// `x == t - u` gives `x + u == t`.
proof fn lemma_sub_to_add<N: Add<Output = N> + Sub<Output = N> + Mul<Output = N> + Neg<Output = N>
    + From<u32>>(x: N, t: N, u: N)
    requires
        x == t.sub_spec(u),
        commutative_ring_ops::<N>(),
        integer_constants::<N>(),
        subtraction_adds_negation::<N>(),
        negation_cancels::<N>(),
    ensures
        x.add_spec(u) == t,
{
    lemma_sub_is_add_neg(t, u);
    lemma_add_assoc(t, u.neg_spec(), u);
    lemma_neg_cancel(u);
    lemma_add_comm(u.neg_spec(), u);
    lemma_zero(t);
}

/// The algebra of one step of `H_{n+1}' = 2(n+1) H_n`, coefficient `j`:
/// from the recurrences for `H_{n+1}` and `H_n` and the identity for `H_n` and
/// `H_{n-1}`, the identity for `H_{n+1}`.
proof fn lemma_hermite_derivative_algebra<N: Add<Output = N> + Mul<Output = N> + Neg<Output = N>
    + From<u32>>(n: nat, j: nat, rp: N, a: N, b: N, c: N, e: N)
    requires
        1 <= n,
        2 * n + 2 <= u32::MAX,
        j <= n,
        commutative_ring_ops::<N>(),
        integer_constants::<N>(),
        negation_cancels::<N>(),
        rp.add_spec(constant::<N>(2).mul_spec(constant::<N>(n)).mul_spec(b)) == constant::<N>(2).mul_spec(a),
        a.add_spec(constant::<N>(2).mul_spec(constant::<N>((n - 1) as nat)).mul_spec(e)) == constant::<N>(
            2,
        ).mul_spec(c),
        constant::<N>(j).mul_spec(a) == constant::<N>(2 * n).mul_spec(c),
        constant::<N>(j + 1).mul_spec(b) == constant::<N>((2 * (n - 1)) as nat).mul_spec(e),
    ensures
        constant::<N>(j + 1).mul_spec(rp) == constant::<N>(2 * (n + 1)).mul_spec(a),
{
    let t = constant::<N>(2);
    let kn = constant::<N>(n);
    let kn1 = constant::<N>((n - 1) as nat);
    let kj = constant::<N>(j);
    let kj1 = constant::<N>(j + 1);
    let k1 = constant::<N>(1);
    let tkn = t.mul_spec(kn);
    let tkn1 = t.mul_spec(kn1);
    lemma_constant_mul::<N>(2, n);
    lemma_constant_mul::<N>(2, (n - 1) as nat);
    lemma_constant_mul::<N>(2, n + 1);
    // y := tkn * (tkn1 * e)
    let y = tkn.mul_spec(tkn1.mul_spec(e));
    // E2: kj1 * rp + kj1 * (tkn * b) == kj1 * (t * a), and kj1 * (tkn * b) == y
    lemma_distrib(kj1, rp, tkn.mul_spec(b));
    lemma_mul_swap(kj1, tkn, b);
    assert(kj1.mul_spec(tkn.mul_spec(b)) == y);
    let lhs2 = kj1.mul_spec(rp);
    assert(lhs2.add_spec(y) == kj1.mul_spec(t.mul_spec(a)));
    // E1: tkn * a + y == t * (kj * a)
    lemma_distrib(tkn, a, tkn1.mul_spec(e));
    lemma_mul_swap(tkn, t, c);
    assert(tkn.mul_spec(a).add_spec(y) == t.mul_spec(kj.mul_spec(a)));
    // kj1 * (t * a) == t * (kj * a) + t * a
    lemma_mul_swap(kj1, t, a);
    lemma_constant_succ::<N>(j as u32);
    lemma_distrib(a, kj, k1);
    lemma_constants::<N>(a);
    lemma_distrib(t, kj.mul_spec(a), a);
    let p = t.mul_spec(kj.mul_spec(a));
    let ta = t.mul_spec(a);
    let q = tkn.mul_spec(a);
    assert(kj1.mul_spec(t.mul_spec(a)) == p.add_spec(ta));
    // (lhs2 + y) + q == (p + ta) + q, rearranged to lhs2 + p == (ta + q) + p
    lemma_add_assoc(lhs2, y, q);
    lemma_add_comm(y, q);
    lemma_add_assoc(p, ta, q);
    lemma_add_comm(p, ta.add_spec(q));
    assert(lhs2.add_spec(p) == ta.add_spec(q).add_spec(p));
    lemma_cancel(lhs2, ta.add_spec(q), p);
    // ta + q == t * (k(n + 1) * a) == k(2n + 2) * a
    lemma_mul_assoc(t, kn, a);
    lemma_distrib(t, a, kn.mul_spec(a));
    lemma_constant_succ::<N>(n as u32);
    lemma_add_comm(kn, k1);
    lemma_distrib(a, k1, kn);
    lemma_mul_comm(a, k1);
    lemma_mul_comm(a, kn);
    lemma_mul_comm(a, constant::<N>(n + 1));
    lemma_mul_assoc(t, constant::<N>(n + 1), a);
}


/// `(j + 1) H_m[j + 1] == 2m H_{m-1}[j]`, coefficient by coefficient.
proof fn lemma_hermite_derivative_coef<N: From<u32> + Add<Output = N> + Sub<Output = N> + Mul<
    Output = N,
> + Div<Output = N> + Neg<Output = N>>(m: nat, j: int)
    requires
        2 * m + 2 <= u32::MAX,
        -1 <= j <= m,
        commutative_ring_ops::<N>(),
        integer_constants::<N>(),
        subtraction_adds_negation::<N>(),
        negation_cancels::<N>(),
    ensures
        constant::<N>((j + 1) as nat).mul_spec(coef(hermite_seq::<N>(m), j + 1)) == constant::<N>(
            2 * m,
        ).mul_spec(coef(hermite_seq::<N>((m - 1) as nat), j)),
    decreases m,
{
    let z = constant::<N>(0);
    lemma_hermite_len::<N>(m);
    lemma_hermite_len::<N>((m - 1) as nat);
    lemma_zero(coef(hermite_seq::<N>(m), j + 1));
    lemma_zero(constant::<N>(2 * m));
    lemma_zero(constant::<N>((j + 1) as nat));
    lemma_zero(coef(hermite_seq::<N>((m - 1) as nat), j));
    if j == -1 || j == m || m == 0 {
        assert(constant::<N>((j + 1) as nat).mul_spec(coef(hermite_seq::<N>(m), j + 1)) == z);
        assert(constant::<N>(2 * m).mul_spec(coef(hermite_seq::<N>((m - 1) as nat), j)) == z);
    } else if m == 1 {
        // H_1 = [0, 2], H_0 = [1]; j == 0
        assert(hermite_seq::<N>(1) == seq![z, constant::<N>(2)]);
        assert(hermite_seq::<N>(0) == seq![constant::<N>(1)]);
        lemma_constants::<N>(constant::<N>(2));
        lemma_mul_comm(constant::<N>(2), constant::<N>(1));
    } else {
        let n = (m - 1) as nat;
        let jj = j as nat;
        let t = constant::<N>(2);
        let hm = hermite_seq::<N>(m);
        let hn = hermite_seq::<N>(n);
        let hp = hermite_seq::<N>((n - 1) as nat);
        let hq = hermite_seq::<N>((n - 1 - 1) as nat);
        lemma_hermite_len::<N>((n - 1) as nat);
        lemma_hermite_len::<N>((n - 1 - 1) as nat);
        let rp = coef(hm, j + 1);
        let a = coef(hn, j);
        let b = coef(hp, j + 1);
        let c = coef(hp, j - 1);
        let e = coef(hq, j);
        // the recurrence for H_m = H_{n+1}
        law_hermite_recurrence::<N>(n, j + 1);
        assert(n + 1 == m);
        lemma_sub_to_add(rp, t.mul_spec(a), t.mul_spec(constant::<N>(n)).mul_spec(b));
        // the recurrence for H_n
        if n >= 2 {
            law_hermite_recurrence::<N>((n - 1) as nat, j);
            assert((n - 1) as nat + 1 == n);
            lemma_sub_to_add(a, t.mul_spec(c), t.mul_spec(constant::<N>((n - 1) as nat)).mul_spec(e));
        } else {
            // H_1 = [0, 2] and H_0 = [1]
            assert(hn == seq![z, t]);
            assert(hp == seq![constant::<N>(1)]);
            lemma_zero(t);
            lemma_zero(e);
            lemma_zero(a);
            lemma_constants::<N>(t);
            lemma_mul_comm(t, constant::<N>(1));
        }
        // the identity for H_n, one coefficient lower
        lemma_hermite_derivative_coef::<N>(n, j - 1);
        // the identity for H_{n-1}
        if j <= n - 1 {
            lemma_hermite_derivative_coef::<N>((n - 1) as nat, j);
        } else {
            lemma_zero(constant::<N>((2 * (n - 1)) as nat));
            lemma_zero(constant::<N>(jj + 1));
        }
        assert(2 * (n - 1) == 2 * ((n - 1) as nat));
        lemma_hermite_derivative_algebra::<N>(n, jj, rp, a, b, c, e);
    }
}

/// The physicists' Hermite polynomials differentiate as `H_n' = 2n H_{n-1}`.
pub proof fn law_hermite_derivative<N: From<u32> + Add<Output = N> + Sub<Output = N> + Mul<
    Output = N,
> + Div<Output = N> + Neg<Output = N>>(n: nat)
    requires
        1 <= n,
        2 * n + 2 <= u32::MAX,
        commutative_ring_ops::<N>(),
        integer_constants::<N>(),
        subtraction_adds_negation::<N>(),
        negation_cancels::<N>(),
    ensures
        derivative_coefficients(hermite_seq::<N>(n)) == scale_seq(
            hermite_seq::<N>((n - 1) as nat),
            constant::<N>(2 * n),
        ),
{
    let hn = hermite_seq::<N>(n);
    let hp = hermite_seq::<N>((n - 1) as nat);
    lemma_hermite_len::<N>(n);
    lemma_hermite_len::<N>((n - 1) as nat);
    assert forall|j: int| 0 <= j < n implies #[trigger] derivative_coefficients(hn)[j] == scale_seq(
        hp,
        constant::<N>(2 * n),
    )[j] by {
        lemma_hermite_derivative_coef::<N>(n, j);
        lemma_mul_comm(hp[j], constant::<N>(2 * n));
    }
    assert(derivative_coefficients(hn) =~= scale_seq(hp, constant::<N>(2 * n)));
}


/// `2^n`, by doubling.
spec fn doubling(n: nat) -> nat
    decreases n,
{
    if n == 0 {
        1
    } else {
        2 * doubling((n - 1) as nat)
    }
}

/// `C(n, k) <= 2^n`.
proof fn lemma_binomial_bound(n: nat, k: nat)
    ensures
        binomial(n, k) <= doubling(n),
    decreases n,
{
    if k > 0 && n > 0 {
        lemma_binomial_bound((n - 1) as nat, (k - 1) as nat);
        lemma_binomial_bound((n - 1) as nat, k);
    } else if n > 0 {
        lemma_binomial_bound((n - 1) as nat, k);
    }
}

/// Absorption: `k C(n, k) == n C(n - 1, k - 1)`.
proof fn lemma_binomial_absorb(n: nat, k: nat)
    requires
        1 <= k,
        1 <= n,
    ensures
        k * binomial(n, k) == n * binomial((n - 1) as nat, (k - 1) as nat),
    decreases n,
{
    if n == 1 {
        assert(binomial(0, 0) == 1);
        if k >= 2 {
            lemma_binomial_zero(0, (k - 1) as nat);
            lemma_binomial_zero(0, k);
            assert(binomial(1, k) == 0);
            assert(k * 0 == 0) by (nonlinear_arith);
        } else {
            assert(binomial(0, 1) == 0);
            assert(binomial(1, 1) == 1);
        }
    } else if k == 1 {
        let m = (n - 1) as nat;
        lemma_binomial_absorb(m, 1);
        assert(binomial(m, 0) == 1);
        assert(binomial((m - 1) as nat, 0) == 1);
        let b = binomial(m, 1);
        assert(b == m) by (nonlinear_arith)
            requires
                1 * b == m * 1,
        ;
        assert(binomial(n, 1) == binomial(m, 0) + b);
        assert(1 * binomial(n, 1) == n * binomial(m, 0)) by (nonlinear_arith)
            requires
                binomial(n, 1) == 1 + b,
                b == m,
                n == m + 1,
                binomial(m, 0) == 1,
        ;
    } else {
        let m = (n - 1) as nat;
        lemma_binomial_absorb(m, (k - 1) as nat);
        lemma_binomial_absorb(m, k);
        let a = binomial(m, (k - 1) as nat);
        let b = binomial(m, k);
        let c = binomial((m - 1) as nat, (k - 2) as nat);
        let d = binomial((m - 1) as nat, (k - 1) as nat);
        assert(binomial(n, k) == a + b);
        assert(a == c + d);
        assert(k * (a + b) == n * a) by (nonlinear_arith)
            requires
                (k - 1) * a == m * c,
                k * b == m * d,
                a == c + d,
                n == m + 1,
        ;
    }
}

/// The integer form of the Laguerre recurrence, for `k >= 1`:
/// `(n + 1) C(n + 1, k) + n C(n - 1, k) == (2n + 1) C(n, k) + k C(n, k - 1)`.
proof fn lemma_laguerre_integers(n: nat, k: nat)
    requires
        1 <= n,
        1 <= k,
    ensures
        (n + 1) * binomial(n + 1, k) + n * binomial((n - 1) as nat, k) == (2 * n + 1) * binomial(n, k)
            + k * binomial(n, (k - 1) as nat),
{
    lemma_binomial_absorb(n, k);
    lemma_binomial_absorb(n + 1, k);
    let a = binomial(n, (k - 1) as nat);
    let b = binomial(n, k);
    let c = binomial((n - 1) as nat, (k - 1) as nat);
    let d = binomial((n - 1) as nat, k);
    let e = binomial(n + 1, k);
    assert(e == a + b);
    assert(b == c + d);
    assert((n + 1) * e + n * d == (2 * n + 1) * b + k * a) by (nonlinear_arith)
        requires
            e == a + b,
            b == c + d,
            k * b == n * c,
            k * e == (n + 1) * a,
    ;
}


/// `doubling` grows with its argument.
proof fn lemma_doubling_monotone(i: nat, j: nat)
    requires
        i <= j,
    ensures
        doubling(i) <= doubling(j),
    decreases j,
{
    if i < j {
        lemma_doubling_monotone(i, (j - 1) as nat);
    }
}

/// `C(m, k) <= 4096` for `m <= 12`.
proof fn lemma_small_binomial(m: nat, k: nat)
    requires
        m <= 12,
    ensures
        binomial(m, k) <= 4096,
{
    lemma_binomial_bound(m, k);
    lemma_doubling_monotone(m, 12);
    reveal_with_fuel(doubling, 13);
}

/// `1 <= k! <= u32::MAX` for `k <= 12`.
proof fn lemma_small_fact(k: nat)
    requires
        k <= 12,
    ensures
        1 <= fact(k) <= u32::MAX,
{
    lemma_fact_monotone(k, 12);
    assert(fact(0) == 1);
    assert(fact(1) == 1);
    assert(fact(2) == 2);
    assert(fact(3) == 6);
    assert(fact(4) == 24);
    assert(fact(5) == 120);
    assert(fact(6) == 720);
    assert(fact(7) == 5040);
    assert(fact(8) == 40320);
    assert(fact(9) == 362880);
    assert(fact(10) == 3628800);
    assert(fact(11) == 39916800);
    assert(fact(12) == 479001600);
}

/// A Laguerre coefficient shape: `a / k! * (-1)^k` in the coefficient type.
spec fn lag_term<N: From<u32> + Mul<Output = N> + Div<Output = N> + Neg<Output = N>>(
    a: nat,
    k: nat,
) -> N {
    constant::<N>(a).div_spec(constant::<N>(fact(k))).mul_spec(alternating_sign::<N>(k))
}

/// `0 / k! * (-1)^k == 0`.
proof fn lemma_lag_zero<N: From<u32> + Add<Output = N> + Sub<Output = N> + Mul<
    Output = N,
> + Div<Output = N> + Neg<Output = N>>(k: nat)
    requires
        k <= 12,
        commutative_ring_ops::<N>(),
        integer_constants::<N>(),
        division_by_constants::<N>(),
    ensures
        lag_term::<N>(0, k) == constant::<N>(0),
{
    let f = constant::<N>(fact(k));
    let z = constant::<N>(0);
    lemma_small_fact(k);
    lemma_div(f, z, f);
    lemma_zero(f);
    lemma_div_self::<N>(fact(k) as u32);
    lemma_zero(f.div_spec(f));
    lemma_zero(alternating_sign::<N>(k));
}

/// `m * (a / k! * s) == (m a) / k! * s`.
proof fn lemma_lag_scale<N: From<u32> + Add<Output = N> + Sub<Output = N> + Mul<
    Output = N,
> + Div<Output = N> + Neg<Output = N>>(m: nat, a: nat, k: nat)
    requires
        k <= 12,
        m * a <= u32::MAX,
        m <= u32::MAX,
        a <= u32::MAX,
        commutative_ring_ops::<N>(),
        integer_constants::<N>(),
        division_by_constants::<N>(),
    ensures
        constant::<N>(m).mul_spec(lag_term::<N>(a, k)) == lag_term::<N>(m * a, k),
{
    let f = constant::<N>(fact(k));
    let s = alternating_sign::<N>(k);
    let ca = constant::<N>(a);
    let cm = constant::<N>(m);
    let q = ca.div_spec(f);
    lemma_mul_assoc(cm, q, s);
    lemma_mul_comm(cm, q);
    lemma_div(ca, cm, f);
    assert(a * m == m * a) by (nonlinear_arith);
    lemma_constant_mul::<N>(a, m);
}

/// `a / k! * s + b / k! * s == (a + b) / k! * s`.
proof fn lemma_lag_add<N: From<u32> + Add<Output = N> + Sub<Output = N> + Mul<
    Output = N,
> + Div<Output = N> + Neg<Output = N>>(a: nat, b: nat, k: nat)
    requires
        k <= 12,
        a + b <= u32::MAX,
        commutative_ring_ops::<N>(),
        integer_constants::<N>(),
        division_by_constants::<N>(),
    ensures
        lag_term::<N>(a, k).add_spec(lag_term::<N>(b, k)) == lag_term::<N>(a + b, k),
{
    let f = constant::<N>(fact(k));
    let s = alternating_sign::<N>(k);
    let x = constant::<N>(a).div_spec(f);
    let y = constant::<N>(b).div_spec(f);
    lemma_div(constant::<N>(a), constant::<N>(b), f);
    lemma_constant_add::<N>(a as u32, b as u32);
    lemma_distrib(s, x, y);
    lemma_mul_comm(s, x);
    lemma_mul_comm(s, y);
    lemma_mul_comm(s, x.add_spec(y));
}

/// `--a == a`.
proof fn lemma_neg_neg<N: Add<Output = N> + Mul<Output = N> + Neg<Output = N> + From<u32>>(a: N)
    requires
        commutative_ring_ops::<N>(),
        integer_constants::<N>(),
        negation_cancels::<N>(),
    ensures
        a.neg_spec().neg_spec() == a,
{
    let na = a.neg_spec();
    lemma_neg_cancel(a);
    lemma_neg_cancel(na);
    lemma_add_comm(a, na);
    lemma_add_comm(na.neg_spec(), na);
    lemma_cancel(na.neg_spec(), a, na);
}

/// One power lower: `a / (k-1)! * (-1)^(k-1) == -((k a) / k! * (-1)^k)`.
proof fn lemma_lag_shift<N: From<u32> + Add<Output = N> + Sub<Output = N> + Mul<
    Output = N,
> + Div<Output = N> + Neg<Output = N>>(a: nat, k: nat)
    requires
        1 <= k <= 12,
        k * a <= u32::MAX,
        a <= u32::MAX,
        commutative_ring_ops::<N>(),
        integer_constants::<N>(),
        negation_distributes::<N>(),
        negation_cancels::<N>(),
        division_by_constants::<N>(),
        division_by_products::<N>(),
    ensures
        lag_term::<N>(a, (k - 1) as nat) == lag_term::<N>(k * a, k).neg_spec(),
{
    let k1 = (k - 1) as nat;
    lemma_small_fact(k);
    lemma_small_fact(k1);
    assert(fact(k) == k * fact(k1));
    let ck = constant::<N>(k);
    let ca = constant::<N>(a);
    let x = constant::<N>(k * a);
    let f1 = constant::<N>(fact(k1));
    assert((k as u32) * (fact(k1) as u32) == fact(k));
    lemma_div_product::<N>(x, k as u32, fact(k1) as u32);
    lemma_constant_mul::<N>(k, a);
    lemma_div(ck, ca, ck);
    lemma_div_self::<N>(k as u32);
    lemma_constants::<N>(ca);
    assert(x.div_spec(ck) == ca);
    let q = ca.div_spec(f1);
    assert(x.div_spec(constant::<N>(fact(k))) == q);
    let one = constant::<N>(1);
    lemma_constants::<N>(q);
    lemma_mul_comm(q, one);
    lemma_neg_add(one, q);
    lemma_mul_comm(q, one.neg_spec());
    if k % 2 == 1 {
        lemma_neg_neg(q);
    }
}

/// Every coefficient of `L_m` up to `x^12` has the shape `C(m, k) / k! * (-1)^k`
/// (zero beyond the degree).
proof fn lemma_coef_is_lag_term<N: From<u32> + Add<Output = N> + Sub<Output = N> + Mul<
    Output = N,
> + Div<Output = N> + Neg<Output = N>>(m: nat, k: nat)
    requires
        k <= 12,
        commutative_ring_ops::<N>(),
        integer_constants::<N>(),
        division_by_constants::<N>(),
    ensures
        coef(laguerre_seq::<N>(m), k as int) == lag_term::<N>(binomial(m, k), k),
{
    if k > m {
        lemma_binomial_zero(m, k);
        lemma_lag_zero::<N>(k);
    }
}

/// The three-term recurrence of the Laguerre polynomials, coefficient by
/// coefficient: `(n + 1) L_{n+1}[k] = (2n + 1) L_n[k] - L_n[k-1] - n L_{n-1}[k]`,
/// for the degrees that `laguerre` builds.
pub proof fn law_laguerre_recurrence<N: From<u32> + Add<Output = N> + Sub<Output = N> + Mul<
    Output = N,
> + Div<Output = N> + Neg<Output = N>>(n: nat, k: int)
    requires
        1 <= n,
        n + 1 <= 12,
        0 <= k,
        commutative_ring_ops::<N>(),
        integer_constants::<N>(),
        subtraction_adds_negation::<N>(),
        negation_distributes::<N>(),
        negation_cancels::<N>(),
        division_by_constants::<N>(),
        division_by_products::<N>(),
    ensures
        constant::<N>(n + 1).mul_spec(coef(laguerre_seq::<N>(n + 1), k)) == constant::<N>(
            2 * n + 1,
        ).mul_spec(coef(laguerre_seq::<N>(n), k)).sub_spec(coef(laguerre_seq::<N>(n), k - 1)).sub_spec(
            constant::<N>(n).mul_spec(coef(laguerre_seq::<N>((n - 1) as nat), k)),
        ),
{
    let z = constant::<N>(0);
    let l = laguerre_seq::<N>(n);
    let c1 = constant::<N>(n + 1);
    let c2 = constant::<N>(2 * n + 1);
    let c0 = constant::<N>(n);
    if k > n + 1 {
        lemma_zero(c1);
        lemma_zero(c2);
        lemma_zero(c0);
        lemma_sub_zero(z);
    } else {
        let kk = k as nat;
        let m = (n - 1) as nat;
        lemma_coef_is_lag_term::<N>(n + 1, kk);
        lemma_coef_is_lag_term::<N>(n, kk);
        lemma_coef_is_lag_term::<N>(m, kk);
        let b1 = binomial(n + 1, kk);
        let b = binomial(n, kk);
        let bm = binomial(m, kk);
        lemma_small_binomial(n + 1, kk);
        lemma_small_binomial(n, kk);
        lemma_small_binomial(m, kk);
        let a_int = (n + 1) * b1;
        let b_int = (2 * n + 1) * b;
        let d_int = n * bm;
        assert(a_int <= 12 * 4096 && b_int <= 23 * 4096 && d_int <= 11 * 4096) by (nonlinear_arith)
            requires
                n + 1 <= 12,
                b1 <= 4096,
                b <= 4096,
                bm <= 4096,
                a_int == (n + 1) * b1,
                b_int == (2 * n + 1) * b,
                d_int == n * bm,
        ;
        lemma_lag_scale::<N>(n + 1, b1, kk);
        lemma_lag_scale::<N>(2 * n + 1, b, kk);
        lemma_lag_scale::<N>(n, bm, kk);
        let e_int: nat = if kk == 0 {
            0
        } else {
            kk * binomial(n, (kk - 1) as nat)
        };
        if kk == 0 {
            lemma_lag_zero::<N>(0);
            lemma_sub_zero(z);
            assert(binomial(n + 1, 0) == 1 && binomial(n, 0) == 1 && binomial(m, 0) == 1);
            assert(a_int + d_int == b_int + e_int) by (nonlinear_arith)
                requires
                    b1 == 1,
                    b == 1,
                    bm == 1,
                    e_int == 0,
                    a_int == (n + 1) * b1,
                    b_int == (2 * n + 1) * b,
                    d_int == n * bm,
            ;
        } else {
            let bk = binomial(n, (kk - 1) as nat);
            lemma_small_binomial(n, (kk - 1) as nat);
            assert(e_int <= 12 * 4096) by (nonlinear_arith)
                requires
                    kk <= 12,
                    bk <= 4096,
                    e_int == kk * bk,
            ;
            lemma_lag_shift::<N>(bk, kk);
            lemma_coef_is_lag_term::<N>(n, (kk - 1) as nat);
            lemma_laguerre_integers(n, kk);
        }
        let x = lag_term::<N>(a_int, kk);
        let y = lag_term::<N>(b_int, kk);
        let e = lag_term::<N>(e_int, kk);
        let w = lag_term::<N>(d_int, kk);
        assert(coef(l, k - 1) == e.neg_spec());
        lemma_lag_add::<N>(a_int, d_int, kk);
        lemma_lag_add::<N>(b_int, e_int, kk);
        assert(x.add_spec(w) == y.add_spec(e));
        lemma_sub_is_add_neg(y, e.neg_spec());
        lemma_neg_neg(e);
        lemma_sub_is_add_neg(y.add_spec(e), w);
        lemma_add_assoc(x, w, w.neg_spec());
        lemma_neg_cancel(w);
        lemma_zero(x);
    }
}


/// Subtracting `b` undoes adding it: `(a + b) - b` has as many coefficients as
/// the longer of `a` and `b`, and its coefficients are those of `a` (zero past
/// the end of `a`).
pub proof fn law_sub_undoes_add<N: From<u32> + Add<Output = N> + Sub<Output = N> + Mul<
    Output = N,
> + Neg<Output = N>>(a: Seq<N>, b: Seq<N>, k: int)
    requires
        commutative_ring_ops::<N>(),
        integer_constants::<N>(),
        subtraction_adds_negation::<N>(),
        negation_cancels::<N>(),
    ensures
        sub_seqs(add_seqs(a, b), b).len() == if a.len() >= b.len() {
            a.len()
        } else {
            b.len()
        },
        coef(sub_seqs(add_seqs(a, b), b), k) == coef(a, k),
{
    let s = add_seqs(a, b);
    let d = sub_seqs(s, b);
    if 0 <= k < a.len() && k < b.len() {
        lemma_sub_is_add_neg(s[k], b[k]);
        lemma_add_assoc(a[k], b[k], b[k].neg_spec());
        lemma_neg_cancel(b[k]);
        lemma_zero(a[k]);
    } else if a.len() <= k < b.len() && 0 <= k {
        lemma_sub_is_add_neg(b[k], b[k]);
        lemma_neg_cancel(b[k]);
    }
}

/// Dividing by a value other than zero undoes multiplying by it:
/// `(p * c) / c == p`.
pub proof fn law_divide_undoes_scale<N: From<u32> + Mul<Output = N> + Div<Output = N>>(p: Seq<N>, c: N)
    requires
        c != constant::<N>(0),
        division_undoes_multiplication::<N>(),
    ensures
        divide_seq(scale_seq(p, c), c) == p,
{
    assert forall|i: int| 0 <= i < p.len() implies #[trigger] divide_seq(scale_seq(p, c), c)[i] == p[i] by {
        lemma_mul_div_cancel(p[i], c);
    }
    assert(divide_seq(scale_seq(p, c), c) =~= p);
}

} // verus!
