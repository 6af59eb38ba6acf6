//! What each operation computes for every coefficient type, the floating-point
//! ones included, stated with the coefficient type's own operator calls: the
//! result of each operation is reached by exactly the conversions and
//! operations that the recurrence or rule names, each giving one of its
//! possible values. For exact types `laws` states the values themselves; these
//! laws pin down, for every type, which operations on which operands produce
//! them.
use vstd::prelude::*;
use core::ops::{Add, Sub, Mul, Div, Neg};
use crate::polynomial::{
    sum_of,
    difference_of,
    product_of,
    quotient_of,
    negation_of,
    converts_to,
    horner_trace,
    horner_result,
    derivative_trace,
    derivative_result,
    convolution_trace,
    convolution_result,
    power_times,
    product_result,
    scaled_result,
    divided_result,
    difference_result,
    product_low,
    product_high,
};
use crate::special::{
    legendre_step_with,
    legendre_step,
    legendre_step_at,
    legendre_run,
    legendre_result,
    hermite_step_with,
    hermite_step,
    hermite_step_at,
    hermite_run,
    hermite_result,
    laguerre_term_with,
    laguerre_term,
    binomial,
    fact,
};

verus! {

/// The scalar relations that the contracts use are the operator calls
/// themselves: `r` may be `a + b`, `a - b`, `a * b`, `a / b`, `-a` or
/// `N::from(v)` exactly when the call with those operands may return `r`.
pub proof fn law_scalar_relations_are_calls<N: From<u32> + Add<Output = N> + Sub<Output = N> + Mul<
    Output = N,
> + Div<Output = N> + Neg<Output = N>>(a: N, b: N, r: N, v: u32)
    ensures
        sum_of(a, b, r) == call_ensures(<N as Add>::add, (a, b), r),
        difference_of(a, b, r) == call_ensures(<N as Sub>::sub, (a, b), r),
        product_of(a, b, r) == call_ensures(<N as Mul>::mul, (a, b), r),
        quotient_of(a, b, r) == call_ensures(<N as Div>::div, (a, b), r),
        negation_of(a, r) == call_ensures(<N as Neg>::neg, (a,), r),
        converts_to(v, r) == call_ensures(<N as From<u32>>::from, (v,), r),
{
}

/// Each coefficient of `derivative()`, as its contract states it, is the
/// product of a value of `N::from(i)` itself with the coefficient of `x^i`.
pub proof fn law_derivative_coefficient<N: From<u32> + Mul<Output = N>>(i: u32, c: N, t: N)
    requires
        power_times(i, c, t),
    ensures
        exists|k: N|
            #[trigger] call_ensures(<N as From<u32>>::from, (i,), k) && call_ensures(
                <N as Mul>::mul,
                (k, c),
                t,
            ),
{
    let k = choose|k: N| #[trigger] converts_to(i, k) && product_of(k, c, t);
    assert(call_ensures(<N as From<u32>>::from, (i,), k));
}

/// `s` and `t` carry out the sum for the coefficient of `x^k` in the product of
/// `a` and `b`: for each index `i` of `a` from the lowest to the highest that
/// contributes, `t[i]` is a value of `a[i] * b[k - i]`; `s` starts at the first
/// term and each later `s[i]` is a value of `s[i - 1] + t[i]`.
pub open spec fn sums_product_coefficient<N: Add<Output = N> + Mul<Output = N>>(
    a: Seq<N>,
    b: Seq<N>,
    k: int,
    s: Seq<N>,
    t: Seq<N>,
) -> bool {
    let lo = if k < b.len() {
        0
    } else {
        k - b.len() + 1
    };
    let hi = if k < a.len() {
        k
    } else {
        a.len() - 1
    };
    &&& s.len() == a.len()
    &&& t.len() == a.len()
    &&& forall|i: int| lo <= i <= hi ==> call_ensures(<N as Mul>::mul, (a[i], b[k - i]), #[trigger] t[i])
    &&& s[lo] == t[lo]
    &&& forall|i: int| lo < i <= hi ==> call_ensures(<N as Add>::add, (s[i - 1], #[trigger] t[i]), s[i])
}

/// `v` may be the coefficient of `x^k` in the product of `a` and `b`: the last
/// partial sum of such a run.
pub open spec fn may_be_product_coefficient<N: Add<Output = N> + Mul<Output = N>>(
    a: Seq<N>,
    b: Seq<N>,
    k: int,
    v: N,
) -> bool {
    exists|s: Seq<N>, t: Seq<N>|
        #[trigger] sums_product_coefficient(a, b, k, s, t) && v == s[if k < a.len() {
            k
        } else {
            a.len() - 1
        }]
}

/// `r` may be the product of the nonempty `a` and `b`.
pub open spec fn may_be_product<N: Add<Output = N> + Mul<Output = N>>(
    a: Seq<N>,
    b: Seq<N>,
    r: Seq<N>,
) -> bool {
    &&& r.len() == a.len() + b.len() - 1
    &&& forall|k: int| 0 <= k < r.len() ==> #[trigger] may_be_product_coefficient(a, b, k, r[k])
}

/// `r` may be `a` with every coefficient multiplied by `c`.
pub open spec fn may_be_scaled<N: Mul<Output = N>>(a: Seq<N>, c: N, r: Seq<N>) -> bool {
    &&& r.len() == a.len()
    &&& forall|i: int| 0 <= i < a.len() ==> call_ensures(<N as Mul>::mul, (a[i], c), #[trigger] r[i])
}

/// `r` may be `a` with every coefficient divided by `c`.
pub open spec fn may_be_divided<N: Div<Output = N>>(a: Seq<N>, c: N, r: Seq<N>) -> bool {
    &&& r.len() == a.len()
    &&& forall|i: int| 0 <= i < a.len() ==> call_ensures(<N as Div>::div, (a[i], c), #[trigger] r[i])
}

/// `r` may be `a - b`, coefficient by coefficient, as long as the longer of the
/// two: differences where both have a coefficient, `a`'s own coefficients
/// past the end of `b`, and negated coefficients of `b` past the end of `a`.
pub open spec fn may_be_difference<N: Sub<Output = N> + Neg<Output = N>>(
    a: Seq<N>,
    b: Seq<N>,
    r: Seq<N>,
) -> bool {
    &&& r.len() == if a.len() >= b.len() {
        a.len()
    } else {
        b.len()
    }
    &&& forall|i: int|
        0 <= i < a.len() && i < b.len() ==> call_ensures(<N as Sub>::sub, (a[i], b[i]), #[trigger] r[i])
    &&& forall|i: int| b.len() <= i < a.len() ==> #[trigger] r[i] == a[i]
    &&& forall|i: int| a.len() <= i < b.len() ==> call_ensures(<N as Neg>::neg, (b[i],), #[trigger] r[i])
}

/// A coefficient of a product, as the contracts of the product state it, is
/// the sum of the products `a[i] * b[k - i]` over the contributing indices,
/// added lowest index first.
pub proof fn law_product_coefficient<N: Add<Output = N> + Mul<Output = N>>(
    a: Seq<N>,
    b: Seq<N>,
    k: int,
    v: N,
)
    requires
        convolution_result(a, b, k, v),
    ensures
        may_be_product_coefficient(a, b, k, v),
{
    let (s, t) = choose|s: Seq<N>, t: Seq<N>|
        #[trigger] convolution_trace(a, b, k, s, t) && v == s[product_high(a, k)];
    assert(product_low(b, k) == (if k < b.len() {
        0
    } else {
        k - b.len() + 1
    }));
    assert(sums_product_coefficient(a, b, k, s, t));
}

/// A whole product, as the contracts state it, has `len(a) + len(b) - 1`
/// coefficients, each the sum of products above.
pub proof fn law_product<N: Add<Output = N> + Mul<Output = N>>(a: Seq<N>, b: Seq<N>, r: Seq<N>)
    requires
        product_result(a, b, r),
    ensures
        may_be_product(a, b, r),
{
    assert forall|k: int| 0 <= k < r.len() implies #[trigger] may_be_product_coefficient(
        a,
        b,
        k,
        r[k],
    ) by {
        law_product_coefficient(a, b, k, r[k]);
    }
}

/// Scaling, division and subtraction of coefficient sequences, as the
/// contracts state them, are the operator calls coefficient by coefficient.
pub proof fn law_elementwise<N: Sub<Output = N> + Neg<Output = N> + Mul<Output = N> + Div<Output = N>>(
    a: Seq<N>,
    b: Seq<N>,
    c: N,
    r: Seq<N>,
)
    ensures
        scaled_result(a, c, r) ==> may_be_scaled(a, c, r),
        divided_result(a, c, r) ==> may_be_divided(a, c, r),
        difference_result(a, b, r) ==> may_be_difference(a, b, r),
{
}

/// `v` and `p` carry out Horner's rule on `c` at `x`: `v` ends at the last
/// coefficient, and going down, `p[k]` is a value of `v[k + 1] * x` and `v[k]`
/// a value of `p[k] + c[k]`.
pub open spec fn runs_horner<N: Add<Output = N> + Mul<Output = N>>(
    c: Seq<N>,
    x: N,
    v: Seq<N>,
    p: Seq<N>,
) -> bool {
    &&& v.len() == c.len()
    &&& p.len() == c.len()
    &&& v[c.len() - 1] == c[c.len() - 1]
    &&& forall|k: int|
        0 <= k < c.len() - 1 ==> call_ensures(<N as Mul>::mul, (v[k + 1], x), #[trigger] p[k])
            && call_ensures(<N as Add>::add, (p[k], c[k]), v[k])
}

/// What `evaluate` returns is, for every coefficient type, the last value of
/// Horner's rule: `(...(c[n-1] * x + c[n-2]) * x + ...) * x + c[0]`, each
/// product and sum a value of the operator call on those operands.
pub proof fn law_evaluate_runs_horner<N: Add<Output = N> + Mul<Output = N>>(c: Seq<N>, x: N, r: N)
    requires
        c.len() >= 1,
        horner_result(c, x, r),
    ensures
        exists|v: Seq<N>, p: Seq<N>| #[trigger] runs_horner(c, x, v, p) && r == v[0],
{
    let (v, p) = choose|v: Seq<N>, p: Seq<N>| #[trigger] horner_trace(c, x, v, p) && r == v[0];
    assert(runs_horner(c, x, v, p));
}

/// `ve`, `vd`, `pe` and `pd` carry out the value-and-derivative rule on `c` (at
/// least two coefficients) at `x`: both accumulators end at the last
/// coefficient; going down to power 1, the value becomes `value * x + c[k]`
/// and the derivative `derivative * x + value`; last, the value becomes
/// `x * value + c[0]`.
pub open spec fn runs_value_and_derivative<N: Add<Output = N> + Mul<Output = N>>(
    c: Seq<N>,
    x: N,
    ve: Seq<N>,
    vd: Seq<N>,
    pe: Seq<N>,
    pd: Seq<N>,
) -> bool {
    let n = c.len() as int;
    &&& ve.len() == n
    &&& vd.len() == n
    &&& pe.len() == n
    &&& pd.len() == n
    &&& ve[n - 1] == c[n - 1]
    &&& vd[n - 1] == c[n - 1]
    &&& forall|k: int|
        1 <= k < n - 1 ==> {
            &&& call_ensures(<N as Mul>::mul, (ve[k + 1], x), #[trigger] pe[k])
            &&& call_ensures(<N as Add>::add, (pe[k], c[k]), ve[k])
            &&& call_ensures(<N as Mul>::mul, (vd[k + 1], x), pd[k])
            &&& call_ensures(<N as Add>::add, (pd[k], ve[k]), vd[k])
        }
    &&& call_ensures(<N as Mul>::mul, (x, ve[1]), pe[0])
    &&& call_ensures(<N as Add>::add, (pe[0], c[0]), ve[0])
}

/// What `evaluate_derivative` returns on two or more coefficients is, for
/// every coefficient type, the final value and derivative of that rule.
pub proof fn law_evaluate_derivative_runs<N: Add<Output = N> + Mul<Output = N>>(
    c: Seq<N>,
    x: N,
    r: (N, N),
)
    requires
        c.len() >= 2,
        derivative_result(c, x, r),
    ensures
        exists|ve: Seq<N>, vd: Seq<N>, pe: Seq<N>, pd: Seq<N>|
            #[trigger] runs_value_and_derivative(c, x, ve, vd, pe, pd) && r == (ve[0], vd[1]),
{
    let (ve, vd, pe, pd) = choose|ve: Seq<N>, vd: Seq<N>, pe: Seq<N>, pd: Seq<N>|
        #[trigger] derivative_trace(c, x, ve, vd, pe, pd) && r == (ve[0], vd[1]);
    assert(runs_value_and_derivative(c, x, ve, vd, pe, pd));
}

/// One step of Bonnet's recurrence carried out with the coefficient type:
/// `r = ((2i + 1) x * p1 - p0 * i) / (i + 1)`, where the polynomial `(2i + 1) x`
/// has the coefficients `N::from(0)` and `N::from(2i + 1)`, the multiplier of
/// `p0` is a value of `N::from(i)` itself, the divisor a value of
/// `N::from(i + 1)` itself, and each polynomial operation gives a result that
/// the operator calls allow.
pub open spec fn bonnet_step<N: From<u32> + Add<Output = N> + Sub<Output = N> + Mul<Output = N>
    + Div<Output = N> + Neg<Output = N>>(p0: Seq<N>, p1: Seq<N>, i: u32, r: Seq<N>) -> bool {
    exists|cx: Seq<N>, prod: Seq<N>, scale: N, scaled: Seq<N>, diff: Seq<N>, divisor: N|
        #![trigger may_be_product(cx, p1, prod), may_be_scaled(p0, scale, scaled), may_be_difference(prod, scaled, diff), may_be_divided(diff, divisor, r)]
        {
            &&& cx.len() == 2
            &&& call_ensures(<N as From<u32>>::from, (0u32,), cx[0])
            &&& call_ensures(<N as From<u32>>::from, ((2 * i + 1) as u32,), cx[1])
            &&& may_be_product(cx, p1, prod)
            &&& call_ensures(<N as From<u32>>::from, (i,), scale)
            &&& may_be_scaled(p0, scale, scaled)
            &&& may_be_difference(prod, scaled, diff)
            &&& call_ensures(<N as From<u32>>::from, ((i + 1) as u32,), divisor)
            &&& may_be_divided(diff, divisor, r)
        }
}

/// Step `i` of the sequence `ps`: `ps[i + 1]` from `ps[i - 1]` and `ps[i]`.
pub open spec fn bonnet_step_at<N: From<u32> + Add<Output = N> + Sub<Output = N> + Mul<Output = N>
    + Div<Output = N> + Neg<Output = N>>(ps: Seq<Seq<N>>, i: int) -> bool {
    bonnet_step(ps[i - 1], ps[i], i as u32, ps[i + 1])
}

/// `ps` is `P_0, ..., P_n` by Bonnet's recurrence: `P_0` is a value of
/// `N::from(1)`, `P_1` has the coefficients `N::from(0)` and `N::from(1)`, and
/// each later one is a Bonnet step from the two before it.
pub open spec fn bonnet_sequence<N: From<u32> + Add<Output = N> + Sub<Output = N> + Mul<
    Output = N,
> + Div<Output = N> + Neg<Output = N>>(n: nat, ps: Seq<Seq<N>>) -> bool {
    &&& ps.len() == n + 1
    &&& ps[0].len() == 1
    &&& call_ensures(<N as From<u32>>::from, (1u32,), ps[0][0])
    &&& n >= 1 ==> {
        &&& ps[1].len() == 2
        &&& call_ensures(<N as From<u32>>::from, (0u32,), ps[1][0])
        &&& call_ensures(<N as From<u32>>::from, (1u32,), ps[1][1])
    }
    &&& forall|i: int| 1 <= i < n ==> #[trigger] bonnet_step_at(ps, i)
}

/// What `legendre(n)` returns is, for every coefficient type, the last entry
/// of a sequence built by Bonnet's recurrence: each step multiplies `P_{i-1}`
/// by a value of `N::from(i)` and divides by a value of `N::from(i + 1)`, with
/// nothing computed in between.
pub proof fn law_legendre_is_bonnet<N: From<u32> + Add<Output = N> + Sub<Output = N> + Mul<
    Output = N,
> + Div<Output = N> + Neg<Output = N>>(n: nat, r: Seq<N>)
    requires
        legendre_result::<N>(n, r),
    ensures
        exists|ps: Seq<Seq<N>>| #[trigger] bonnet_sequence(n, ps) && r == ps[n as int],
{
    let ps = choose|ps: Seq<Seq<N>>| #[trigger] legendre_run::<N>(n, ps) && r == ps[n as int];
    assert forall|i: int| 1 <= i < n implies #[trigger] bonnet_step_at(ps, i) by {
        assert(legendre_step_at::<N>(ps, i));
        let (p0, p1, ii, r1) = (ps[i - 1], ps[i], i as u32, ps[i + 1]);
        assert(legendre_step::<N>(p0, p1, ii, r1));
        let (cx, prod, scale, scaled, diff, divisor) = choose|
            cx: Seq<N>,
            prod: Seq<N>,
            scale: N,
            scaled: Seq<N>,
            diff: Seq<N>,
            divisor: N,
        | #[trigger] legendre_step_with::<N>(p0, p1, ii, cx, prod, scale, scaled, diff, divisor, r1);
        law_product(cx, p1, prod);
        law_elementwise(p0, p0, scale, scaled);
        law_elementwise(prod, scaled, divisor, diff);
        law_elementwise(diff, diff, divisor, r1);
    }
    assert(bonnet_sequence(n, ps));
}

/// One step of the physicists' Hermite recurrence carried out with the
/// coefficient type: `r = x2 * h1 - h0 * (2 * i)`, where the multiplier of `h0`
/// is a value of `two * index` for values `two` of `N::from(2)` and `index` of
/// `N::from(i)` themselves, and each polynomial operation gives a result that
/// the operator calls allow.
pub open spec fn hermite_recurrence_step<N: From<u32> + Add<Output = N> + Sub<Output = N> + Mul<
    Output = N,
> + Div<Output = N> + Neg<Output = N>>(x2: Seq<N>, h0: Seq<N>, h1: Seq<N>, i: u32, r: Seq<N>) -> bool {
    exists|prod: Seq<N>, two: N, index: N, factor: N, scaled: Seq<N>|
        #![trigger may_be_product(x2, h1, prod), call_ensures(<N as Mul>::mul, (two, index), factor), may_be_scaled(h0, factor, scaled)]
        {
            &&& may_be_product(x2, h1, prod)
            &&& call_ensures(<N as From<u32>>::from, (2u32,), two)
            &&& call_ensures(<N as From<u32>>::from, (i,), index)
            &&& call_ensures(<N as Mul>::mul, (two, index), factor)
            &&& may_be_scaled(h0, factor, scaled)
            &&& may_be_difference(prod, scaled, r)
        }
}

/// Step `i` of the sequence `hs`: `hs[i + 1]` from `hs[i - 1]` and `hs[i]`.
pub open spec fn hermite_recurrence_step_at<N: From<u32> + Add<Output = N> + Sub<Output = N> + Mul<
    Output = N,
> + Div<Output = N> + Neg<Output = N>>(x2: Seq<N>, hs: Seq<Seq<N>>, i: int) -> bool {
    hermite_recurrence_step(x2, hs[i - 1], hs[i], i as u32, hs[i + 1])
}

/// `hs` is `H_0, ..., H_n` by the physicists' recurrence with `x2` for `2x`:
/// `H_0` is a value of `N::from(1)`, `x2` has the coefficients `N::from(0)`
/// and `N::from(2)`, `H_1` is `x2`, and each later one is a recurrence step
/// from the two before it.
pub open spec fn hermite_sequence<N: From<u32> + Add<Output = N> + Sub<Output = N> + Mul<
    Output = N,
> + Div<Output = N> + Neg<Output = N>>(n: nat, x2: Seq<N>, hs: Seq<Seq<N>>) -> bool {
    &&& hs.len() == n + 1
    &&& hs[0].len() == 1
    &&& call_ensures(<N as From<u32>>::from, (1u32,), hs[0][0])
    &&& n >= 1 ==> {
        &&& x2.len() == 2
        &&& call_ensures(<N as From<u32>>::from, (0u32,), x2[0])
        &&& call_ensures(<N as From<u32>>::from, (2u32,), x2[1])
        &&& hs[1] == x2
    }
    &&& forall|i: int| 1 <= i < n ==> #[trigger] hermite_recurrence_step_at(x2, hs, i)
}

/// What `hermite(n)` returns is, for every coefficient type, the last entry of
/// a sequence built by `H_{i+1} = 2x H_i - 2i H_{i-1}`: each step multiplies
/// `H_{i-1}` by a product of values of `N::from(2)` and `N::from(i)`, with
/// nothing computed in between.
pub proof fn law_hermite_is_recurrence<N: From<u32> + Add<Output = N> + Sub<Output = N> + Mul<
    Output = N,
> + Div<Output = N> + Neg<Output = N>>(n: nat, r: Seq<N>)
    requires
        hermite_result::<N>(n, r),
    ensures
        exists|x2: Seq<N>, hs: Seq<Seq<N>>| #[trigger] hermite_sequence(n, x2, hs) && r == hs[n as int],
{
    let (x2, hs) = choose|x2: Seq<N>, hs: Seq<Seq<N>>|
        #[trigger] hermite_run::<N>(n, x2, hs) && r == hs[n as int];
    assert forall|i: int| 1 <= i < n implies #[trigger] hermite_recurrence_step_at(x2, hs, i) by {
        assert(hermite_step_at::<N>(x2, hs, i));
        let (h0, h1, ii, r1) = (hs[i - 1], hs[i], i as u32, hs[i + 1]);
        assert(hermite_step::<N>(x2, h0, h1, ii, r1));
        let (prod, two, index, factor, scaled) = choose|
            prod: Seq<N>,
            two: N,
            index: N,
            factor: N,
            scaled: Seq<N>,
        | #[trigger] hermite_step_with::<N>(x2, h0, h1, ii, prod, two, index, factor, scaled, r1);
        law_product(x2, h1, prod);
        law_elementwise(h0, h0, factor, scaled);
        law_elementwise(prod, scaled, factor, r1);
    }
    assert(hermite_sequence(n, x2, hs));
}

/// The coefficient of `x^k` in `L_n` carried out with the coefficient type:
/// `t = (from(C(n, k)) / from(k!)) * sign`, where `sign` is a value of
/// `N::from(1)` for even `k` and the negation of one for odd `k`.
pub open spec fn laguerre_coefficient<N: From<u32> + Mul<Output = N> + Div<Output = N> + Neg<
    Output = N,
>>(n: nat, k: nat, t: N) -> bool {
    exists|numerator: N, denominator: N, ratio: N, one: N, sign: N|
        #![trigger call_ensures(<N as Div>::div, (numerator, denominator), ratio), call_ensures(<N as Mul>::mul, (ratio, sign), t), call_ensures(<N as From<u32>>::from, (1u32,), one)]
        {
            &&& call_ensures(<N as From<u32>>::from, (binomial(n, k) as u32,), numerator)
            &&& call_ensures(<N as From<u32>>::from, (fact(k) as u32,), denominator)
            &&& call_ensures(<N as Div>::div, (numerator, denominator), ratio)
            &&& call_ensures(<N as From<u32>>::from, (1u32,), one)
            &&& if k % 2 == 0 {
                sign == one
            } else {
                call_ensures(<N as Neg>::neg, (one,), sign)
            }
            &&& call_ensures(<N as Mul>::mul, (ratio, sign), t)
        }
}

/// Each coefficient that `laguerre(n)` returns is, for every coefficient type,
/// `C(n, k) / k!` with the sign `(-1)^k`, computed by converting `C(n, k)`,
/// `k!` and 1, dividing, negating for odd `k`, and multiplying.
pub proof fn law_laguerre_is_closed_form<N: From<u32> + Mul<Output = N> + Div<Output = N> + Neg<
    Output = N,
>>(n: nat, k: nat, t: N)
    requires
        laguerre_term::<N>(n, k, t),
    ensures
        laguerre_coefficient(n, k, t),
{
    let (a, b, c, d, e) = choose|a: N, b: N, c: N, d: N, e: N|
        #[trigger] laguerre_term_with::<N>(n, k, a, b, c, d, e, t);
    assert(call_ensures(<N as Div>::div, (a, b), c));
    assert(call_ensures(<N as Mul>::mul, (c, e), t));
    assert(call_ensures(<N as From<u32>>::from, (1u32,), d));
}

} // verus!
