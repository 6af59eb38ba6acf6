//! Classical polynomial families (Legendre, Hermite, Laguerre) and the integer
//! combinatorics that their closed forms use.
use vstd::prelude::*;
use vstd::std_specs::ops::{AddSpec, SubSpec, MulSpec, DivSpec, NegSpec};
use vstd::std_specs::convert::FromSpec;
use core::ops::{Add, Sub, Mul, Div, Neg};
use crate::polynomial::{
    Polynomial,
    add_seqs,
    sub_seqs,
    scale_seq,
    divide_seq,
    product_seqs,
    can_multiply_seqs,
    can_scale_seq,
    can_sub_seqs,
    can_divide_seq,
    converts_to,
    product_of,
    quotient_of,
    negation_of,
    product_result,
    scaled_result,
    divided_result,
    difference_result,
};
use vstd::arithmetic::div_mod::lemma_div_multiples_vanish;
use vstd::arithmetic::mul::lemma_mul_increases;

verus! {

/// `n!`
pub open spec fn fact(n: nat) -> nat
    decreases n,
{
    if n == 0 {
        1
    } else {
        n * fact((n - 1) as nat)
    }
}

/// The rising product `a · (a + 1) · ... · (a + j - 1)` of `j` factors.
pub open spec fn rising(a: nat, j: nat) -> nat
    decreases j,
{
    if j == 0 {
        1
    } else {
        rising(a, (j - 1) as nat) * (a + j - 1) as nat
    }
}

/// The falling product `n · (n - 1) · ... · (n - k + 1)` of `k` factors.
pub open spec fn falling(n: nat, k: nat) -> nat {
    rising((n + 1 - k) as nat, k)
}

/// The binomial coefficient `C(n, k)`, by Pascal's rule.
pub open spec fn binomial(n: nat, k: nat) -> nat
    decreases n,
{
    if k == 0 {
        1
    } else if n == 0 {
        0
    } else {
        binomial((n - 1) as nat, (k - 1) as nat) + binomial((n - 1) as nat, k)
    }
}

/// Peeling the first factor off a rising product.
proof fn lemma_rising_front(a: nat, j: nat)
    requires
        j >= 1,
    ensures
        rising(a, j) == a * rising(a + 1, (j - 1) as nat),
    decreases j,
{
    if j == 1 {
        assert(rising(a, 1) == rising(a, 0) * a);
        assert(rising(a, 0) == 1);
        assert(rising(a + 1, 0) == 1);
        assert(1 * a == a * 1) by (nonlinear_arith);
    } else {
        lemma_rising_front(a, (j - 1) as nat);
        let r = rising(a + 1, (j - 2) as nat);
        let x = (a + j - 1) as nat;
        assert(rising(a, (j - 1) as nat) == a * r);
        assert(rising(a + 1, (j - 1) as nat) == r * x);
        assert(rising(a, j) == rising(a, (j - 1) as nat) * x);
        assert((a * r) * x == a * (r * x)) by (nonlinear_arith);
    }
}

/// A rising product that starts at 1 or more is at least 1, and grows with
/// its number of factors.
proof fn lemma_rising_monotone(a: nat, i: nat, j: nat)
    requires
        a >= 1,
        i <= j,
    ensures
        1 <= rising(a, i) <= rising(a, j),
    decreases j,
{
    if i < j {
        lemma_rising_monotone(a, i, (j - 1) as nat);
        let r = rising(a, (j - 1) as nat);
        lemma_mul_increases((a + j - 1) as int, r as int);
        assert(r * (a + j - 1) as nat >= r) by (nonlinear_arith)
            requires
                a + j - 1 >= 1,
        ;
    } else if j > 0 {
        lemma_rising_monotone(a, 0, (j - 1) as nat);
        let r = rising(a, (j - 1) as nat);
        assert(r * (a + j - 1) as nat >= 1) by (nonlinear_arith)
            requires
                a + j - 1 >= 1,
                r >= 1,
        ;
    }
}

/// `n! = 1 · 2 · ... · n`.
proof fn lemma_fact_is_rising(n: nat)
    ensures
        fact(n) == rising(1, n),
    decreases n,
{
    if n > 0 {
        lemma_fact_is_rising((n - 1) as nat);
        assert(fact(n) == n * fact((n - 1) as nat));
        assert(rising(1, n) == rising(1, (n - 1) as nat) * n);
        assert(n * rising(1, (n - 1) as nat) == rising(1, (n - 1) as nat) * n) by (nonlinear_arith);
    }
}

/// `n! = n·(n-1)···(n-k+1) · (n-k)!`
proof fn lemma_fact_split(n: nat, k: nat)
    requires
        k <= n,
    ensures
        fact(n) == falling(n, k) * fact((n - k) as nat),
    decreases k,
{
    let a = (n + 1 - k) as nat;
    if k == 0 {
        assert(falling(n, 0) == 1);
        assert(fact(n) == 1 * fact(n)) by (nonlinear_arith);
    } else {
        lemma_fact_split(n, (k - 1) as nat);
        lemma_rising_front(a, k);
        assert(falling(n, (k - 1) as nat) == rising(a + 1, (k - 1) as nat));
        assert(fact((n - k + 1) as nat) == a * fact((n - k) as nat));
        let r = rising(a + 1, (k - 1) as nat);
        let f = fact((n - k) as nat);
        assert(r * (a * f) == (a * r) * f) by (nonlinear_arith);
    }
}

/// A falling product never exceeds the factorial it is part of.
proof fn lemma_falling_le_fact(n: nat, k: nat)
    requires
        k <= n,
    ensures
        1 <= falling(n, k) <= fact(n),
{
    lemma_fact_split(n, k);
    lemma_fact_is_rising((n - k) as nat);
    lemma_rising_monotone(1, 0, (n - k) as nat);
    lemma_rising_monotone((n + 1 - k) as nat, 0, k);
    let f = falling(n, k);
    let g = fact((n - k) as nat);
    assert(f <= f * g) by (nonlinear_arith)
        requires
            g >= 1,
    ;
}

/// `n! <= u32::MAX` only for `n <= 12`: `13! = 6227020800`.
proof fn lemma_fact_bound(n: nat)
    requires
        fact(n) <= u32::MAX,
    ensures
        n <= 12,
{
    if n > 12 {
        assert(fact(0) == 1);
        assert(fact(1) == 1);
        assert(fact(2) == 2);
        assert(fact(3) == 6);
        assert(fact(4) == 24);
        assert(fact(5) == 120);
        assert(fact(6) == 720);
        assert(fact(7) == 5040);
        assert(fact(8) == 40320);
        assert(fact(9) == 362880);
        assert(fact(10) == 3628800);
        assert(fact(11) == 39916800);
        assert(fact(12) == 479001600);
        assert(fact(13) == 6227020800);
        lemma_fact_monotone(13, n);
    }
}

/// The factorial grows with its argument.
pub proof fn lemma_fact_monotone(i: nat, j: nat)
    requires
        i <= j,
    ensures
        1 <= fact(i) <= fact(j),
{
    lemma_fact_is_rising(i);
    lemma_fact_is_rising(j);
    lemma_rising_monotone(1, i, j);
}

/// `C(n, k) = 0` when `k > n`.
pub proof fn lemma_binomial_zero(n: nat, k: nat)
    requires
        k > n,
    ensures
        binomial(n, k) == 0,
    decreases n,
{
    if n > 0 {
        lemma_binomial_zero((n - 1) as nat, (k - 1) as nat);
        lemma_binomial_zero((n - 1) as nat, k);
    }
}

/// The falling product of `k` factors is `k!` times `C(n, k)`.
pub proof fn lemma_falling_is_fact_times_binomial(n: nat, k: nat)
    requires
        k <= n,
    ensures
        falling(n, k) == fact(k) * binomial(n, k),
    decreases n,
{
    if k == 0 {
        assert(falling(n, 0) == 1);
        assert(fact(0) == 1);
        assert(binomial(n, 0) == 1);
    } else {
        let m = (n - 1) as nat;
        let a = (n + 1 - k) as nat;
        // falling(n, k) = falling(n - 1, k - 1) * n
        assert(falling(n, k) == rising(a, (k - 1) as nat) * n);
        assert(falling(m, (k - 1) as nat) == rising(a, (k - 1) as nat));
        lemma_falling_is_fact_times_binomial(m, (k - 1) as nat);
        let x = falling(m, (k - 1) as nat);
        let b1 = binomial(m, (k - 1) as nat);
        let fk1 = fact((k - 1) as nat);
        assert(fact(k) == k * fk1);
        assert(binomial(n, k) == b1 + binomial(m, k));
        if k == n {
            lemma_binomial_zero(m, k);
            assert(fact(k) * binomial(n, k) == k * (fk1 * b1)) by (nonlinear_arith)
                requires
                    fact(k) == k * fk1,
                    binomial(n, k) == b1,
            ;
            assert(falling(n, k) == fact(k) * binomial(n, k)) by (nonlinear_arith)
                requires
                    falling(n, k) == x * n,
                    fact(k) * binomial(n, k) == k * (fk1 * b1),
                    x == fk1 * b1,
                    k == n,
            ;
        } else {
            // falling(n - 1, k) = (n - k) * falling(n - 1, k - 1)
            lemma_rising_front((n - k) as nat, k);
            assert(falling(m, k) == rising((n - k) as nat, k));
            assert(falling(m, k) == (n - k) * x);
            lemma_falling_is_fact_times_binomial(m, k);
            let b2 = binomial(m, k);
            assert(fact(k) * b2 == (n - k) * x);
            assert(fact(k) * (b1 + b2) == k * (fk1 * b1) + fact(k) * b2) by (nonlinear_arith)
                requires
                    fact(k) == k * fk1,
            ;
            assert(falling(n, k) == fact(k) * binomial(n, k)) by (nonlinear_arith)
                requires
                    k <= n,
                    falling(n, k) == x * n,
                    fact(k) * binomial(n, k) == k * (fk1 * b1) + fact(k) * b2,
                    x == fk1 * b1,
                    fact(k) * b2 == (n - k) * x,
            ;
        }
    }
}

/// `k!`, computed in `u32` by multiplying `2, 3, ..., k` in turn.
pub fn factorial(k: u32) -> (r: u32)
    requires
        fact(k as nat) <= u32::MAX,
    ensures
        r == fact(k as nat),
{
    let mut acc: u32 = 1;
    let mut i: u32 = 1;
    assert(fact(0) == 1);
    assert(fact(1) == 1 * fact(0));
    while i < k
        invariant
            1 <= i,
            i <= k || (k == 0 && i == 1),
            fact(k as nat) <= u32::MAX,
            acc == fact(i as nat),
        decreases k - i,
    {
        i = i + 1;
        proof {
            lemma_fact_monotone(i as nat, k as nat);
            assert(fact(i as nat) == i * fact((i - 1) as nat));
            assert(acc * i == i * acc) by (nonlinear_arith);
        }
        acc = acc * i;
    }
    assert(fact(0) == 1);
    assert(fact(1) == 1);
    acc
}

/// The binomial coefficient `C(n, k)`: the product `(n - k + 1) · ... · n`
/// divided in turn by `2, 3, ..., k`.
pub fn n_choose_k(n: u32, k: u32) -> (r: u32)
    requires
        k <= n,
        n - k < u32::MAX,
        falling(n as nat, k as nat) <= u32::MAX,
    ensures
        r == binomial(n as nat, k as nat),
{
    let base = n - k + 1;
    let ghost a = base as nat;
    let mut acc: u32 = 1;
    let mut j: u32 = 0;
    while j < k
        invariant
            k <= n,
            base == n - k + 1,
            a == base,
            j <= k,
            rising(a, k as nat) <= u32::MAX,
            acc == rising(a, j as nat),
        decreases k - j,
    {
        proof {
            lemma_rising_monotone(a, (j + 1) as nat, k as nat);
        }
        acc = acc * (base + j);
        j = j + 1;
    }
    proof {
        lemma_falling_is_fact_times_binomial(n as nat, k as nat);
    }
    let ghost b = binomial(n as nat, k as nat);
    let mut i: u64 = 2;
    if k >= 1 {
        proof {
            lemma_fact_is_rising(k as nat);
            lemma_rising_front(1, k as nat);
        }
    }
    while i <= k as u64
        invariant
            2 <= i <= k + 1 || (k == 0 && i == 2),
            k <= n,
            k == 0 ==> acc == b,
            k >= 1 ==> acc == rising(i as nat, (k + 1 - i) as nat) * b,
        decreases k + 1 - i,
    {
        proof {
            lemma_rising_front(i as nat, (k + 1 - i) as nat);
            let r = rising((i + 1) as nat, (k - i) as nat);
            assert(acc == i * (r * b)) by (nonlinear_arith)
                requires
                    acc == (i * r) * b,
            ;
            lemma_div_multiples_vanish((r * b) as int, i as int);
        }
        acc = acc / (i as u32);
        i = i + 1;
    }
    proof {
        if k >= 1 {
            assert(rising((k + 1) as nat, 0) == 1);
            assert(1 * b == b) by (nonlinear_arith);
        }
    }
    acc
}


/// The value of the integer `v` in the coefficient type, as `From<u32>` gives it.
pub open spec fn constant<N: From<u32>>(v: nat) -> N {
    <N as FromSpec<u32>>::from_spec(v as u32)
}

/// Every operation of the coefficient type that the polynomial families use is
/// allowed on every pair of values, as it is for the floating-point types.
pub open spec fn ops_total<N: Add<Output = N> + Sub<Output = N> + Mul<Output = N> + Div<
    Output = N,
> + Neg<Output = N>>() -> bool {
    &&& forall|a: N, b: N| #[trigger] a.add_req(b)
    &&& forall|a: N, b: N| #[trigger] a.sub_req(b)
    &&& forall|a: N, b: N| #[trigger] a.mul_req(b)
    &&& forall|a: N, b: N| #[trigger] a.div_req(b)
    &&& forall|a: N| #[trigger] a.neg_req()
}

/// The operations of the coefficient type and its conversion from `u32` all
/// follow vstd's specifications.
pub open spec fn ops_follow_specs<N: From<u32> + Add<Output = N> + Sub<Output = N> + Mul<
    Output = N,
> + Div<Output = N> + Neg<Output = N>>() -> bool {
    &&& N::obeys_add_spec()
    &&& N::obeys_sub_spec()
    &&& N::obeys_mul_spec()
    &&& N::obeys_div_spec()
    &&& N::obeys_neg_spec()
    &&& <N as FromSpec<u32>>::obeys_from_spec()
}

/// `+`, `-`, `*`, unary `-` and the conversion from `u32` follow vstd's
/// specifications: what `hermite` uses.
pub open spec fn ring_ops_follow_specs<N: From<u32> + Add<Output = N> + Sub<Output = N> + Mul<
    Output = N,
> + Div<Output = N> + Neg<Output = N>>() -> bool {
    &&& N::obeys_add_spec()
    &&& N::obeys_sub_spec()
    &&& N::obeys_mul_spec()
    &&& N::obeys_neg_spec()
    &&& <N as FromSpec<u32>>::obeys_from_spec()
}

/// `*`, `/`, unary `-` and the conversion from `u32` follow vstd's
/// specifications: what `laguerre` uses.
pub open spec fn quotient_ops_follow_specs<N: From<u32> + Add<Output = N> + Sub<Output = N> + Mul<
    Output = N,
> + Div<Output = N> + Neg<Output = N>>() -> bool {
    &&& N::obeys_mul_spec()
    &&& N::obeys_div_spec()
    &&& N::obeys_neg_spec()
    &&& <N as FromSpec<u32>>::obeys_from_spec()
}

/// `+`, `-`, `*` and unary `-` are allowed on every value.
pub open spec fn ring_ops_total<N: From<u32> + Add<Output = N> + Sub<Output = N> + Mul<
    Output = N,
> + Div<Output = N> + Neg<Output = N>>() -> bool {
    &&& forall|a: N, b: N| #[trigger] a.add_req(b)
    &&& forall|a: N, b: N| #[trigger] a.sub_req(b)
    &&& forall|a: N, b: N| #[trigger] a.mul_req(b)
    &&& forall|a: N| #[trigger] a.neg_req()
}

/// `*`, `/` and unary `-` are allowed on every value.
pub open spec fn quotient_ops_total<N: From<u32> + Add<Output = N> + Sub<Output = N> + Mul<
    Output = N,
> + Div<Output = N> + Neg<Output = N>>() -> bool {
    &&& forall|a: N, b: N| #[trigger] a.mul_req(b)
    &&& forall|a: N, b: N| #[trigger] a.div_req(b)
    &&& forall|a: N| #[trigger] a.neg_req()
}

/// Legendre polynomials by Bonnet's recurrence
/// `(i + 1) P_{i+1} = (2i + 1) x P_i - i P_{i-1}`, with `P_0 = 1`, `P_1 = x`.
pub open spec fn legendre_seq<N: From<u32> + Add<Output = N> + Sub<Output = N> + Mul<
    Output = N,
> + Div<Output = N> + Neg<Output = N>>(n: nat) -> Seq<N>
    decreases n,
{
    if n == 0 {
        seq![constant::<N>(1)]
    } else if n == 1 {
        seq![constant::<N>(0), constant::<N>(1)]
    } else {
        let i = (n - 1) as nat;
        let x_term = product_seqs(seq![constant::<N>(0), constant::<N>(2 * i + 1)], legendre_seq(i));
        let prev = scale_seq(legendre_seq((i - 1) as nat), constant::<N>(i));
        divide_seq(sub_seqs(x_term, prev), constant::<N>(i + 1))
    }
}

/// Physicists' Hermite polynomials by the recurrence
/// `H_{i+1} = 2x H_i - 2i H_{i-1}`, with `H_0 = 1`, `H_1 = 2x`; the factor
/// `2i` is the product of the constants 2 and `i`.
pub open spec fn hermite_seq<N: From<u32> + Add<Output = N> + Sub<Output = N> + Mul<
    Output = N,
> + Div<Output = N> + Neg<Output = N>>(n: nat) -> Seq<N>
    decreases n,
{
    if n == 0 {
        seq![constant::<N>(1)]
    } else if n == 1 {
        seq![constant::<N>(0), constant::<N>(2)]
    } else {
        let i = (n - 1) as nat;
        let two_x = seq![constant::<N>(0), constant::<N>(2)];
        let factor = constant::<N>(2).mul_spec(constant::<N>(i));
        sub_seqs(product_seqs(two_x, hermite_seq(i)), scale_seq(hermite_seq((i - 1) as nat), factor))
    }
}

/// The sign `(-1)^k` in the coefficient type.
pub open spec fn alternating_sign<N: From<u32> + Neg<Output = N>>(k: nat) -> N {
    if k % 2 == 0 {
        constant::<N>(1)
    } else {
        constant::<N>(1).neg_spec()
    }
}

/// The coefficients of the Laguerre polynomial `L_n`:
/// `C(n, k) / k! * (-1)^k` for the power `k`.
pub open spec fn laguerre_seq<N: From<u32> + Mul<Output = N> + Div<Output = N> + Neg<
    Output = N,
>>(n: nat) -> Seq<N> {
    Seq::new(
        n + 1,
        |k: int|
            constant::<N>(binomial(n, k as nat)).div_spec(constant::<N>(fact(k as nat))).mul_spec(
                alternating_sign::<N>(k as nat),
            ),
    )
}

/// Every step of building `P_n` by `legendre_seq`'s recurrence is allowed on
/// the specified intermediate coefficients.
pub open spec fn legendre_allowed<N: From<u32> + Add<Output = N> + Sub<Output = N> + Mul<
    Output = N,
> + Div<Output = N> + Neg<Output = N>>(n: nat) -> bool
    decreases n,
{
    if n <= 1 {
        true
    } else {
        let i = (n - 1) as nat;
        let lin = seq![constant::<N>(0), constant::<N>(2 * i + 1)];
        let x_term = product_seqs(lin, legendre_seq::<N>(i));
        let prev = scale_seq(legendre_seq::<N>((i - 1) as nat), constant::<N>(i));
        &&& legendre_allowed::<N>(i)
        &&& can_multiply_seqs(lin, legendre_seq::<N>(i))
        &&& can_scale_seq(legendre_seq::<N>((i - 1) as nat), constant::<N>(i))
        &&& can_sub_seqs(x_term, prev)
        &&& can_divide_seq(sub_seqs(x_term, prev), constant::<N>(i + 1))
    }
}

/// Every step of building `H_n` by `hermite_seq`'s recurrence is allowed on
/// the specified intermediate coefficients.
pub open spec fn hermite_allowed<N: From<u32> + Add<Output = N> + Sub<Output = N> + Mul<
    Output = N,
> + Div<Output = N> + Neg<Output = N>>(n: nat) -> bool
    decreases n,
{
    if n <= 1 {
        true
    } else {
        let i = (n - 1) as nat;
        let two_x = seq![constant::<N>(0), constant::<N>(2)];
        let factor = constant::<N>(2).mul_spec(constant::<N>(i));
        let prev = scale_seq(hermite_seq::<N>((i - 1) as nat), factor);
        &&& hermite_allowed::<N>(i)
        &&& constant::<N>(2).mul_req(constant::<N>(i))
        &&& can_multiply_seqs(two_x, hermite_seq::<N>(i))
        &&& can_scale_seq(hermite_seq::<N>((i - 1) as nat), factor)
        &&& can_sub_seqs(product_seqs(two_x, hermite_seq::<N>(i)), prev)
    }
}

/// Every step of computing the coefficients of `L_n` is allowed.
pub open spec fn laguerre_allowed<N: From<u32> + Add<Output = N> + Sub<Output = N> + Mul<
    Output = N,
> + Div<Output = N> + Neg<Output = N>>(n: nat) -> bool {
    &&& constant::<N>(1).neg_req()
    &&& forall|k: nat|
        k <= n ==> {
            &&& #[trigger] constant::<N>(binomial(n, k)).div_req(constant::<N>(fact(k)))
            &&& constant::<N>(binomial(n, k)).div_spec(constant::<N>(fact(k))).mul_req(
                alternating_sign::<N>(k),
            )
        }
}

/// `legendre(n)` may run: its steps are allowed on the specified values when
/// the coefficient operations follow their specifications, and every operation
/// is allowed on every value otherwise.
pub open spec fn can_build_legendre<N: From<u32> + Add<Output = N> + Sub<Output = N> + Mul<
    Output = N,
> + Div<Output = N> + Neg<Output = N>>(n: nat) -> bool {
    if ops_follow_specs::<N>() {
        legendre_allowed::<N>(n)
    } else {
        ops_total::<N>()
    }
}

/// `hermite(n)` may run, in the sense of `can_build_legendre`, for the
/// operations it uses.
pub open spec fn can_build_hermite<N: From<u32> + Add<Output = N> + Sub<Output = N> + Mul<
    Output = N,
> + Div<Output = N> + Neg<Output = N>>(n: nat) -> bool {
    if ring_ops_follow_specs::<N>() {
        hermite_allowed::<N>(n)
    } else {
        ring_ops_total::<N>()
    }
}

/// `laguerre(n)` may run, in the sense of `can_build_legendre`, for the
/// operations it uses.
pub open spec fn can_build_laguerre<N: From<u32> + Add<Output = N> + Sub<Output = N> + Mul<
    Output = N,
> + Div<Output = N> + Neg<Output = N>>(n: nat) -> bool {
    if quotient_ops_follow_specs::<N>() {
        laguerre_allowed::<N>(n)
    } else {
        quotient_ops_total::<N>()
    }
}

proof fn lemma_legendre_allowed_down<N: From<u32> + Add<Output = N> + Sub<Output = N> + Mul<
    Output = N,
> + Div<Output = N> + Neg<Output = N>>(n: nat, m: nat)
    requires
        legendre_allowed::<N>(n),
        m <= n,
    ensures
        legendre_allowed::<N>(m),
    decreases n,
{
    if m < n {
        lemma_legendre_allowed_down::<N>((n - 1) as nat, m);
    }
}

proof fn lemma_hermite_allowed_down<N: From<u32> + Add<Output = N> + Sub<Output = N> + Mul<
    Output = N,
> + Div<Output = N> + Neg<Output = N>>(n: nat, m: nat)
    requires
        hermite_allowed::<N>(n),
        m <= n,
    ensures
        hermite_allowed::<N>(m),
    decreases n,
{
    if m < n {
        lemma_hermite_allowed_down::<N>((n - 1) as nat, m);
    }
}

/// The operations behind one step `P_{i+1}` of `legendre` from `p0 = P_{i-1}`
/// and `p1 = P_i`, each giving one of its possible values: `cx` holds values
/// of `N::from(0)` and `N::from(2i + 1)`, `prod` is a product of `cx` and `p1`,
/// `scaled` is `p0` times a value `scale` of `N::from(i)`, `diff` is `prod`
/// minus `scaled`, and `r` is `diff` divided by a value `divisor` of
/// `N::from(i + 1)`.
pub open spec fn legendre_step_with<N: From<u32> + Add<Output = N> + Sub<Output = N> + Mul<
    Output = N,
> + Div<Output = N> + Neg<Output = N>>(
    p0: Seq<N>,
    p1: Seq<N>,
    i: u32,
    cx: Seq<N>,
    prod: Seq<N>,
    scale: N,
    scaled: Seq<N>,
    diff: Seq<N>,
    divisor: N,
    r: Seq<N>,
) -> bool {
    &&& cx.len() == 2
    &&& converts_to(0u32, cx[0])
    &&& converts_to((2 * i + 1) as u32, cx[1])
    &&& product_result(cx, p1, prod)
    &&& converts_to(i, scale)
    &&& scaled_result(p0, scale, scaled)
    &&& difference_result(prod, scaled, diff)
    &&& converts_to((i + 1) as u32, divisor)
    &&& divided_result(diff, divisor, r)
}

/// `r` is a polynomial that one step of `legendre` may give from `p0` and `p1`.
pub open spec fn legendre_step<N: From<u32> + Add<Output = N> + Sub<Output = N> + Mul<
    Output = N,
> + Div<Output = N> + Neg<Output = N>>(p0: Seq<N>, p1: Seq<N>, i: u32, r: Seq<N>) -> bool {
    exists|cx: Seq<N>, prod: Seq<N>, scale: N, scaled: Seq<N>, diff: Seq<N>, divisor: N|
        #[trigger] legendre_step_with(p0, p1, i, cx, prod, scale, scaled, diff, divisor, r)
}

/// Step `i` of the run `ps`: `ps[i + 1]` comes from `ps[i - 1]` and `ps[i]`.
pub open spec fn legendre_step_at<N: From<u32> + Add<Output = N> + Sub<Output = N> + Mul<
    Output = N,
> + Div<Output = N> + Neg<Output = N>>(ps: Seq<Seq<N>>, i: int) -> bool {
    legendre_step(ps[i - 1], ps[i], i as u32, ps[i + 1])
}

/// `ps` records a run of `legendre(n)`: `ps[0]` holds a value of `N::from(1)`,
/// `ps[1]` values of `N::from(0)` and `N::from(1)`, and each later entry is a
/// step of the recurrence from the two before it.
pub open spec fn legendre_run<N: From<u32> + Add<Output = N> + Sub<Output = N> + Mul<
    Output = N,
> + Div<Output = N> + Neg<Output = N>>(n: nat, ps: Seq<Seq<N>>) -> bool {
    &&& ps.len() == n + 1
    &&& ps[0].len() == 1
    &&& converts_to(1u32, ps[0][0])
    &&& n >= 1 ==> {
        &&& ps[1].len() == 2
        &&& converts_to(0u32, ps[1][0])
        &&& converts_to(1u32, ps[1][1])
    }
    &&& forall|i: int| 1 <= i < n ==> #[trigger] legendre_step_at(ps, i)
}

/// `r` is a polynomial that `legendre(n)` may give when each conversion and
/// operation gives one of its possible values.
pub open spec fn legendre_result<N: From<u32> + Add<Output = N> + Sub<Output = N> + Mul<
    Output = N,
> + Div<Output = N> + Neg<Output = N>>(n: nat, r: Seq<N>) -> bool {
    exists|ps: Seq<Seq<N>>| #[trigger] legendre_run(n, ps) && r == ps[n as int]
}

/// The operations behind one step `H_{i+1}` of `hermite` from `h0 = H_{i-1}`
/// and `h1 = H_i`, each giving one of its possible values: `prod` is a product
/// of `x2` and `h1`, `factor` a product of values `two` of `N::from(2)` and
/// `index` of `N::from(i)`, `scaled` is `h0` times `factor`, and `r` is `prod`
/// minus `scaled`.
pub open spec fn hermite_step_with<N: From<u32> + Add<Output = N> + Sub<Output = N> + Mul<
    Output = N,
> + Div<Output = N> + Neg<Output = N>>(
    x2: Seq<N>,
    h0: Seq<N>,
    h1: Seq<N>,
    i: u32,
    prod: Seq<N>,
    two: N,
    index: N,
    factor: N,
    scaled: Seq<N>,
    r: Seq<N>,
) -> bool {
    &&& product_result(x2, h1, prod)
    &&& converts_to(2u32, two)
    &&& converts_to(i, index)
    &&& product_of(two, index, factor)
    &&& scaled_result(h0, factor, scaled)
    &&& difference_result(prod, scaled, r)
}

/// `r` is a polynomial that one step of `hermite` may give from `h0` and `h1`.
pub open spec fn hermite_step<N: From<u32> + Add<Output = N> + Sub<Output = N> + Mul<
    Output = N,
> + Div<Output = N> + Neg<Output = N>>(x2: Seq<N>, h0: Seq<N>, h1: Seq<N>, i: u32, r: Seq<N>) -> bool {
    exists|prod: Seq<N>, two: N, index: N, factor: N, scaled: Seq<N>|
        #[trigger] hermite_step_with(x2, h0, h1, i, prod, two, index, factor, scaled, r)
}

/// Step `i` of the run `hs`: `hs[i + 1]` comes from `hs[i - 1]` and `hs[i]`.
pub open spec fn hermite_step_at<N: From<u32> + Add<Output = N> + Sub<Output = N> + Mul<
    Output = N,
> + Div<Output = N> + Neg<Output = N>>(x2: Seq<N>, hs: Seq<Seq<N>>, i: int) -> bool {
    hermite_step(x2, hs[i - 1], hs[i], i as u32, hs[i + 1])
}

/// `hs` records a run of `hermite(n)` with `x2` standing for `2x`: `hs[0]`
/// holds a value of `N::from(1)`, `x2` values of `N::from(0)` and
/// `N::from(2)`, `hs[1]` is `x2`, and each later entry is a step of the
/// recurrence from the two before it.
pub open spec fn hermite_run<N: From<u32> + Add<Output = N> + Sub<Output = N> + Mul<
    Output = N,
> + Div<Output = N> + Neg<Output = N>>(n: nat, x2: Seq<N>, hs: Seq<Seq<N>>) -> bool {
    &&& hs.len() == n + 1
    &&& hs[0].len() == 1
    &&& converts_to(1u32, hs[0][0])
    &&& n >= 1 ==> {
        &&& x2.len() == 2
        &&& converts_to(0u32, x2[0])
        &&& converts_to(2u32, x2[1])
        &&& hs[1] == x2
    }
    &&& forall|i: int| 1 <= i < n ==> #[trigger] hermite_step_at(x2, hs, i)
}

/// `r` is a polynomial that `hermite(n)` may give when each conversion and
/// operation gives one of its possible values.
pub open spec fn hermite_result<N: From<u32> + Add<Output = N> + Sub<Output = N> + Mul<
    Output = N,
> + Div<Output = N> + Neg<Output = N>>(n: nat, r: Seq<N>) -> bool {
    exists|x2: Seq<N>, hs: Seq<Seq<N>>| #[trigger] hermite_run(n, x2, hs) && r == hs[n as int]
}

/// The `n`th Legendre polynomial, built by the recurrence
/// `(i + 1) P_{i+1} = (2i + 1) x P_i - i P_{i-1}`.
pub fn legendre<N>(n: u32) -> (p: Polynomial<N>)
    where
        N: Copy + From<u32> + Add<Output = N> + Sub<Output = N> + Mul<Output = N> + Div<Output = N>
            + Neg<Output = N>,
    requires
        n <= 0x8000_0000u32,
        n + 2 <= usize::MAX,
        can_build_legendre::<N>(n as nat),
    ensures
        p@.len() == n + 1,
        legendre_result::<N>(n as nat, p@),
        ops_follow_specs::<N>() ==> p@ == legendre_seq::<N>(n as nat),
{
    let mut c0: Vec<N> = Vec::new();
    let one = N::from(1u32);
    c0.push(one);
    proof {
        if ops_follow_specs::<N>() {
            assert(c0@ =~= seq![constant::<N>(1)]);
        }
    }
    if n == 0 {
        proof {
            assert(legendre_run::<N>(0, seq![c0@]));
        }
        return Polynomial::from_coefficients(c0);
    }
    let mut c1: Vec<N> = Vec::new();
    let zero = N::from(0u32);
    let unit = N::from(1u32);
    c1.push(zero);
    c1.push(unit);
    proof {
        if ops_follow_specs::<N>() {
            assert(c1@ =~= seq![constant::<N>(0), constant::<N>(1)]);
        }
    }
    let ghost mut ps: Seq<Seq<N>> = seq![c0@, c1@];
    proof {
        assert(legendre_run::<N>(1, ps));
    }
    if n == 1 {
        return Polynomial::from_coefficients(c1);
    }
    let mut p_0 = Polynomial::from_coefficients(c0);
    let mut p_1 = Polynomial::from_coefficients(c1);
    let mut i: u32 = 1;
    while i < n
        invariant
            1 <= i <= n,
            n <= 0x8000_0000u32,
            n + 2 <= usize::MAX,
            can_build_legendre::<N>(n as nat),
            p_0@.len() == i,
            p_1@.len() == i + 1,
            legendre_run::<N>(i as nat, ps),
            ps[i - 1] == p_0@,
            ps[i as int] == p_1@,
            ops_follow_specs::<N>() ==> p_0@ == legendre_seq::<N>((i - 1) as nat),
            ops_follow_specs::<N>() ==> p_1@ == legendre_seq::<N>(i as nat),
        decreases n - i,
    {
        proof {
            if ops_follow_specs::<N>() {
                lemma_legendre_allowed_down::<N>(n as nat, (i + 1) as nat);
            }
        }
        let mut cx: Vec<N> = Vec::new();
        let cx_low = N::from(0u32);
        let cx_high = N::from(2 * i + 1);
        cx.push(cx_low);
        cx.push(cx_high);
        let ghost ii = i as nat;
        proof {
            if ops_follow_specs::<N>() {
                assert(cx@ =~= seq![constant::<N>(0), constant::<N>(2 * ii + 1)]);
            }
        }
        let x_term = Polynomial::from_coefficients(cx);
        let mut p_next = x_term.mul_polynomial(&p_1);
        let ghost prod = p_next@;
        let mut prev = p_0.duplicate();
        let scale = N::from(i);
        proof {
            if ops_follow_specs::<N>() {
                assert(scale == constant::<N>(ii));
            }
        }
        prev.mul_assign_scalar(scale);
        p_next.sub_assign_polynomial(&prev);
        let ghost diff = p_next@;
        let divisor = N::from(i + 1);
        proof {
            if ops_follow_specs::<N>() {
                assert(divisor == constant::<N>(ii + 1));
            }
        }
        p_next.div_assign_scalar(divisor);
        proof {
            assert(legendre_step_with::<N>(
                p_0@,
                p_1@,
                i,
                x_term@,
                prod,
                scale,
                prev@,
                diff,
                divisor,
                p_next@,
            ));
            let ps2 = ps.push(p_next@);
            assert forall|j: int| 1 <= j < i + 1 implies #[trigger] legendre_step_at::<N>(ps2, j) by {
                if j < i {
                    assert(legendre_step_at::<N>(ps, j));
                    assert(ps2[j - 1] == ps[j - 1] && ps2[j] == ps[j] && ps2[j + 1] == ps[j + 1]);
                } else {
                    assert(ps2[j - 1] == p_0@ && ps2[j] == p_1@ && ps2[j + 1] == p_next@);
                }
            }
            assert(legendre_run::<N>((i + 1) as nat, ps2));
            ps = ps2;
        }
        proof {
            if ops_follow_specs::<N>() {
                assert(legendre_seq::<N>(ii + 1) == divide_seq(
                    sub_seqs(
                        product_seqs(
                            seq![constant::<N>(0), constant::<N>(2 * ii + 1)],
                            legendre_seq::<N>(ii),
                        ),
                        scale_seq(legendre_seq::<N>((ii - 1) as nat), constant::<N>(ii)),
                    ),
                    constant::<N>(ii + 1),
                ));
            }
        }
        p_0 = p_1;
        p_1 = p_next;
        i = i + 1;
    }
    p_1
}

/// The `n`th physicists' Hermite polynomial, built by the recurrence
/// `H_{i+1} = 2x H_i - 2i H_{i-1}`.
pub fn hermite<N>(n: u32) -> (p: Polynomial<N>)
    where
        N: Copy + From<u32> + Add<Output = N> + Sub<Output = N> + Mul<Output = N> + Div<Output = N>
            + Neg<Output = N>,
    requires
        n + 2 <= usize::MAX,
        can_build_hermite::<N>(n as nat),
    ensures
        p@.len() == n + 1,
        hermite_result::<N>(n as nat, p@),
        ring_ops_follow_specs::<N>() ==> p@ == hermite_seq::<N>(n as nat),
{
    let mut c0: Vec<N> = Vec::new();
    let one = N::from(1u32);
    c0.push(one);
    proof {
        if ring_ops_follow_specs::<N>() {
            assert(c0@ =~= seq![constant::<N>(1)]);
        }
    }
    if n == 0 {
        proof {
            assert(hermite_run::<N>(0, c0@, seq![c0@]));
        }
        return Polynomial::from_coefficients(c0);
    }
    let mut c1: Vec<N> = Vec::new();
    let zero = N::from(0u32);
    let two = N::from(2u32);
    c1.push(zero);
    c1.push(two);
    proof {
        if ring_ops_follow_specs::<N>() {
            assert(c1@ =~= seq![constant::<N>(0), constant::<N>(2)]);
        }
    }
    let ghost mut hs: Seq<Seq<N>> = seq![c0@, c1@];
    proof {
        assert(hermite_run::<N>(1, c1@, hs));
    }
    if n == 1 {
        return Polynomial::from_coefficients(c1);
    }
    let x_2 = Polynomial::from_coefficients(c1);
    let mut h_0 = Polynomial::from_coefficients(c0);
    let mut h_1 = x_2.duplicate();
    let mut i: u32 = 1;
    while i < n
        invariant
            1 <= i <= n,
            n + 2 <= usize::MAX,
            can_build_hermite::<N>(n as nat),
            x_2@ == seq![constant::<N>(0), constant::<N>(2)] || !ring_ops_follow_specs::<N>(),
            x_2@.len() == 2,
            h_0@.len() == i,
            h_1@.len() == i + 1,
            hermite_run::<N>(i as nat, x_2@, hs),
            hs[i - 1] == h_0@,
            hs[i as int] == h_1@,
            ring_ops_follow_specs::<N>() ==> h_0@ == hermite_seq::<N>((i - 1) as nat),
            ring_ops_follow_specs::<N>() ==> h_1@ == hermite_seq::<N>(i as nat),
        decreases n - i,
    {
        proof {
            if ring_ops_follow_specs::<N>() {
                lemma_hermite_allowed_down::<N>(n as nat, (i + 1) as nat);
            }
        }
        let mut next = x_2.mul_polynomial(&h_1);
        let ghost prod = next@;
        let two = N::from(2u32);
        let index = N::from(i);
        let factor = two * index;
        let mut prev = h_0.duplicate();
        prev.mul_assign_scalar(factor);
        next.sub_assign_polynomial(&prev);
        proof {
            assert(hermite_step_with::<N>(x_2@, h_0@, h_1@, i, prod, two, index, factor, prev@, next@));
            let hs2 = hs.push(next@);
            assert forall|j: int| 1 <= j < i + 1 implies #[trigger] hermite_step_at::<N>(x_2@, hs2, j) by {
                if j < i {
                    assert(hermite_step_at::<N>(x_2@, hs, j));
                    assert(hs2[j - 1] == hs[j - 1] && hs2[j] == hs[j] && hs2[j + 1] == hs[j + 1]);
                } else {
                    assert(hs2[j - 1] == h_0@ && hs2[j] == h_1@ && hs2[j + 1] == next@);
                }
            }
            assert(hermite_run::<N>((i + 1) as nat, x_2@, hs2));
            hs = hs2;
        }
        proof {
            if ring_ops_follow_specs::<N>() {
                let ii = i as nat;
                assert(two == constant::<N>(2));
                assert(index == constant::<N>(ii));
                assert(hermite_seq::<N>(ii + 1) == sub_seqs(
                    product_seqs(seq![constant::<N>(0), constant::<N>(2)], hermite_seq::<N>(ii)),
                    scale_seq(
                        hermite_seq::<N>((ii - 1) as nat),
                        constant::<N>(2).mul_spec(constant::<N>(ii)),
                    ),
                ));
            }
        }
        h_0 = h_1;
        h_1 = next;
        i = i + 1;
    }
    h_1
}

/// The operations behind one coefficient of `laguerre(n)`: `numerator` is a
/// value that `N::from(C(n, k))` may give, `denominator` one of
/// `N::from(k!)`, `ratio` one of their quotient, `one` one of `N::from(1)`,
/// `sign` is `one` for even `k` and a value of `-one` for odd `k`, and `term`
/// a value that `ratio * sign` may give.
pub open spec fn laguerre_term_with<N: From<u32> + Mul<Output = N> + Div<Output = N> + Neg<
    Output = N,
>>(n: nat, k: nat, numerator: N, denominator: N, ratio: N, one: N, sign: N, term: N) -> bool {
    &&& converts_to(binomial(n, k) as u32, numerator)
    &&& converts_to(fact(k) as u32, denominator)
    &&& quotient_of(numerator, denominator, ratio)
    &&& converts_to(1u32, one)
    &&& if k % 2 == 0 {
        sign == one
    } else {
        negation_of(one, sign)
    }
    &&& product_of(ratio, sign, term)
}

/// `t` is a value that the coefficient of `x^k` in `laguerre(n)` may take,
/// `C(n, k) / k! * (-1)^k` computed with the coefficient type's conversion and
/// operators, each giving one of its possible values.
pub open spec fn laguerre_term<N: From<u32> + Mul<Output = N> + Div<Output = N> + Neg<Output = N>>(
    n: nat,
    k: nat,
    t: N,
) -> bool {
    exists|a: N, b: N, c: N, d: N, e: N| #[trigger] laguerre_term_with(n, k, a, b, c, d, e, t)
}

/// The `n`th Laguerre polynomial from its closed form: the coefficient of `x^k`
/// is `C(n, k) / k! * (-1)^k`, with `C(n, k)` and `k!` computed in `u32`.
pub fn laguerre<N>(n: u32) -> (p: Polynomial<N>)
    where
        N: Copy + From<u32> + Add<Output = N> + Sub<Output = N> + Mul<Output = N> + Div<Output = N>
            + Neg<Output = N>,
    requires
        fact(n as nat) <= u32::MAX,
        can_build_laguerre::<N>(n as nat),
    ensures
        p@.len() == n + 1,
        forall|k: int| 0 <= k <= n ==> laguerre_term::<N>(n as nat, k as nat, #[trigger] p@[k]),
        quotient_ops_follow_specs::<N>() ==> p@ == laguerre_seq::<N>(n as nat),
{
    proof {
        lemma_fact_bound(n as nat);
    }
    let mut coefficients: Vec<N> = Vec::new();
    let mut k: u32 = 0;
    while k < n + 1
        invariant
            k <= n + 1,
            n <= 12,
            fact(n as nat) <= u32::MAX,
            can_build_laguerre::<N>(n as nat),
            coefficients@.len() == k,
            forall|j: int| 0 <= j < k ==> laguerre_term::<N>(n as nat, j as nat, #[trigger] coefficients@[j]),
            quotient_ops_follow_specs::<N>() ==> forall|j: int|
                0 <= j < k ==> #[trigger] coefficients@[j] == laguerre_seq::<N>(n as nat)[j],
        decreases n + 1 - k,
    {
        proof {
            lemma_falling_le_fact(n as nat, k as nat);
            lemma_fact_monotone(k as nat, n as nat);
        }
        let c = n_choose_k(n, k);
        let f = factorial(k);
        let one = N::from(1u32);
        let sign = if k % 2 == 0 {
            one
        } else {
            one.neg()
        };
        let numerator = N::from(c);
        let denominator = N::from(f);
        proof {
            if quotient_ops_follow_specs::<N>() {
                assert(sign == alternating_sign::<N>(k as nat));
                assert(numerator == constant::<N>(binomial(n as nat, k as nat)));
                assert(denominator == constant::<N>(fact(k as nat)));
                assert(constant::<N>(binomial(n as nat, k as nat)).div_req(
                    constant::<N>(fact(k as nat)),
                ));
            }
        }
        let ratio = numerator / denominator;
        let term = ratio * sign;
        proof {
            assert(laguerre_term_with::<N>(n as nat, k as nat, numerator, denominator, ratio, one, sign, term));
        }
        coefficients.push(term);
        k = k + 1;
    }
    proof {
        if quotient_ops_follow_specs::<N>() {
            assert(coefficients@ =~= laguerre_seq::<N>(n as nat));
        }
    }
    Polynomial::from_coefficients(coefficients)
}

} // verus!
