//! Dense polynomials stored as their coefficient vectors, index 0 being the
//! constant term.
use vstd::prelude::*;
use vstd::std_specs::ops::{AddSpec, SubSpec, MulSpec, DivSpec, NegSpec};
use vstd::std_specs::convert::FromSpec;
use core::ops::{Add, Sub, Mul, Div, Neg};

verus! {

/// `z` is a value that `N::default()` may return: the zero of the coefficient
/// type (`0.0` for the floating-point types).
pub open spec fn is_zero_value<N: Default>(z: N) -> bool {
    call_ensures(N::default, (), z)
}

/// `r` is a value that `a + b` may give. For a type whose `+` follows vstd's
/// specification it is `a.add_spec(b)`; for the floating-point types it is
/// what vstd states of their `+`.
pub open spec fn sum_of<N: Add<Output = N>>(a: N, b: N, r: N) -> bool {
    call_ensures(<N as Add>::add, (a, b), r)
}

/// `r` is a value that `a - b` may give.
pub open spec fn difference_of<N: Sub<Output = N>>(a: N, b: N, r: N) -> bool {
    call_ensures(<N as Sub>::sub, (a, b), r)
}

/// `r` is a value that `a * b` may give.
pub open spec fn product_of<N: Mul<Output = N>>(a: N, b: N, r: N) -> bool {
    call_ensures(<N as Mul>::mul, (a, b), r)
}

/// `r` is a value that `a / b` may give.
pub open spec fn quotient_of<N: Div<Output = N>>(a: N, b: N, r: N) -> bool {
    call_ensures(<N as Div>::div, (a, b), r)
}

/// `r` is a value that `-a` may give.
pub open spec fn negation_of<N: Neg<Output = N>>(a: N, r: N) -> bool {
    call_ensures(<N as Neg>::neg, (a,), r)
}

/// Horner's rule on a nonempty coefficient sequence, lowest power first:
/// `c[0] + (c[1] + (c[2] + ...) * x) * x`, each product taken with the
/// accumulated value on the left.
pub open spec fn horner<N: Add<Output = N> + Mul<Output = N>>(c: Seq<N>, x: N) -> N
    decreases c.len(),
{
    if c.len() <= 1 {
        c[0]
    } else {
        horner(c.drop_first(), x).mul_spec(x).add_spec(c[0])
    }
}

/// `r` is a value that `N::from(v)` may give.
pub open spec fn converts_to<N: From<u32>>(v: u32, r: N) -> bool {
    call_ensures(<N as From<u32>>::from, (v,), r)
}

/// `t` is a value that `N::from(i) * c` may give: the product of `c` with a
/// value that the conversion of the power `i` may give.
pub open spec fn power_times<N: From<u32> + Mul<Output = N>>(i: u32, c: N, t: N) -> bool {
    exists|k: N| #[trigger] converts_to(i, k) && product_of(k, c, t)
}

/// `r` is a coefficient sequence that multiplying every coefficient of `a` by
/// `c` may give.
pub open spec fn scaled_result<N: Mul<Output = N>>(a: Seq<N>, c: N, r: Seq<N>) -> bool {
    &&& r.len() == a.len()
    &&& forall|i: int| 0 <= i < a.len() ==> product_of(a[i], c, #[trigger] r[i])
}

/// `r` is a coefficient sequence that dividing every coefficient of `a` by `c`
/// may give.
pub open spec fn divided_result<N: Div<Output = N>>(a: Seq<N>, c: N, r: Seq<N>) -> bool {
    &&& r.len() == a.len()
    &&& forall|i: int| 0 <= i < a.len() ==> quotient_of(a[i], c, #[trigger] r[i])
}

/// `r` is a coefficient sequence that subtracting `b` from `a` coefficient by
/// coefficient may give, the coefficients of `b` past the end of `a` negated.
pub open spec fn difference_result<N: Sub<Output = N> + Neg<Output = N>>(
    a: Seq<N>,
    b: Seq<N>,
    r: Seq<N>,
) -> bool {
    &&& r.len() == sub_seqs(a, b).len()
    &&& forall|i: int| 0 <= i < a.len() && i < b.len() ==> difference_of(a[i], b[i], #[trigger] r[i])
    &&& forall|i: int| b.len() <= i < a.len() ==> #[trigger] r[i] == a[i]
    &&& forall|i: int| a.len() <= i < b.len() ==> negation_of(b[i], #[trigger] r[i])
}

/// `r` is a coefficient sequence that the product of the nonempty `a` and `b`
/// may give.
pub open spec fn product_result<N: Add<Output = N> + Mul<Output = N>>(
    a: Seq<N>,
    b: Seq<N>,
    r: Seq<N>,
) -> bool {
    &&& r.len() == a.len() + b.len() - 1
    &&& forall|k: int| 0 <= k < r.len() ==> convolution_result(a, b, k, #[trigger] r[k])
}

/// `v` and `p` record a run of Horner's rule on the nonempty coefficients `c`
/// at `x`, highest power first: `v[len - 1]` is the last coefficient, and for
/// each lower `k`, `p[k]` is a value that `v[k + 1] * x` may give and `v[k]` a
/// value that `p[k] + c[k]` may give.
pub open spec fn horner_trace<N: Add<Output = N> + Mul<Output = N>>(
    c: Seq<N>,
    x: N,
    v: Seq<N>,
    p: Seq<N>,
) -> bool {
    &&& v.len() == c.len()
    &&& p.len() == c.len()
    &&& v[c.len() - 1] == c[c.len() - 1]
    &&& forall|k: int|
        0 <= k < c.len() - 1 ==> product_of(v[k + 1], x, #[trigger] p[k]) && sum_of(p[k], c[k], v[k])
}

/// `r` is a value that Horner's rule may give on `c` at `x` when each product
/// and sum gives one of its possible values. For a type whose operators follow
/// vstd's specifications that value is `horner(c, x)`.
pub open spec fn horner_result<N: Add<Output = N> + Mul<Output = N>>(c: Seq<N>, x: N, r: N) -> bool {
    exists|v: Seq<N>, p: Seq<N>| #[trigger] horner_trace(c, x, v, p) && r == v[0]
}

/// `ve`, `vd`, `pe` and `pd` record a run of `evaluate_derivative` on the
/// coefficients `c` (at least two) at `x`: the value and derivative
/// accumulators both start at the last coefficient; for each lower power `k`
/// down to 1, `pe[k]` is a value of `ve[k + 1] * x`, `ve[k]` of `pe[k] + c[k]`,
/// `pd[k]` of `vd[k + 1] * x` and `vd[k]` of `pd[k] + ve[k]`; last, `pe[0]` is
/// a value of `x * ve[1]` and `ve[0]` of `pe[0] + c[0]`.
pub open spec fn derivative_trace<N: Add<Output = N> + Mul<Output = N>>(
    c: Seq<N>,
    x: N,
    ve: Seq<N>,
    vd: Seq<N>,
    pe: Seq<N>,
    pd: Seq<N>,
) -> bool {
    let n = c.len() as int;
    &&& ve.len() == n
    &&& vd.len() == n
    &&& pe.len() == n
    &&& pd.len() == n
    &&& ve[n - 1] == c[n - 1]
    &&& vd[n - 1] == c[n - 1]
    &&& forall|k: int|
        1 <= k < n - 1 ==> {
            &&& product_of(ve[k + 1], x, #[trigger] pe[k])
            &&& sum_of(pe[k], c[k], ve[k])
            &&& product_of(vd[k + 1], x, pd[k])
            &&& sum_of(pd[k], ve[k], vd[k])
        }
    &&& product_of(x, ve[1], pe[0])
    &&& sum_of(pe[0], c[0], ve[0])
}

/// `r` is a pair that `evaluate_derivative` may give on the coefficients `c`
/// (at least two) at `x` when each product and sum gives one of its possible
/// values: the final value and derivative accumulators of such a run.
pub open spec fn derivative_result<N: Add<Output = N> + Mul<Output = N>>(
    c: Seq<N>,
    x: N,
    r: (N, N),
) -> bool {
    exists|ve: Seq<N>, vd: Seq<N>, pe: Seq<N>, pd: Seq<N>|
        #[trigger] derivative_trace(c, x, ve, vd, pe, pd) && r == (ve[0], vd[1])
}

/// The value and derivative accumulators of `evaluate_derivative` after it has
/// folded in the nonempty tail `s` of the coefficients, highest power first:
/// both start at the last coefficient; then for each lower coefficient `c`,
/// the value becomes `value * x + c` and the derivative `derivative * x + value`.
pub open spec fn derivative_accumulators<N: Add<Output = N> + Mul<Output = N>>(
    s: Seq<N>,
    x: N,
) -> (N, N)
    decreases s.len(),
{
    if s.len() <= 1 {
        (s[0], s[0])
    } else {
        let (e, d) = derivative_accumulators(s.drop_first(), x);
        let e2 = e.mul_spec(x).add_spec(s[0]);
        (e2, d.mul_spec(x).add_spec(e2))
    }
}

/// What `evaluate_derivative` computes on coefficients `c` with at least two
/// entries: the accumulators over every coefficient but the constant one, then
/// the constant folded into the value as `x * value + c[0]`.
pub open spec fn value_and_derivative<N: Add<Output = N> + Mul<Output = N>>(c: Seq<N>, x: N) -> (
    N,
    N,
) {
    let (e, d) = derivative_accumulators(c.drop_first(), x);
    (x.mul_spec(e).add_spec(c[0]), d)
}

/// Every sum and every product of two values of `N` is allowed, as for the
/// floating-point types.
pub open spec fn sums_and_products_total<N: Add<Output = N> + Mul<Output = N>>() -> bool {
    &&& forall|a: N, b: N| #[trigger] a.mul_req(b)
    &&& forall|a: N, b: N| #[trigger] a.add_req(b)
}

/// Every product and sum that Horner's rule performs on `c` at `x` is allowed,
/// the intermediate values taken as specified.
pub open spec fn horner_allowed<N: Add<Output = N> + Mul<Output = N>>(c: Seq<N>, x: N) -> bool
    decreases c.len(),
{
    if c.len() <= 1 {
        true
    } else {
        &&& horner_allowed(c.drop_first(), x)
        &&& horner(c.drop_first(), x).mul_req(x)
        &&& horner(c.drop_first(), x).mul_spec(x).add_req(c[0])
    }
}

/// `evaluate` may run on `c` at `x`: its steps are allowed on the specified
/// intermediate values when `+` and `*` follow their specifications, and every
/// sum and product is allowed otherwise. A single coefficient needs no step.
pub open spec fn can_evaluate<N: Add<Output = N> + Mul<Output = N>>(c: Seq<N>, x: N) -> bool {
    c.len() <= 1 || if N::obeys_mul_spec() && N::obeys_add_spec() {
        horner_allowed(c, x)
    } else {
        sums_and_products_total::<N>()
    }
}

/// Every product and sum that the accumulators of `evaluate_derivative`
/// perform on the tail `s` at `x` is allowed, the intermediate values taken as
/// specified.
pub open spec fn accumulators_allowed<N: Add<Output = N> + Mul<Output = N>>(s: Seq<N>, x: N) -> bool
    decreases s.len(),
{
    if s.len() <= 1 {
        true
    } else {
        let (e, d) = derivative_accumulators(s.drop_first(), x);
        let e2 = e.mul_spec(x).add_spec(s[0]);
        &&& accumulators_allowed(s.drop_first(), x)
        &&& e.mul_req(x)
        &&& e.mul_spec(x).add_req(s[0])
        &&& d.mul_req(x)
        &&& d.mul_spec(x).add_req(e2)
    }
}

/// `evaluate_derivative` may run on `c` at `x`, in the sense of `can_evaluate`.
pub open spec fn can_evaluate_derivative<N: Add<Output = N> + Mul<Output = N>>(
    c: Seq<N>,
    x: N,
) -> bool {
    c.len() <= 1 || if N::obeys_mul_spec() && N::obeys_add_spec() {
        let e = derivative_accumulators(c.drop_first(), x).0;
        &&& accumulators_allowed(c.drop_first(), x)
        &&& x.mul_req(e)
        &&& x.mul_spec(e).add_req(c[0])
    } else {
        sums_and_products_total::<N>()
    }
}

/// `derivative` may run on `c`: each product `i * c[i]` is allowed, with `i`
/// as converted from `u32` when the conversion follows its specification, and
/// every product is allowed otherwise.
pub open spec fn can_differentiate<N: From<u32> + Mul<Output = N>>(c: Seq<N>) -> bool {
    if <N as FromSpec<u32>>::obeys_from_spec() {
        forall|i: int| 1 <= i < c.len() ==> #[trigger] <N as FromSpec<u32>>::from_spec(i as u32).mul_req(c[i])
    } else {
        forall|a: N, b: N| #[trigger] a.mul_req(b)
    }
}

/// The coefficients of the derivative of a polynomial with at least two
/// coefficients `c`: `i * c[i]` at index `i - 1`, the index converted from `u32`.
pub open spec fn derivative_coefficients<N: From<u32> + Mul<Output = N>>(c: Seq<N>) -> Seq<N> {
    Seq::new(
        (c.len() - 1) as nat,
        |j: int| <N as FromSpec<u32>>::from_spec((j + 1) as u32).mul_spec(c[j + 1]),
    )
}

/// Coefficient-wise sum: `a[i] + b[i]` where both have a coefficient, the
/// longer operand's coefficient elsewhere.
pub open spec fn add_seqs<N: Add<Output = N>>(a: Seq<N>, b: Seq<N>) -> Seq<N> {
    Seq::new(
        if a.len() >= b.len() {
            a.len()
        } else {
            b.len()
        },
        |i: int|
            if i < a.len() && i < b.len() {
                a[i].add_spec(b[i])
            } else if i < a.len() {
                a[i]
            } else {
                b[i]
            },
    )
}

/// Coefficient-wise difference: `a[i] - b[i]` where both have a coefficient,
/// `a[i]` past the end of `b`, and `-b[i]` past the end of `a`.
pub open spec fn sub_seqs<N: Sub<Output = N> + Neg<Output = N>>(a: Seq<N>, b: Seq<N>) -> Seq<N> {
    Seq::new(
        if a.len() >= b.len() {
            a.len()
        } else {
            b.len()
        },
        |i: int|
            if i < a.len() && i < b.len() {
                a[i].sub_spec(b[i])
            } else if i < a.len() {
                a[i]
            } else {
                b[i].neg_spec()
            },
    )
}

/// Every coefficient multiplied by `c` (coefficient on the left).
pub open spec fn scale_seq<N: Mul<Output = N>>(a: Seq<N>, c: N) -> Seq<N> {
    Seq::new(a.len(), |i: int| a[i].mul_spec(c))
}

/// Every coefficient divided by `c`.
pub open spec fn divide_seq<N: Div<Output = N>>(a: Seq<N>, c: N) -> Seq<N> {
    Seq::new(a.len(), |i: int| a[i].div_spec(c))
}

/// The lowest index `i` of `a` for which `a[i] * b[k - i]` is a term of the
/// coefficient of `x^k` in the product.
pub open spec fn product_low<N>(b: Seq<N>, k: int) -> int {
    if k < b.len() {
        0
    } else {
        k - b.len() + 1
    }
}

/// The highest index `i` of `a` for which `a[i] * b[k - i]` is a term of the
/// coefficient of `x^k` in the product.
pub open spec fn product_high<N>(a: Seq<N>, k: int) -> int {
    if k < a.len() {
        k
    } else {
        a.len() - 1
    }
}

/// The sum `a[lo] * b[k - lo] + ... + a[j] * b[k - j]`, added left to right,
/// where `lo` is `product_low(b, k)`.
pub open spec fn product_terms<N: Add<Output = N> + Mul<Output = N>>(
    a: Seq<N>,
    b: Seq<N>,
    k: int,
    j: int,
) -> N
    decreases j - product_low(b, k),
{
    if j <= product_low(b, k) {
        a[j].mul_spec(b[k - j])
    } else {
        product_terms(a, b, k, j - 1).add_spec(a[j].mul_spec(b[k - j]))
    }
}

/// `s` and `t` record a run of the sum for the coefficient of `x^k` in the
/// product of `a` and `b`, indexed by the index `i` of `a`: each `t[i]` is a
/// value that `a[i] * b[k - i]` may give, `s` starts at the first term, and
/// each later `s[i]` is a value that `s[i - 1] + t[i]` may give.
pub open spec fn convolution_trace<N: Add<Output = N> + Mul<Output = N>>(
    a: Seq<N>,
    b: Seq<N>,
    k: int,
    s: Seq<N>,
    t: Seq<N>,
) -> bool {
    let lo = product_low(b, k);
    let hi = product_high(a, k);
    &&& s.len() == a.len()
    &&& t.len() == a.len()
    &&& forall|i: int| lo <= i <= hi ==> product_of(a[i], b[k - i], #[trigger] t[i])
    &&& s[lo] == t[lo]
    &&& forall|i: int| lo < i <= hi ==> sum_of(s[i - 1], #[trigger] t[i], s[i])
}

/// `r` is a value that the coefficient of `x^k` in the product of `a` and `b`
/// may take when each product and sum gives one of its possible values.
pub open spec fn convolution_result<N: Add<Output = N> + Mul<Output = N>>(
    a: Seq<N>,
    b: Seq<N>,
    k: int,
    r: N,
) -> bool {
    exists|s: Seq<N>, t: Seq<N>| #[trigger] convolution_trace(a, b, k, s, t) && r == s[product_high(a, k)]
}

/// The coefficients of the product of two nonempty polynomials.
pub open spec fn product_seqs<N: Add<Output = N> + Mul<Output = N>>(a: Seq<N>, b: Seq<N>) -> Seq<N> {
    Seq::new((a.len() + b.len() - 1) as nat, |k: int| product_terms(a, b, k, product_high(a, k)))
}

/// The additions that adding `b` to `a` coefficient by coefficient performs
/// are all allowed.
pub open spec fn can_add_seqs<N: Add<Output = N>>(a: Seq<N>, b: Seq<N>) -> bool {
    forall|i: int| 0 <= i < a.len() && i < b.len() ==> #[trigger] a[i].add_req(b[i])
}

/// The subtractions and negations that subtracting `b` from `a` coefficient by
/// coefficient performs are all allowed.
pub open spec fn can_sub_seqs<N: Sub<Output = N> + Neg<Output = N>>(a: Seq<N>, b: Seq<N>) -> bool {
    &&& forall|i: int| 0 <= i < a.len() && i < b.len() ==> #[trigger] a[i].sub_req(b[i])
    &&& forall|i: int| a.len() <= i < b.len() ==> #[trigger] b[i].neg_req()
}

/// Multiplying every coefficient of `a` by `c` is allowed.
pub open spec fn can_scale_seq<N: Mul<Output = N>>(a: Seq<N>, c: N) -> bool {
    forall|i: int| 0 <= i < a.len() ==> #[trigger] a[i].mul_req(c)
}

/// Dividing every coefficient of `a` by `c` is allowed.
pub open spec fn can_divide_seq<N: Div<Output = N>>(a: Seq<N>, c: N) -> bool {
    forall|i: int| 0 <= i < a.len() ==> #[trigger] a[i].div_req(c)
}

/// Every product and partial sum that the coefficients of `a * b` are built
/// from is allowed, the partial sums taken as specified.
pub open spec fn product_allowed<N: Add<Output = N> + Mul<Output = N>>(a: Seq<N>, b: Seq<N>) -> bool {
    forall|k: int, j: int|
        #![trigger product_terms(a, b, k, j)]
        0 <= k < a.len() + b.len() - 1 && product_low(b, k) <= j <= product_high(a, k) ==> {
            &&& a[j].mul_req(b[k - j])
            &&& j > product_low(b, k) ==> product_terms(a, b, k, j - 1).add_req(
                a[j].mul_spec(b[k - j]),
            )
        }
}

/// Multiplying the polynomials `a` and `b` is allowed: both are nonempty, the
/// product's length fits in `usize`, and the products and sums performed are
/// allowed (on the specified partial sums when `+` and `*` follow their
/// specifications, for all values otherwise).
pub open spec fn can_multiply_seqs<N: Add<Output = N> + Mul<Output = N>>(a: Seq<N>, b: Seq<N>) -> bool {
    &&& a.len() >= 1
    &&& b.len() >= 1
    &&& a.len() + b.len() <= usize::MAX
    &&& if N::obeys_mul_spec() && N::obeys_add_spec() {
        product_allowed(a, b)
    } else {
        sums_and_products_total::<N>()
    }
}

/// `new` is `old` with the coefficient of `x^power` set to `c`, grown with
/// zero coefficients (values of `N::default()`) when `power` is past its end.
pub open spec fn sets_coefficient<N: Default>(old: Seq<N>, new: Seq<N>, power: int, c: N) -> bool {
    &&& new.len() == if power < old.len() {
        old.len() as int
    } else {
        power + 1
    }
    &&& new[power] == c
    &&& forall|i: int| 0 <= i < old.len() && i != power ==> #[trigger] new[i] == old[i]
    &&& forall|i: int| old.len() <= i < new.len() && i != power ==> is_zero_value(#[trigger] new[i])
}

/// Horner's rule is allowed on every suffix of coefficients on which it is
/// allowed.
proof fn lemma_horner_allowed_suffix<N: Add<Output = N> + Mul<Output = N>>(c: Seq<N>, x: N, i: int)
    requires
        horner_allowed(c, x),
        0 <= i < c.len(),
    ensures
        horner_allowed(c.subrange(i, c.len() as int), x),
    decreases i,
{
    if i == 0 {
        assert(c.subrange(0, c.len() as int) =~= c);
    } else {
        lemma_horner_allowed_suffix(c, x, i - 1);
        assert(c.subrange(i - 1, c.len() as int).drop_first() =~= c.subrange(i, c.len() as int));
    }
}

/// The derivative accumulators are allowed on every suffix of a tail on which
/// they are allowed.
proof fn lemma_accumulators_allowed_suffix<N: Add<Output = N> + Mul<Output = N>>(
    s: Seq<N>,
    x: N,
    i: int,
)
    requires
        accumulators_allowed(s, x),
        0 <= i < s.len(),
    ensures
        accumulators_allowed(s.subrange(i, s.len() as int), x),
    decreases i,
{
    if i == 0 {
        assert(s.subrange(0, s.len() as int) =~= s);
    } else {
        lemma_accumulators_allowed_suffix(s, x, i - 1);
        assert(s.subrange(i - 1, s.len() as int).drop_first() =~= s.subrange(i, s.len() as int));
    }
}

/// A polynomial, stored as the vector of its coefficients; index 0 is the
/// constant term, index 1 the linear term, and so on.
#[derive(Debug, Clone)]
pub struct Polynomial<N> {
    coefficients: Vec<N>,
}

impl<N> View for Polynomial<N> {
    type V = Seq<N>;

    closed spec fn view(&self) -> Seq<N> {
        self.coefficients@
    }
}

impl<N: Copy> Polynomial<N> {
    /// The zero polynomial: a single constant coefficient equal to zero.
    pub fn new() -> (p: Self)
        where N: Default,
        ensures
            p@.len() == 1,
            is_zero_value(p@[0]),
    {
        let mut coefficients: Vec<N> = Vec::new();
        coefficients.push(N::default());
        Polynomial { coefficients }
    }

    /// The polynomial whose coefficients are `coefficients`, lowest power first.
    pub fn from_coefficients(coefficients: Vec<N>) -> (p: Self)
        ensures
            p@ == coefficients@,
    {
        Polynomial { coefficients }
    }

    /// The coefficients, lowest power first.
    pub fn coefficients(&self) -> (c: &Vec<N>)
        ensures
            c@ == self@,
    {
        &self.coefficients
    }

    /// The order (degree) of the polynomial: the index of its last coefficient.
    pub fn order(&self) -> (o: usize)
        requires
            self@.len() >= 1,
        ensures
            o == self@.len() - 1,
    {
        self.coefficients.len() - 1
    }

    /// The coefficient of `x^power`; zero beyond the stored coefficients.
    pub fn get_coefficient(&self, power: usize) -> (c: N)
        where N: Default,
        ensures
            (power as int) < self@.len() ==> c == self@[power as int],
            (power as int) >= self@.len() ==> is_zero_value(c),
    {
        if power < self.coefficients.len() {
            self.coefficients[power]
        } else {
            N::default()
        }
    }

    /// Evaluate the polynomial at `x` by Horner's rule, starting from the
    /// highest coefficient.
    pub fn evaluate(&self, x: N) -> (r: N)
        where N: Add<Output = N> + Mul<Output = N>,
        requires
            self@.len() >= 1,
            can_evaluate(self@, x),
        ensures
            self@.len() == 1 ==> r == self@[0],
            horner_result(self@, x, r),
            N::obeys_mul_spec() && N::obeys_add_spec() ==> r == horner(self@, x),
    {
        let n = self.coefficients.len();
        let mut acc = self.coefficients[n - 1];
        let mut i = n - 1;
        let ghost mut v: Seq<N> = self@;
        let ghost mut p: Seq<N> = self@;
        proof {
            assert(self@.subrange(i as int, n as int) =~= seq![self@[n - 1]]);
        }
        while i > 0
            invariant
                n == self@.len(),
                i < n,
                can_evaluate(self@, x),
                n == 1 ==> acc == self@[0],
                v.len() == n,
                p.len() == n,
                v[n - 1] == self@[n - 1],
                acc == v[i as int],
                forall|k: int|
                    i <= k < n - 1 ==> product_of(v[k + 1], x, #[trigger] p[k]) && sum_of(
                        p[k],
                        self@[k],
                        v[k],
                    ),
                N::obeys_mul_spec() && N::obeys_add_spec() ==> acc == horner(
                    self@.subrange(i as int, n as int),
                    x,
                ),
            decreases i,
        {
            i = i - 1;
            proof {
                assert(self@.subrange(i as int, n as int).drop_first() =~= self@.subrange(
                    i + 1,
                    n as int,
                ));
                if N::obeys_mul_spec() && N::obeys_add_spec() {
                    lemma_horner_allowed_suffix(self@, x, i as int);
                }
            }
            let prod = acc * x;
            acc = prod + self.coefficients[i];
            proof {
                p = p.update(i as int, prod);
                v = v.update(i as int, acc);
            }
        }
        proof {
            assert(self@.subrange(0, n as int) =~= self@);
            assert(horner_trace(self@, x, v, p));
        }
        acc
    }

    /// Evaluate the polynomial and its derivative at `x` in one pass; a
    /// polynomial with a single coefficient `c` gives `(c, 0)`.
    pub fn evaluate_derivative(&self, x: N) -> (r: (N, N))
        where N: Default + Add<Output = N> + Mul<Output = N>,
        requires
            self@.len() >= 1,
            can_evaluate_derivative(self@, x),
        ensures
            self@.len() == 1 ==> r.0 == self@[0] && is_zero_value(r.1),
            self@.len() >= 2 ==> derivative_result(self@, x, r),
            self@.len() >= 2 && N::obeys_mul_spec() && N::obeys_add_spec() ==> r
                == value_and_derivative(self@, x),
    {
        let n = self.coefficients.len();
        if n == 1 {
            return (self.coefficients[0], N::default());
        }
        let mut acc_eval = self.coefficients[n - 1];
        let mut acc_deriv = self.coefficients[n - 1];
        let mut i = n - 1;
        let ghost mut ve: Seq<N> = self@;
        let ghost mut vd: Seq<N> = self@;
        let ghost mut pe: Seq<N> = self@;
        let ghost mut pd: Seq<N> = self@;
        proof {
            assert(self@.subrange(i as int, n as int) =~= seq![self@[n - 1]]);
        }
        while i > 1
            invariant
                n == self@.len(),
                2 <= n,
                1 <= i < n,
                can_evaluate_derivative(self@, x),
                ve.len() == n,
                vd.len() == n,
                pe.len() == n,
                pd.len() == n,
                ve[n - 1] == self@[n - 1],
                vd[n - 1] == self@[n - 1],
                acc_eval == ve[i as int],
                acc_deriv == vd[i as int],
                forall|k: int|
                    i <= k < n - 1 ==> {
                        &&& product_of(ve[k + 1], x, #[trigger] pe[k])
                        &&& sum_of(pe[k], self@[k], ve[k])
                        &&& product_of(vd[k + 1], x, pd[k])
                        &&& sum_of(pd[k], ve[k], vd[k])
                    },
                N::obeys_mul_spec() && N::obeys_add_spec() ==> (acc_eval, acc_deriv)
                    == derivative_accumulators(self@.subrange(i as int, n as int), x),
            decreases i,
        {
            i = i - 1;
            proof {
                assert(self@.subrange(i as int, n as int).drop_first() =~= self@.subrange(
                    i + 1,
                    n as int,
                ));
                if N::obeys_mul_spec() && N::obeys_add_spec() {
                    assert(self@.drop_first().subrange(i - 1, n - 1) =~= self@.subrange(
                        i as int,
                        n as int,
                    ));
                    lemma_accumulators_allowed_suffix(self@.drop_first(), x, i - 1);
                }
            }
            let prod = acc_eval * x;
            acc_eval = prod + self.coefficients[i];
            let dprod = acc_deriv * x;
            acc_deriv = dprod + acc_eval;
            proof {
                pe = pe.update(i as int, prod);
                ve = ve.update(i as int, acc_eval);
                pd = pd.update(i as int, dprod);
                vd = vd.update(i as int, acc_deriv);
            }
        }
        proof {
            assert(self@.subrange(1, n as int) =~= self@.drop_first());
        }
        let prod = x * acc_eval;
        acc_eval = prod + self.coefficients[0];
        proof {
            pe = pe.update(0, prod);
            ve = ve.update(0, acc_eval);
            assert(derivative_trace(self@, x, ve, vd, pe, pd));
        }
        (acc_eval, acc_deriv)
    }

    /// Set the coefficient of `x^power`, first growing the polynomial with zero
    /// coefficients until it has one for that power.
    pub fn set_coefficient(&mut self, power: u32, coefficient: N)
        where N: Default,
        requires
            power < u32::MAX,
            old(self)@.len() <= u32::MAX,
        ensures
            sets_coefficient(old(self)@, final(self)@, power as int, coefficient),
    {
        let ghost old_c = self@;
        while (power + 1) > (self.coefficients.len() as u32)
            invariant
                power < u32::MAX,
                old_c.len() <= self@.len() <= u32::MAX,
                self@.len() <= old_c.len() || self@.len() <= power + 1,
                forall|i: int| 0 <= i < old_c.len() ==> #[trigger] self@[i] == old_c[i],
                forall|i: int| old_c.len() <= i < self@.len() ==> is_zero_value(#[trigger] self@[i]),
            decreases power + 1 - self@.len(),
        {
            let z = N::default();
            self.coefficients.push(z);
        }
        self.coefficients.set(power as usize, coefficient);
    }

    /// Remove the coefficient of `x^power`: it becomes zero. A power past the
    /// last coefficient has none, and the polynomial is left as it is.
    pub fn purge_coefficient(&mut self, power: u32)
        where N: Default,
        requires
            old(self)@.len() <= u32::MAX,
            power <= old(self)@.len(),
        ensures
            power == old(self)@.len() ==> final(self)@ == old(self)@,
            (power as int) < old(self)@.len() ==> {
                &&& final(self)@.len() == old(self)@.len()
                &&& is_zero_value(final(self)@[power as int])
                &&& forall|i: int|
                    0 <= i < old(self)@.len() && i != power ==> #[trigger] final(self)@[i] == old(
                        self,
                    )@[i]
            },
    {
        let len = self.coefficients.len() as u32;
        if power < len {
            let z = N::default();
            self.coefficients.set(power as usize, z);
        }
    }

    /// The derivative of the polynomial. The derivative of a constant is the
    /// zero polynomial.
    pub fn derivative(&self) -> (d: Self)
        where N: Default + From<u32> + Mul<Output = N>,
        requires
            self@.len() >= 1,
            self@.len() - 1 <= u32::MAX,
            can_differentiate(self@),
        ensures
            self@.len() == 1 ==> d@.len() == 1 && is_zero_value(d@[0]),
            self@.len() >= 2 ==> d@.len() == self@.len() - 1,
            self@.len() >= 2 ==> forall|j: int|
                0 <= j < self@.len() - 1 ==> power_times((j + 1) as u32, self@[j + 1], #[trigger] d@[j]),
            self@.len() >= 2 && <N as FromSpec<u32>>::obeys_from_spec() && N::obeys_mul_spec()
                ==> d@ == derivative_coefficients(self@),
    {
        let n = self.coefficients.len();
        if n == 1 {
            let mut coefficients: Vec<N> = Vec::new();
            coefficients.push(N::default());
            return Polynomial { coefficients };
        }
        let mut deriv_coeff: Vec<N> = Vec::new();
        let mut i: usize = 1;
        while i < n
            invariant
                n == self@.len(),
                n - 1 <= u32::MAX,
                1 <= i <= n,
                deriv_coeff@.len() == i - 1,
                can_differentiate(self@),
                forall|j: int|
                    0 <= j < i - 1 ==> power_times((j + 1) as u32, self@[j + 1], #[trigger] deriv_coeff@[j]),
                <N as FromSpec<u32>>::obeys_from_spec() && N::obeys_mul_spec() ==> forall|j: int|
                    0 <= j < i - 1 ==> #[trigger] deriv_coeff@[j]
                        == derivative_coefficients(self@)[j],
            decreases n - i,
        {
            let k = N::from(i as u32);
            proof {
                if <N as FromSpec<u32>>::obeys_from_spec() {
                    assert(<N as FromSpec<u32>>::from_spec(i as u32).mul_req(self@[i as int]));
                }
            }
            let term = k * self.coefficients[i];
            proof {
                assert(converts_to(i as u32, k));
                assert(power_times(i as u32, self@[i as int], term));
            }
            deriv_coeff.push(term);
            i = i + 1;
        }
        proof {
            if <N as FromSpec<u32>>::obeys_from_spec() && N::obeys_mul_spec() {
                assert(deriv_coeff@ =~= derivative_coefficients(self@));
            }
        }
        Polynomial { coefficients: deriv_coeff }
    }

    /// The derivative of the polynomial, with the value of each power `i` in
    /// the coefficient type given as `index_values[i]` (for coefficient types
    /// without a conversion from `u32`). The derivative of a constant is the
    /// zero polynomial.
    pub fn derivative_with_index_values(&self, index_values: &Vec<N>) -> (d: Self)
        where N: Default + Mul<Output = N>,
        requires
            self@.len() >= 1,
            index_values@.len() == self@.len(),
            N::obeys_mul_spec() ==> forall|i: int|
                1 <= i < self@.len() ==> #[trigger] index_values@[i].mul_req(self@[i]),
            !N::obeys_mul_spec() ==> forall|a: N, b: N| #[trigger] a.mul_req(b),
        ensures
            self@.len() == 1 ==> d@.len() == 1 && is_zero_value(d@[0]),
            self@.len() >= 2 ==> d@.len() == self@.len() - 1,
            self@.len() >= 2 ==> forall|j: int|
                0 <= j < self@.len() - 1 ==> product_of(index_values@[j + 1], self@[j + 1], #[trigger] d@[j]),
            self@.len() >= 2 && N::obeys_mul_spec() ==> d@ == Seq::new(
                (self@.len() - 1) as nat,
                |j: int| index_values@[j + 1].mul_spec(self@[j + 1]),
            ),
    {
        let n = self.coefficients.len();
        if n == 1 {
            let mut coefficients: Vec<N> = Vec::new();
            coefficients.push(N::default());
            return Polynomial { coefficients };
        }
        let mut deriv_coeff: Vec<N> = Vec::new();
        let mut i: usize = 1;
        while i < n
            invariant
                n == self@.len(),
                index_values@.len() == n,
                1 <= i <= n,
                deriv_coeff@.len() == i - 1,
                N::obeys_mul_spec() ==> forall|t: int|
                    1 <= t < n ==> #[trigger] index_values@[t].mul_req(self@[t]),
                !N::obeys_mul_spec() ==> forall|a: N, b: N| #[trigger] a.mul_req(b),
                forall|j: int|
                    0 <= j < i - 1 ==> product_of(index_values@[j + 1], self@[j + 1], #[trigger] deriv_coeff@[j]),
                N::obeys_mul_spec() ==> forall|j: int|
                    0 <= j < i - 1 ==> #[trigger] deriv_coeff@[j] == index_values@[j + 1].mul_spec(
                        self@[j + 1],
                    ),
            decreases n - i,
        {
            let term = index_values[i] * self.coefficients[i];
            deriv_coeff.push(term);
            i = i + 1;
        }
        proof {
            if N::obeys_mul_spec() {
                assert(deriv_coeff@ =~= Seq::new(
                    (n - 1) as nat,
                    |j: int| index_values@[j + 1].mul_spec(self@[j + 1]),
                ));
            }
        }
        Polynomial { coefficients: deriv_coeff }
    }

    /// A copy of the polynomial.
    pub fn duplicate(&self) -> (p: Self)
        ensures
            p@ == self@,
    {
        let mut coefficients: Vec<N> = Vec::new();
        let mut i: usize = 0;
        while i < self.coefficients.len()
            invariant
                i <= self@.len(),
                coefficients@ == self@.subrange(0, i as int),
            decreases self@.len() - i,
        {
            coefficients.push(self.coefficients[i]);
            i = i + 1;
            proof {
                assert(coefficients@ =~= self@.subrange(0, i as int));
            }
        }
        proof {
            assert(self@.subrange(0, self@.len() as int) =~= self@);
        }
        Polynomial { coefficients }
    }

    /// Add `rhs` to the constant coefficient.
    pub fn add_assign_scalar(&mut self, rhs: N)
        where N: Add<Output = N>,
        requires
            old(self)@.len() >= 1,
            old(self)@[0].add_req(rhs),
        ensures
            final(self)@.len() == old(self)@.len(),
            forall|i: int| 1 <= i < old(self)@.len() ==> #[trigger] final(self)@[i] == old(self)@[i],
            sum_of(old(self)@[0], rhs, final(self)@[0]),
            N::obeys_add_spec() ==> final(self)@ == old(self)@.update(0, old(self)@[0].add_spec(rhs)),
    {
        let c = self.coefficients[0] + rhs;
        self.coefficients.set(0, c);
    }

    /// Subtract `rhs` from the constant coefficient.
    pub fn sub_assign_scalar(&mut self, rhs: N)
        where N: Sub<Output = N>,
        requires
            old(self)@.len() >= 1,
            old(self)@[0].sub_req(rhs),
        ensures
            final(self)@.len() == old(self)@.len(),
            forall|i: int| 1 <= i < old(self)@.len() ==> #[trigger] final(self)@[i] == old(self)@[i],
            difference_of(old(self)@[0], rhs, final(self)@[0]),
            N::obeys_sub_spec() ==> final(self)@ == old(self)@.update(0, old(self)@[0].sub_spec(rhs)),
    {
        let c = self.coefficients[0] - rhs;
        self.coefficients.set(0, c);
    }

    /// Multiply every coefficient by `rhs`.
    pub fn mul_assign_scalar(&mut self, rhs: N)
        where N: Mul<Output = N>,
        requires
            can_scale_seq(old(self)@, rhs),
        ensures
            final(self)@.len() == old(self)@.len(),
            forall|i: int|
                0 <= i < old(self)@.len() ==> product_of(old(self)@[i], rhs, #[trigger] final(self)@[i]),
            N::obeys_mul_spec() ==> final(self)@ == scale_seq(old(self)@, rhs),
    {
        let ghost old_c = self@;
        let mut i: usize = 0;
        while i < self.coefficients.len()
            invariant
                i <= self@.len(),
                self@.len() == old_c.len(),
                forall|j: int| 0 <= j < old_c.len() ==> #[trigger] old_c[j].mul_req(rhs),
                forall|j: int| i <= j < old_c.len() ==> #[trigger] self@[j] == old_c[j],
                forall|j: int| 0 <= j < i ==> product_of(old_c[j], rhs, #[trigger] self@[j]),
                N::obeys_mul_spec() ==> forall|j: int|
                    0 <= j < i ==> #[trigger] self@[j] == old_c[j].mul_spec(rhs),
            decreases self@.len() - i,
        {
            let c = self.coefficients[i] * rhs;
            self.coefficients.set(i, c);
            i = i + 1;
        }
        proof {
            if N::obeys_mul_spec() {
                assert(self@ =~= scale_seq(old_c, rhs));
            }
        }
    }

    /// Divide every coefficient by `rhs`.
    pub fn div_assign_scalar(&mut self, rhs: N)
        where N: Div<Output = N>,
        requires
            can_divide_seq(old(self)@, rhs),
        ensures
            final(self)@.len() == old(self)@.len(),
            forall|i: int|
                0 <= i < old(self)@.len() ==> quotient_of(old(self)@[i], rhs, #[trigger] final(self)@[i]),
            N::obeys_div_spec() ==> final(self)@ == divide_seq(old(self)@, rhs),
    {
        let ghost old_c = self@;
        let mut i: usize = 0;
        while i < self.coefficients.len()
            invariant
                i <= self@.len(),
                self@.len() == old_c.len(),
                forall|j: int| 0 <= j < old_c.len() ==> #[trigger] old_c[j].div_req(rhs),
                forall|j: int| i <= j < old_c.len() ==> #[trigger] self@[j] == old_c[j],
                forall|j: int| 0 <= j < i ==> quotient_of(old_c[j], rhs, #[trigger] self@[j]),
                N::obeys_div_spec() ==> forall|j: int|
                    0 <= j < i ==> #[trigger] self@[j] == old_c[j].div_spec(rhs),
            decreases self@.len() - i,
        {
            let c = self.coefficients[i] / rhs;
            self.coefficients.set(i, c);
            i = i + 1;
        }
        proof {
            if N::obeys_div_spec() {
                assert(self@ =~= divide_seq(old_c, rhs));
            }
        }
    }

    /// Add `rhs` coefficient by coefficient; the coefficients of `rhs` past the
    /// end of `self` are appended.
    pub fn add_assign_polynomial(&mut self, rhs: &Self)
        where N: Add<Output = N>,
        requires
            can_add_seqs(old(self)@, rhs@),
        ensures
            final(self)@.len() == add_seqs(old(self)@, rhs@).len(),
            forall|i: int|
                rhs@.len() <= i < old(self)@.len() ==> #[trigger] final(self)@[i] == old(self)@[i],
            forall|i: int|
                old(self)@.len() <= i < rhs@.len() ==> #[trigger] final(self)@[i] == rhs@[i],
            forall|i: int|
                0 <= i < old(self)@.len() && i < rhs@.len() ==> sum_of(
                    old(self)@[i],
                    rhs@[i],
                    #[trigger] final(self)@[i],
                ),
            N::obeys_add_spec() ==> final(self)@ == add_seqs(old(self)@, rhs@),
    {
        let ghost old_c = self@;
        let n = self.coefficients.len();
        let m = rhs.coefficients.len();
        let min_order = if n < m {
            n
        } else {
            m
        };
        let mut i: usize = 0;
        while i < min_order
            invariant
                min_order <= n,
                min_order <= m,
                min_order == n || min_order == m,
                n == old_c.len(),
                m == rhs@.len(),
                i <= min_order,
                self@.len() == n,
                forall|j: int| 0 <= j < n && j < m ==> #[trigger] old_c[j].add_req(rhs@[j]),
                forall|j: int| i <= j < n ==> #[trigger] self@[j] == old_c[j],
                forall|j: int| 0 <= j < i ==> sum_of(old_c[j], rhs@[j], #[trigger] self@[j]),
                N::obeys_add_spec() ==> forall|j: int|
                    0 <= j < i ==> #[trigger] self@[j] == old_c[j].add_spec(rhs@[j]),
            decreases min_order - i,
        {
            let c = self.coefficients[i] + rhs.coefficients[i];
            self.coefficients.set(i, c);
            i = i + 1;
        }
        let mut j: usize = min_order;
        while j < m
            invariant
                min_order <= n,
                min_order <= m,
                min_order == n || min_order == m,
                n == old_c.len(),
                m == rhs@.len(),
                min_order <= j <= m || (j == min_order && m < min_order),
                self@.len() == if j <= n {
                    n as int
                } else {
                    j as int
                },
                forall|k: int| min_order <= k < n ==> #[trigger] self@[k] == old_c[k],
                forall|k: int| n <= k < j ==> #[trigger] self@[k] == rhs@[k],
                forall|k: int| 0 <= k < min_order ==> sum_of(old_c[k], rhs@[k], #[trigger] self@[k]),
                N::obeys_add_spec() ==> forall|k: int|
                    0 <= k < min_order ==> #[trigger] self@[k] == old_c[k].add_spec(rhs@[k]),
            decreases m - j,
        {
            self.coefficients.push(rhs.coefficients[j]);
            j = j + 1;
        }
        proof {
            if N::obeys_add_spec() {
                assert(self@ =~= add_seqs(old_c, rhs@));
            }
        }
    }

    /// Subtract `rhs` coefficient by coefficient; the negated coefficients of
    /// `rhs` past the end of `self` are appended.
    pub fn sub_assign_polynomial(&mut self, rhs: &Self)
        where N: Sub<Output = N> + Neg<Output = N>,
        requires
            can_sub_seqs(old(self)@, rhs@),
        ensures
            final(self)@.len() == sub_seqs(old(self)@, rhs@).len(),
            forall|i: int|
                rhs@.len() <= i < old(self)@.len() ==> #[trigger] final(self)@[i] == old(self)@[i],
            forall|i: int|
                0 <= i < old(self)@.len() && i < rhs@.len() ==> difference_of(
                    old(self)@[i],
                    rhs@[i],
                    #[trigger] final(self)@[i],
                ),
            forall|i: int|
                old(self)@.len() <= i < rhs@.len() ==> negation_of(rhs@[i], #[trigger] final(self)@[i]),
            N::obeys_sub_spec() && N::obeys_neg_spec() ==> final(self)@ == sub_seqs(
                old(self)@,
                rhs@,
            ),
    {
        let ghost old_c = self@;
        let n = self.coefficients.len();
        let m = rhs.coefficients.len();
        let min_order = if n < m {
            n
        } else {
            m
        };
        let mut i: usize = 0;
        while i < min_order
            invariant
                min_order <= n,
                min_order <= m,
                min_order == n || min_order == m,
                n == old_c.len(),
                m == rhs@.len(),
                i <= min_order,
                self@.len() == n,
                forall|j: int| 0 <= j < n && j < m ==> #[trigger] old_c[j].sub_req(rhs@[j]),
                forall|j: int| i <= j < n ==> #[trigger] self@[j] == old_c[j],
                forall|j: int| 0 <= j < i ==> difference_of(old_c[j], rhs@[j], #[trigger] self@[j]),
                N::obeys_sub_spec() ==> forall|j: int|
                    0 <= j < i ==> #[trigger] self@[j] == old_c[j].sub_spec(rhs@[j]),
            decreases min_order - i,
        {
            let c = self.coefficients[i] - rhs.coefficients[i];
            self.coefficients.set(i, c);
            i = i + 1;
        }
        let mut j: usize = min_order;
        while j < m
            invariant
                min_order <= n,
                min_order <= m,
                min_order == n || min_order == m,
                n == old_c.len(),
                m == rhs@.len(),
                min_order <= j <= m || (j == min_order && m < min_order),
                self@.len() == if j <= n {
                    n as int
                } else {
                    j as int
                },
                forall|k: int| n <= k < m ==> #[trigger] rhs@[k].neg_req(),
                forall|k: int| min_order <= k < n ==> #[trigger] self@[k] == old_c[k],
                forall|k: int| n <= k < j ==> negation_of(rhs@[k], #[trigger] self@[k]),
                forall|k: int|
                    0 <= k < min_order ==> difference_of(old_c[k], rhs@[k], #[trigger] self@[k]),
                N::obeys_neg_spec() ==> forall|k: int|
                    n <= k < j ==> #[trigger] self@[k] == rhs@[k].neg_spec(),
                N::obeys_sub_spec() ==> forall|k: int|
                    0 <= k < min_order ==> #[trigger] self@[k] == old_c[k].sub_spec(rhs@[k]),
            decreases m - j,
        {
            let c = rhs.coefficients[j].neg();
            self.coefficients.push(c);
            j = j + 1;
        }
        proof {
            if N::obeys_sub_spec() && N::obeys_neg_spec() {
                assert(self@ =~= sub_seqs(old_c, rhs@));
            }
        }
    }

    /// The product of two nonempty polynomials, each coefficient of the result
    /// summed from the lowest index of `self` that contributes to it.
    pub fn mul_polynomial(&self, rhs: &Self) -> (p: Self)
        where N: Add<Output = N> + Mul<Output = N>,
        requires
            can_multiply_seqs(self@, rhs@),
        ensures
            p@.len() == self@.len() + rhs@.len() - 1,
            forall|k: int|
                0 <= k < p@.len() ==> convolution_result(self@, rhs@, k, #[trigger] p@[k]),
            N::obeys_mul_spec() && N::obeys_add_spec() ==> p@ == product_seqs(self@, rhs@),
    {
        let n = self.coefficients.len();
        let m = rhs.coefficients.len();
        let total = n + m - 1;
        let mut coefficients: Vec<N> = Vec::new();
        let mut k: usize = 0;
        while k < total
            invariant
                n == self@.len(),
                m == rhs@.len(),
                n >= 1,
                m >= 1,
                total == n + m - 1,
                k <= total,
                coefficients@.len() == k,
                can_multiply_seqs(self@, rhs@),
                forall|t: int|
                    0 <= t < k ==> convolution_result(self@, rhs@, t, #[trigger] coefficients@[t]),
                N::obeys_mul_spec() && N::obeys_add_spec() ==> forall|t: int|
                    0 <= t < k ==> #[trigger] coefficients@[t] == product_terms(
                        self@,
                        rhs@,
                        t,
                        product_high(self@, t),
                    ),
            decreases total - k,
        {
            let lo = if k < m {
                0
            } else {
                k - m + 1
            };
            let hi = if k < n {
                k
            } else {
                n - 1
            };
            proof {
                assert(lo == product_low(rhs@, k as int));
                assert(hi == product_high(self@, k as int));
            }
            proof {
                if N::obeys_mul_spec() && N::obeys_add_spec() {
                    assert(product_terms(self@, rhs@, k as int, lo as int) == self@[lo as int].mul_spec(
                        rhs@[k - lo],
                    ));
                }
            }
            let mut acc = self.coefficients[lo] * rhs.coefficients[k - lo];
            let mut i = lo;
            let ghost mut sums: Seq<N> = self@.update(lo as int, acc);
            let ghost mut terms: Seq<N> = self@.update(lo as int, acc);
            while i < hi
                invariant
                    sums.len() == n,
                    terms.len() == n,
                    forall|j: int| lo <= j <= i ==> product_of(self@[j], rhs@[k - j], #[trigger] terms[j]),
                    sums[lo as int] == terms[lo as int],
                    forall|j: int| lo < j <= i ==> sum_of(sums[j - 1], #[trigger] terms[j], sums[j]),
                    acc == sums[i as int],
                    n == self@.len(),
                    m == rhs@.len(),
                    lo == product_low(rhs@, k as int),
                    hi == product_high(self@, k as int),
                    lo <= i <= hi,
                    hi < n,
                    k - hi < m,
                    hi <= k,
                    k < n + m - 1,
                    can_multiply_seqs(self@, rhs@),
                    N::obeys_mul_spec() && N::obeys_add_spec() ==> acc == product_terms(
                        self@,
                        rhs@,
                        k as int,
                        i as int,
                    ),
                decreases hi - i,
            {
                i = i + 1;
                proof {
                    if N::obeys_mul_spec() && N::obeys_add_spec() {
                        assert(product_terms(self@, rhs@, k as int, i as int) == product_terms(
                            self@,
                            rhs@,
                            k as int,
                            i - 1,
                        ).add_spec(self@[i as int].mul_spec(rhs@[k - i])));
                    }
                }
                let term = self.coefficients[i] * rhs.coefficients[k - i];
                acc = acc + term;
                proof {
                    terms = terms.update(i as int, term);
                    sums = sums.update(i as int, acc);
                }
            }
            proof {
                assert(convolution_trace(self@, rhs@, k as int, sums, terms));
            }
            coefficients.push(acc);
            k = k + 1;
        }
        proof {
            if N::obeys_mul_spec() && N::obeys_add_spec() {
                assert(coefficients@ =~= product_seqs(self@, rhs@));
            }
        }
        Polynomial { coefficients }
    }
}


impl<N: Copy + Default> Default for Polynomial<N> {
    /// The zero polynomial.
    fn default() -> (p: Self)
        ensures
            p@.len() == 1,
            is_zero_value(p@[0]),
    {
        Polynomial::new()
    }
}

/// What the operator asks of its operands. Its result is stated by the `ensures`
/// of the `Add` impl below, so `obeys_add_spec` is false.
impl<N: Copy + Add<Output = N>> vstd::std_specs::ops::AddSpecImpl<N> for Polynomial<N> {
    open spec fn obeys_add_spec() -> bool {
        false
    }

    open spec fn add_req(self, rhs: N) -> bool {
        self@.len() >= 1 && self@[0].add_req(rhs)
    }

    open spec fn add_spec(self, rhs: N) -> Polynomial<N> {
        arbitrary()
    }
}

/// Adds a scalar to the constant coefficient.
impl<N: Copy + Add<Output = N>> Add<N> for Polynomial<N> {
    type Output = Polynomial<N>;

    fn add(self, rhs: N) -> (r: Polynomial<N>)
        ensures
            r@.len() == self@.len(),
            forall|i: int| 1 <= i < self@.len() ==> #[trigger] r@[i] == self@[i],
            sum_of(self@[0], rhs, r@[0]),
            N::obeys_add_spec() ==> r@ == self@.update(0, self@[0].add_spec(rhs)),
    {
        let mut p = self;
        p.add_assign_scalar(rhs);
        p
    }
}

/// What the operator asks of its operands. Its result is stated by the `ensures`
/// of the `Add` impl below, so `obeys_add_spec` is false.
impl<'a, N: Copy + Add<Output = N>> vstd::std_specs::ops::AddSpecImpl<N> for &'a Polynomial<N> {
    open spec fn obeys_add_spec() -> bool {
        false
    }

    open spec fn add_req(self, rhs: N) -> bool {
        self@.len() >= 1 && self@[0].add_req(rhs)
    }

    open spec fn add_spec(self, rhs: N) -> Polynomial<N> {
        arbitrary()
    }
}

/// Adds a scalar to the constant coefficient.
impl<'a, N: Copy + Add<Output = N>> Add<N> for &'a Polynomial<N> {
    type Output = Polynomial<N>;

    fn add(self, rhs: N) -> (r: Polynomial<N>)
        ensures
            r@.len() == self@.len(),
            forall|i: int| 1 <= i < self@.len() ==> #[trigger] r@[i] == self@[i],
            sum_of(self@[0], rhs, r@[0]),
            N::obeys_add_spec() ==> r@ == self@.update(0, self@[0].add_spec(rhs)),
    {
        let mut p = self.duplicate();
        p.add_assign_scalar(rhs);
        p
    }
}

/// What the operator asks of its operands. Its result is stated by the `ensures`
/// of the `Sub` impl below, so `obeys_sub_spec` is false.
impl<N: Copy + Sub<Output = N>> vstd::std_specs::ops::SubSpecImpl<N> for Polynomial<N> {
    open spec fn obeys_sub_spec() -> bool {
        false
    }

    open spec fn sub_req(self, rhs: N) -> bool {
        self@.len() >= 1 && self@[0].sub_req(rhs)
    }

    open spec fn sub_spec(self, rhs: N) -> Polynomial<N> {
        arbitrary()
    }
}

/// Subtracts a scalar from the constant coefficient.
impl<N: Copy + Sub<Output = N>> Sub<N> for Polynomial<N> {
    type Output = Polynomial<N>;

    fn sub(self, rhs: N) -> (r: Polynomial<N>)
        ensures
            r@.len() == self@.len(),
            forall|i: int| 1 <= i < self@.len() ==> #[trigger] r@[i] == self@[i],
            difference_of(self@[0], rhs, r@[0]),
            N::obeys_sub_spec() ==> r@ == self@.update(0, self@[0].sub_spec(rhs)),
    {
        let mut p = self;
        p.sub_assign_scalar(rhs);
        p
    }
}

/// What the operator asks of its operands. Its result is stated by the `ensures`
/// of the `Sub` impl below, so `obeys_sub_spec` is false.
impl<'a, N: Copy + Sub<Output = N>> vstd::std_specs::ops::SubSpecImpl<N> for &'a Polynomial<N> {
    open spec fn obeys_sub_spec() -> bool {
        false
    }

    open spec fn sub_req(self, rhs: N) -> bool {
        self@.len() >= 1 && self@[0].sub_req(rhs)
    }

    open spec fn sub_spec(self, rhs: N) -> Polynomial<N> {
        arbitrary()
    }
}

/// Subtracts a scalar from the constant coefficient.
impl<'a, N: Copy + Sub<Output = N>> Sub<N> for &'a Polynomial<N> {
    type Output = Polynomial<N>;

    fn sub(self, rhs: N) -> (r: Polynomial<N>)
        ensures
            r@.len() == self@.len(),
            forall|i: int| 1 <= i < self@.len() ==> #[trigger] r@[i] == self@[i],
            difference_of(self@[0], rhs, r@[0]),
            N::obeys_sub_spec() ==> r@ == self@.update(0, self@[0].sub_spec(rhs)),
    {
        let mut p = self.duplicate();
        p.sub_assign_scalar(rhs);
        p
    }
}

/// What the operator asks of its operands. Its result is stated by the `ensures`
/// of the `Add` impl below, so `obeys_add_spec` is false.
impl<N: Copy + Add<Output = N>> vstd::std_specs::ops::AddSpecImpl<Polynomial<N>> for Polynomial<N> {
    open spec fn obeys_add_spec() -> bool {
        false
    }

    open spec fn add_req(self, rhs: Polynomial<N>) -> bool {
        can_add_seqs(self@, rhs@)
    }

    open spec fn add_spec(self, rhs: Polynomial<N>) -> Polynomial<N> {
        arbitrary()
    }
}

/// Adds two polynomials coefficient by coefficient.
impl<N: Copy + Add<Output = N>> Add<Polynomial<N>> for Polynomial<N> {
    type Output = Polynomial<N>;

    fn add(self, rhs: Polynomial<N>) -> (r: Polynomial<N>)
        ensures
            r@.len() == add_seqs(self@, rhs@).len(),
            forall|i: int| rhs@.len() <= i < self@.len() ==> #[trigger] r@[i] == self@[i],
            forall|i: int| self@.len() <= i < rhs@.len() ==> #[trigger] r@[i] == rhs@[i],
            forall|i: int|
                0 <= i < self@.len() && i < rhs@.len() ==> sum_of(self@[i], rhs@[i], #[trigger] r@[i]),
            N::obeys_add_spec() ==> r@ == add_seqs(self@, rhs@),
    {
        let mut p = self;
        p.add_assign_polynomial(&rhs);
        p
    }
}

/// What the operator asks of its operands. Its result is stated by the `ensures`
/// of the `Add` impl below, so `obeys_add_spec` is false.
impl<'a, N: Copy + Add<Output = N>> vstd::std_specs::ops::AddSpecImpl<&'a Polynomial<N>> for Polynomial<N> {
    open spec fn obeys_add_spec() -> bool {
        false
    }

    open spec fn add_req(self, rhs: &'a Polynomial<N>) -> bool {
        can_add_seqs(self@, rhs@)
    }

    open spec fn add_spec(self, rhs: &'a Polynomial<N>) -> Polynomial<N> {
        arbitrary()
    }
}

/// Adds two polynomials coefficient by coefficient.
impl<'a, N: Copy + Add<Output = N>> Add<&'a Polynomial<N>> for Polynomial<N> {
    type Output = Polynomial<N>;

    fn add(self, rhs: &'a Polynomial<N>) -> (r: Polynomial<N>)
        ensures
            r@.len() == add_seqs(self@, rhs@).len(),
            forall|i: int| rhs@.len() <= i < self@.len() ==> #[trigger] r@[i] == self@[i],
            forall|i: int| self@.len() <= i < rhs@.len() ==> #[trigger] r@[i] == rhs@[i],
            forall|i: int|
                0 <= i < self@.len() && i < rhs@.len() ==> sum_of(self@[i], rhs@[i], #[trigger] r@[i]),
            N::obeys_add_spec() ==> r@ == add_seqs(self@, rhs@),
    {
        let mut p = self;
        p.add_assign_polynomial(rhs);
        p
    }
}

/// What the operator asks of its operands. Its result is stated by the `ensures`
/// of the `Add` impl below, so `obeys_add_spec` is false.
impl<'a, N: Copy + Add<Output = N>> vstd::std_specs::ops::AddSpecImpl<Polynomial<N>> for &'a Polynomial<N> {
    open spec fn obeys_add_spec() -> bool {
        false
    }

    open spec fn add_req(self, rhs: Polynomial<N>) -> bool {
        can_add_seqs(self@, rhs@)
    }

    open spec fn add_spec(self, rhs: Polynomial<N>) -> Polynomial<N> {
        arbitrary()
    }
}

/// Adds two polynomials coefficient by coefficient.
impl<'a, N: Copy + Add<Output = N>> Add<Polynomial<N>> for &'a Polynomial<N> {
    type Output = Polynomial<N>;

    fn add(self, rhs: Polynomial<N>) -> (r: Polynomial<N>)
        ensures
            r@.len() == add_seqs(self@, rhs@).len(),
            forall|i: int| rhs@.len() <= i < self@.len() ==> #[trigger] r@[i] == self@[i],
            forall|i: int| self@.len() <= i < rhs@.len() ==> #[trigger] r@[i] == rhs@[i],
            forall|i: int|
                0 <= i < self@.len() && i < rhs@.len() ==> sum_of(self@[i], rhs@[i], #[trigger] r@[i]),
            N::obeys_add_spec() ==> r@ == add_seqs(self@, rhs@),
    {
        let mut p = self.duplicate();
        p.add_assign_polynomial(&rhs);
        p
    }
}

/// What the operator asks of its operands. Its result is stated by the `ensures`
/// of the `Add` impl below, so `obeys_add_spec` is false.
impl<'a, N: Copy + Add<Output = N>> vstd::std_specs::ops::AddSpecImpl<&'a Polynomial<N>> for &'a Polynomial<N> {
    open spec fn obeys_add_spec() -> bool {
        false
    }

    open spec fn add_req(self, rhs: &'a Polynomial<N>) -> bool {
        can_add_seqs(self@, rhs@)
    }

    open spec fn add_spec(self, rhs: &'a Polynomial<N>) -> Polynomial<N> {
        arbitrary()
    }
}

/// Adds two polynomials coefficient by coefficient.
impl<'a, N: Copy + Add<Output = N>> Add<&'a Polynomial<N>> for &'a Polynomial<N> {
    type Output = Polynomial<N>;

    fn add(self, rhs: &'a Polynomial<N>) -> (r: Polynomial<N>)
        ensures
            r@.len() == add_seqs(self@, rhs@).len(),
            forall|i: int| rhs@.len() <= i < self@.len() ==> #[trigger] r@[i] == self@[i],
            forall|i: int| self@.len() <= i < rhs@.len() ==> #[trigger] r@[i] == rhs@[i],
            forall|i: int|
                0 <= i < self@.len() && i < rhs@.len() ==> sum_of(self@[i], rhs@[i], #[trigger] r@[i]),
            N::obeys_add_spec() ==> r@ == add_seqs(self@, rhs@),
    {
        let mut p = self.duplicate();
        p.add_assign_polynomial(rhs);
        p
    }
}

/// What the operator asks of its operands. Its result is stated by the `ensures`
/// of the `Sub` impl below, so `obeys_sub_spec` is false.
impl<N: Copy + Sub<Output = N> + Neg<Output = N>> vstd::std_specs::ops::SubSpecImpl<Polynomial<N>> for Polynomial<N> {
    open spec fn obeys_sub_spec() -> bool {
        false
    }

    open spec fn sub_req(self, rhs: Polynomial<N>) -> bool {
        can_sub_seqs(self@, rhs@)
    }

    open spec fn sub_spec(self, rhs: Polynomial<N>) -> Polynomial<N> {
        arbitrary()
    }
}

/// Subtracts two polynomials coefficient by coefficient.
impl<N: Copy + Sub<Output = N> + Neg<Output = N>> Sub<Polynomial<N>> for Polynomial<N> {
    type Output = Polynomial<N>;

    fn sub(self, rhs: Polynomial<N>) -> (r: Polynomial<N>)
        ensures
            r@.len() == sub_seqs(self@, rhs@).len(),
            forall|i: int| rhs@.len() <= i < self@.len() ==> #[trigger] r@[i] == self@[i],
            forall|i: int|
                0 <= i < self@.len() && i < rhs@.len() ==> difference_of(self@[i], rhs@[i], #[trigger] r@[i]),
            forall|i: int| self@.len() <= i < rhs@.len() ==> negation_of(rhs@[i], #[trigger] r@[i]),
            N::obeys_sub_spec() && N::obeys_neg_spec() ==> r@ == sub_seqs(self@, rhs@),
    {
        let mut p = self;
        p.sub_assign_polynomial(&rhs);
        p
    }
}

/// What the operator asks of its operands. Its result is stated by the `ensures`
/// of the `Sub` impl below, so `obeys_sub_spec` is false.
impl<'a, N: Copy + Sub<Output = N> + Neg<Output = N>> vstd::std_specs::ops::SubSpecImpl<&'a Polynomial<N>> for Polynomial<N> {
    open spec fn obeys_sub_spec() -> bool {
        false
    }

    open spec fn sub_req(self, rhs: &'a Polynomial<N>) -> bool {
        can_sub_seqs(self@, rhs@)
    }

    open spec fn sub_spec(self, rhs: &'a Polynomial<N>) -> Polynomial<N> {
        arbitrary()
    }
}

/// Subtracts two polynomials coefficient by coefficient.
impl<'a, N: Copy + Sub<Output = N> + Neg<Output = N>> Sub<&'a Polynomial<N>> for Polynomial<N> {
    type Output = Polynomial<N>;

    fn sub(self, rhs: &'a Polynomial<N>) -> (r: Polynomial<N>)
        ensures
            r@.len() == sub_seqs(self@, rhs@).len(),
            forall|i: int| rhs@.len() <= i < self@.len() ==> #[trigger] r@[i] == self@[i],
            forall|i: int|
                0 <= i < self@.len() && i < rhs@.len() ==> difference_of(self@[i], rhs@[i], #[trigger] r@[i]),
            forall|i: int| self@.len() <= i < rhs@.len() ==> negation_of(rhs@[i], #[trigger] r@[i]),
            N::obeys_sub_spec() && N::obeys_neg_spec() ==> r@ == sub_seqs(self@, rhs@),
    {
        let mut p = self;
        p.sub_assign_polynomial(rhs);
        p
    }
}

/// What the operator asks of its operands. Its result is stated by the `ensures`
/// of the `Sub` impl below, so `obeys_sub_spec` is false.
impl<'a, N: Copy + Sub<Output = N> + Neg<Output = N>> vstd::std_specs::ops::SubSpecImpl<Polynomial<N>> for &'a Polynomial<N> {
    open spec fn obeys_sub_spec() -> bool {
        false
    }

    open spec fn sub_req(self, rhs: Polynomial<N>) -> bool {
        can_sub_seqs(self@, rhs@)
    }

    open spec fn sub_spec(self, rhs: Polynomial<N>) -> Polynomial<N> {
        arbitrary()
    }
}

/// Subtracts two polynomials coefficient by coefficient.
impl<'a, N: Copy + Sub<Output = N> + Neg<Output = N>> Sub<Polynomial<N>> for &'a Polynomial<N> {
    type Output = Polynomial<N>;

    fn sub(self, rhs: Polynomial<N>) -> (r: Polynomial<N>)
        ensures
            r@.len() == sub_seqs(self@, rhs@).len(),
            forall|i: int| rhs@.len() <= i < self@.len() ==> #[trigger] r@[i] == self@[i],
            forall|i: int|
                0 <= i < self@.len() && i < rhs@.len() ==> difference_of(self@[i], rhs@[i], #[trigger] r@[i]),
            forall|i: int| self@.len() <= i < rhs@.len() ==> negation_of(rhs@[i], #[trigger] r@[i]),
            N::obeys_sub_spec() && N::obeys_neg_spec() ==> r@ == sub_seqs(self@, rhs@),
    {
        let mut p = self.duplicate();
        p.sub_assign_polynomial(&rhs);
        p
    }
}

/// What the operator asks of its operands. Its result is stated by the `ensures`
/// of the `Sub` impl below, so `obeys_sub_spec` is false.
impl<'a, N: Copy + Sub<Output = N> + Neg<Output = N>> vstd::std_specs::ops::SubSpecImpl<&'a Polynomial<N>> for &'a Polynomial<N> {
    open spec fn obeys_sub_spec() -> bool {
        false
    }

    open spec fn sub_req(self, rhs: &'a Polynomial<N>) -> bool {
        can_sub_seqs(self@, rhs@)
    }

    open spec fn sub_spec(self, rhs: &'a Polynomial<N>) -> Polynomial<N> {
        arbitrary()
    }
}

/// Subtracts two polynomials coefficient by coefficient.
impl<'a, N: Copy + Sub<Output = N> + Neg<Output = N>> Sub<&'a Polynomial<N>> for &'a Polynomial<N> {
    type Output = Polynomial<N>;

    fn sub(self, rhs: &'a Polynomial<N>) -> (r: Polynomial<N>)
        ensures
            r@.len() == sub_seqs(self@, rhs@).len(),
            forall|i: int| rhs@.len() <= i < self@.len() ==> #[trigger] r@[i] == self@[i],
            forall|i: int|
                0 <= i < self@.len() && i < rhs@.len() ==> difference_of(self@[i], rhs@[i], #[trigger] r@[i]),
            forall|i: int| self@.len() <= i < rhs@.len() ==> negation_of(rhs@[i], #[trigger] r@[i]),
            N::obeys_sub_spec() && N::obeys_neg_spec() ==> r@ == sub_seqs(self@, rhs@),
    {
        let mut p = self.duplicate();
        p.sub_assign_polynomial(rhs);
        p
    }
}

/// What the operator asks of its operands. Its result is stated by the `ensures`
/// of the `Mul` impl below, so `obeys_mul_spec` is false.
impl<N: Copy + Mul<Output = N>> vstd::std_specs::ops::MulSpecImpl<N> for Polynomial<N> {
    open spec fn obeys_mul_spec() -> bool {
        false
    }

    open spec fn mul_req(self, rhs: N) -> bool {
        can_scale_seq(self@, rhs)
    }

    open spec fn mul_spec(self, rhs: N) -> Polynomial<N> {
        arbitrary()
    }
}

/// Multiplies every coefficient by a scalar.
impl<N: Copy + Mul<Output = N>> Mul<N> for Polynomial<N> {
    type Output = Polynomial<N>;

    fn mul(self, rhs: N) -> (r: Polynomial<N>)
        ensures
            r@.len() == self@.len(),
            forall|i: int| 0 <= i < self@.len() ==> product_of(self@[i], rhs, #[trigger] r@[i]),
            N::obeys_mul_spec() ==> r@ == scale_seq(self@, rhs),
    {
        let mut p = self;
        p.mul_assign_scalar(rhs);
        p
    }
}

/// What the operator asks of its operands. Its result is stated by the `ensures`
/// of the `Mul` impl below, so `obeys_mul_spec` is false.
impl<'a, N: Copy + Mul<Output = N>> vstd::std_specs::ops::MulSpecImpl<N> for &'a Polynomial<N> {
    open spec fn obeys_mul_spec() -> bool {
        false
    }

    open spec fn mul_req(self, rhs: N) -> bool {
        can_scale_seq(self@, rhs)
    }

    open spec fn mul_spec(self, rhs: N) -> Polynomial<N> {
        arbitrary()
    }
}

/// Multiplies every coefficient by a scalar.
impl<'a, N: Copy + Mul<Output = N>> Mul<N> for &'a Polynomial<N> {
    type Output = Polynomial<N>;

    fn mul(self, rhs: N) -> (r: Polynomial<N>)
        ensures
            r@.len() == self@.len(),
            forall|i: int| 0 <= i < self@.len() ==> product_of(self@[i], rhs, #[trigger] r@[i]),
            N::obeys_mul_spec() ==> r@ == scale_seq(self@, rhs),
    {
        let mut p = self.duplicate();
        p.mul_assign_scalar(rhs);
        p
    }
}

/// What the operator asks of its operands. Its result is stated by the `ensures`
/// of the `Div` impl below, so `obeys_div_spec` is false.
impl<N: Copy + Div<Output = N>> vstd::std_specs::ops::DivSpecImpl<N> for Polynomial<N> {
    open spec fn obeys_div_spec() -> bool {
        false
    }

    open spec fn div_req(self, rhs: N) -> bool {
        can_divide_seq(self@, rhs)
    }

    open spec fn div_spec(self, rhs: N) -> Polynomial<N> {
        arbitrary()
    }
}

/// Divides every coefficient by a scalar.
impl<N: Copy + Div<Output = N>> Div<N> for Polynomial<N> {
    type Output = Polynomial<N>;

    fn div(self, rhs: N) -> (r: Polynomial<N>)
        ensures
            r@.len() == self@.len(),
            forall|i: int| 0 <= i < self@.len() ==> quotient_of(self@[i], rhs, #[trigger] r@[i]),
            N::obeys_div_spec() ==> r@ == divide_seq(self@, rhs),
    {
        let mut p = self;
        p.div_assign_scalar(rhs);
        p
    }
}

/// What the operator asks of its operands. Its result is stated by the `ensures`
/// of the `Div` impl below, so `obeys_div_spec` is false.
impl<'a, N: Copy + Div<Output = N>> vstd::std_specs::ops::DivSpecImpl<N> for &'a Polynomial<N> {
    open spec fn obeys_div_spec() -> bool {
        false
    }

    open spec fn div_req(self, rhs: N) -> bool {
        can_divide_seq(self@, rhs)
    }

    open spec fn div_spec(self, rhs: N) -> Polynomial<N> {
        arbitrary()
    }
}

/// Divides every coefficient by a scalar.
impl<'a, N: Copy + Div<Output = N>> Div<N> for &'a Polynomial<N> {
    type Output = Polynomial<N>;

    fn div(self, rhs: N) -> (r: Polynomial<N>)
        ensures
            r@.len() == self@.len(),
            forall|i: int| 0 <= i < self@.len() ==> quotient_of(self@[i], rhs, #[trigger] r@[i]),
            N::obeys_div_spec() ==> r@ == divide_seq(self@, rhs),
    {
        let mut p = self.duplicate();
        p.div_assign_scalar(rhs);
        p
    }
}

/// What the operator asks of its operands. Its result is stated by the `ensures`
/// of the `Mul` impl below, so `obeys_mul_spec` is false.
impl<N: Copy + Add<Output = N> + Mul<Output = N>> vstd::std_specs::ops::MulSpecImpl<Polynomial<N>> for Polynomial<N> {
    open spec fn obeys_mul_spec() -> bool {
        false
    }

    open spec fn mul_req(self, rhs: Polynomial<N>) -> bool {
        can_multiply_seqs(self@, rhs@)
    }

    open spec fn mul_spec(self, rhs: Polynomial<N>) -> Polynomial<N> {
        arbitrary()
    }
}

/// Multiplies two polynomials.
impl<N: Copy + Add<Output = N> + Mul<Output = N>> Mul<Polynomial<N>> for Polynomial<N> {
    type Output = Polynomial<N>;

    fn mul(self, rhs: Polynomial<N>) -> (r: Polynomial<N>)
        ensures
            r@.len() == self@.len() + rhs@.len() - 1,
            forall|k: int| 0 <= k < r@.len() ==> convolution_result(self@, rhs@, k, #[trigger] r@[k]),
            N::obeys_mul_spec() && N::obeys_add_spec() ==> r@ == product_seqs(self@, rhs@),
    {
        Polynomial::mul_polynomial(&self, &rhs)
    }
}

/// What the operator asks of its operands. Its result is stated by the `ensures`
/// of the `Mul` impl below, so `obeys_mul_spec` is false.
impl<'a, N: Copy + Add<Output = N> + Mul<Output = N>> vstd::std_specs::ops::MulSpecImpl<&'a Polynomial<N>> for Polynomial<N> {
    open spec fn obeys_mul_spec() -> bool {
        false
    }

    open spec fn mul_req(self, rhs: &'a Polynomial<N>) -> bool {
        can_multiply_seqs(self@, rhs@)
    }

    open spec fn mul_spec(self, rhs: &'a Polynomial<N>) -> Polynomial<N> {
        arbitrary()
    }
}

/// Multiplies two polynomials.
impl<'a, N: Copy + Add<Output = N> + Mul<Output = N>> Mul<&'a Polynomial<N>> for Polynomial<N> {
    type Output = Polynomial<N>;

    fn mul(self, rhs: &'a Polynomial<N>) -> (r: Polynomial<N>)
        ensures
            r@.len() == self@.len() + rhs@.len() - 1,
            forall|k: int| 0 <= k < r@.len() ==> convolution_result(self@, rhs@, k, #[trigger] r@[k]),
            N::obeys_mul_spec() && N::obeys_add_spec() ==> r@ == product_seqs(self@, rhs@),
    {
        Polynomial::mul_polynomial(&self, rhs)
    }
}

/// What the operator asks of its operands. Its result is stated by the `ensures`
/// of the `Mul` impl below, so `obeys_mul_spec` is false.
impl<'a, N: Copy + Add<Output = N> + Mul<Output = N>> vstd::std_specs::ops::MulSpecImpl<Polynomial<N>> for &'a Polynomial<N> {
    open spec fn obeys_mul_spec() -> bool {
        false
    }

    open spec fn mul_req(self, rhs: Polynomial<N>) -> bool {
        can_multiply_seqs(self@, rhs@)
    }

    open spec fn mul_spec(self, rhs: Polynomial<N>) -> Polynomial<N> {
        arbitrary()
    }
}

/// Multiplies two polynomials.
impl<'a, N: Copy + Add<Output = N> + Mul<Output = N>> Mul<Polynomial<N>> for &'a Polynomial<N> {
    type Output = Polynomial<N>;

    fn mul(self, rhs: Polynomial<N>) -> (r: Polynomial<N>)
        ensures
            r@.len() == self@.len() + rhs@.len() - 1,
            forall|k: int| 0 <= k < r@.len() ==> convolution_result(self@, rhs@, k, #[trigger] r@[k]),
            N::obeys_mul_spec() && N::obeys_add_spec() ==> r@ == product_seqs(self@, rhs@),
    {
        Polynomial::mul_polynomial(self, &rhs)
    }
}

/// What the operator asks of its operands. Its result is stated by the `ensures`
/// of the `Mul` impl below, so `obeys_mul_spec` is false.
impl<'a, N: Copy + Add<Output = N> + Mul<Output = N>> vstd::std_specs::ops::MulSpecImpl<&'a Polynomial<N>> for &'a Polynomial<N> {
    open spec fn obeys_mul_spec() -> bool {
        false
    }

    open spec fn mul_req(self, rhs: &'a Polynomial<N>) -> bool {
        can_multiply_seqs(self@, rhs@)
    }

    open spec fn mul_spec(self, rhs: &'a Polynomial<N>) -> Polynomial<N> {
        arbitrary()
    }
}

/// Multiplies two polynomials.
impl<'a, N: Copy + Add<Output = N> + Mul<Output = N>> Mul<&'a Polynomial<N>> for &'a Polynomial<N> {
    type Output = Polynomial<N>;

    fn mul(self, rhs: &'a Polynomial<N>) -> (r: Polynomial<N>)
        ensures
            r@.len() == self@.len() + rhs@.len() - 1,
            forall|k: int| 0 <= k < r@.len() ==> convolution_result(self@, rhs@, k, #[trigger] r@[k]),
            N::obeys_mul_spec() && N::obeys_add_spec() ==> r@ == product_seqs(self@, rhs@),
    {
        Polynomial::mul_polynomial(self, rhs)
    }
}

} // verus!
