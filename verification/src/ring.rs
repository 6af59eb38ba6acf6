//! The algebraic laws that the coefficient operations may satisfy (they do for
//! exact number types), stated over vstd's specifications of the operator
//! traits, with one lemma per law that instantiates it.
use vstd::prelude::*;
use vstd::std_specs::ops::{AddSpec, SubSpec, MulSpec, DivSpec, NegSpec};
use vstd::std_specs::convert::FromSpec;
use core::ops::{Add, Sub, Mul, Div, Neg};

verus! {

/// Addition and multiplication of `N` (as specified) are associative and
/// commutative, and multiplication distributes over addition.
#[verifier::opaque]
pub open spec fn commutative_ring_ops<N: Add<Output = N> + Mul<Output = N>>() -> bool {
    &&& forall|a: N, b: N| #[trigger] a.add_spec(b) == b.add_spec(a)
    &&& forall|a: N, b: N, c: N| #[trigger] a.add_spec(b).add_spec(c) == a.add_spec(b.add_spec(c))
    &&& forall|a: N, b: N| #[trigger] a.mul_spec(b) == b.mul_spec(a)
    &&& forall|a: N, b: N, c: N| #[trigger] a.mul_spec(b).mul_spec(c) == a.mul_spec(b.mul_spec(c))
    &&& forall|a: N, b: N, c: N| #[trigger] a.mul_spec(b.add_spec(c)) == a.mul_spec(b).add_spec(a.mul_spec(c))
}

/// Subtraction of `N` (as specified) adds the negation.
#[verifier::opaque]
pub open spec fn subtraction_adds_negation<N: Add<Output = N> + Sub<Output = N> + Neg<Output = N>>() -> bool {
    forall|a: N, b: N| #[trigger] a.sub_spec(b) == a.add_spec(b.neg_spec())
}

/// Negation of `N` (as specified) distributes over addition and moves out of
/// the left factor of a product.
#[verifier::opaque]
pub open spec fn negation_distributes<N: Add<Output = N> + Mul<Output = N> + Neg<Output = N>>() -> bool {
    &&& forall|a: N, b: N| #[trigger] a.add_spec(b).neg_spec() == a.neg_spec().add_spec(b.neg_spec())
    &&& forall|a: N, b: N| #[trigger] a.neg_spec().mul_spec(b) == a.mul_spec(b).neg_spec()
}

/// The conversion from `u32` is the canonical map of the integers: 0 is the
/// additive identity and absorbs products, 1 is the multiplicative identity,
/// and each integer is its predecessor plus 1.
#[verifier::opaque]
pub open spec fn integer_constants<N: Add<Output = N> + Mul<Output = N> + From<u32>>() -> bool {
    &&& forall|a: N| #[trigger] a.add_spec(<N as FromSpec<u32>>::from_spec(0u32)) == a
    &&& forall|a: N| #[trigger] <N as FromSpec<u32>>::from_spec(0u32).mul_spec(a)
        == <N as FromSpec<u32>>::from_spec(0u32)
    &&& forall|a: N| #[trigger] <N as FromSpec<u32>>::from_spec(1u32).mul_spec(a) == a
    &&& forall|j: u32|
        j < u32::MAX ==> #[trigger] <N as FromSpec<u32>>::from_spec((j + 1) as u32)
            == <N as FromSpec<u32>>::from_spec(j).add_spec(<N as FromSpec<u32>>::from_spec(1u32))
}

/// Every value plus its negation is the constant 0.
#[verifier::opaque]
pub open spec fn negation_cancels<N: Add<Output = N> + Neg<Output = N> + From<u32>>() -> bool {
    forall|a: N| #[trigger] a.add_spec(a.neg_spec()) == <N as FromSpec<u32>>::from_spec(0u32)
}

/// Division by a value distributes over sums and commutes with a right factor,
/// and each nonzero integer constant divided by itself is 1, as in a field of
/// characteristic zero.
#[verifier::opaque]
pub open spec fn division_by_constants<N: Add<Output = N> + Mul<Output = N> + Div<Output = N> + From<
    u32,
>>() -> bool {
    &&& forall|a: N, b: N, c: N| #[trigger] a.add_spec(b).div_spec(c) == a.div_spec(c).add_spec(
        b.div_spec(c),
    )
    &&& forall|a: N, b: N, c: N| #[trigger] a.mul_spec(b).div_spec(c) == a.div_spec(c).mul_spec(b)
    &&& forall|k: u32|
        k >= 1 ==> #[trigger] <N as FromSpec<u32>>::from_spec(k).div_spec(
            <N as FromSpec<u32>>::from_spec(k),
        ) == <N as FromSpec<u32>>::from_spec(1u32)
}

/// Dividing by a product `j * k` of positive integer constants is dividing by
/// `j`, then by `k`, as in a field of characteristic zero.
#[verifier::opaque]
pub open spec fn division_by_products<N: Div<Output = N> + From<u32>>() -> bool {
    forall|a: N, j: u32, k: u32|
        j >= 1 && k >= 1 && j * k <= u32::MAX ==> #[trigger] a.div_spec(
            <N as FromSpec<u32>>::from_spec(j),
        ).div_spec(<N as FromSpec<u32>>::from_spec(k)) == a.div_spec(
            <N as FromSpec<u32>>::from_spec((j * k) as u32),
        )
}

/// Multiplying by a value other than the constant 0 and dividing by it again
/// gives back what was multiplied, as in a field.
#[verifier::opaque]
pub open spec fn division_undoes_multiplication<N: Mul<Output = N> + Div<Output = N> + From<u32>>() -> bool {
    forall|c: N, a: N|
        a != <N as FromSpec<u32>>::from_spec(0u32) ==> #[trigger] c.mul_spec(a).div_spec(a) == c
}

pub proof fn lemma_mul_div_cancel<N: Mul<Output = N> + Div<Output = N> + From<u32>>(c: N, a: N)
    requires
        division_undoes_multiplication::<N>(),
        a != <N as FromSpec<u32>>::from_spec(0u32),
    ensures
        c.mul_spec(a).div_spec(a) == c,
{
    reveal(division_undoes_multiplication);
}

/// `N::default()` gives the constant 0.
pub open spec fn default_is_zero<N: Default + From<u32>>() -> bool {
    forall|z: N| #[trigger] call_ensures(N::default, (), z) ==> z == <N as FromSpec<u32>>::from_spec(0u32)
}

pub proof fn lemma_add_comm<N: Add<Output = N> + Mul<Output = N>>(a: N, b: N)
    requires
        commutative_ring_ops::<N>(),
    ensures
        a.add_spec(b) == b.add_spec(a),
{
    reveal(commutative_ring_ops);
}

pub proof fn lemma_add_assoc<N: Add<Output = N> + Mul<Output = N>>(a: N, b: N, c: N)
    requires
        commutative_ring_ops::<N>(),
    ensures
        a.add_spec(b).add_spec(c) == a.add_spec(b.add_spec(c)),
{
    reveal(commutative_ring_ops);
}

pub proof fn lemma_mul_comm<N: Add<Output = N> + Mul<Output = N>>(a: N, b: N)
    requires
        commutative_ring_ops::<N>(),
    ensures
        a.mul_spec(b) == b.mul_spec(a),
{
    reveal(commutative_ring_ops);
}

pub proof fn lemma_mul_assoc<N: Add<Output = N> + Mul<Output = N>>(a: N, b: N, c: N)
    requires
        commutative_ring_ops::<N>(),
    ensures
        a.mul_spec(b).mul_spec(c) == a.mul_spec(b.mul_spec(c)),
{
    reveal(commutative_ring_ops);
}

/// `a * (b + c) == a * b + a * c` and `(b + c) * a == b * a + c * a`.
pub proof fn lemma_distrib<N: Add<Output = N> + Mul<Output = N>>(a: N, b: N, c: N)
    requires
        commutative_ring_ops::<N>(),
    ensures
        a.mul_spec(b.add_spec(c)) == a.mul_spec(b).add_spec(a.mul_spec(c)),
        b.add_spec(c).mul_spec(a) == b.mul_spec(a).add_spec(c.mul_spec(a)),
{
    reveal(commutative_ring_ops);
    assert(b.add_spec(c).mul_spec(a) == a.mul_spec(b.add_spec(c)));
    assert(b.mul_spec(a) == a.mul_spec(b));
    assert(c.mul_spec(a) == a.mul_spec(c));
}

/// `(a + b) + (c + d) == (a + c) + (b + d)`
pub proof fn lemma_add_swap_middle<N: Add<Output = N> + Mul<Output = N>>(a: N, b: N, c: N, d: N)
    requires
        commutative_ring_ops::<N>(),
    ensures
        a.add_spec(b).add_spec(c.add_spec(d)) == a.add_spec(c).add_spec(b.add_spec(d)),
{
    lemma_add_assoc(a, b, c.add_spec(d));
    lemma_add_assoc(b, c, d);
    lemma_add_comm(b, c);
    lemma_add_assoc(c, b, d);
    lemma_add_assoc(a, c, b.add_spec(d));
}

pub proof fn lemma_sub_is_add_neg<N: Add<Output = N> + Sub<Output = N> + Neg<Output = N>>(a: N, b: N)
    requires
        subtraction_adds_negation::<N>(),
    ensures
        a.sub_spec(b) == a.add_spec(b.neg_spec()),
{
    reveal(subtraction_adds_negation);
}

pub proof fn lemma_neg_add<N: Add<Output = N> + Mul<Output = N> + Neg<Output = N>>(a: N, b: N)
    requires
        negation_distributes::<N>(),
    ensures
        a.add_spec(b).neg_spec() == a.neg_spec().add_spec(b.neg_spec()),
        a.neg_spec().mul_spec(b) == a.mul_spec(b).neg_spec(),
{
    reveal(negation_distributes);
}

pub proof fn lemma_neg_cancel<N: Add<Output = N> + Neg<Output = N> + From<u32>>(a: N)
    requires
        negation_cancels::<N>(),
    ensures
        a.add_spec(a.neg_spec()) == <N as FromSpec<u32>>::from_spec(0u32),
{
    reveal(negation_cancels);
}

pub proof fn lemma_div<N: Add<Output = N> + Mul<Output = N> + Div<Output = N> + From<u32>>(
    a: N,
    b: N,
    c: N,
)
    requires
        division_by_constants::<N>(),
    ensures
        a.add_spec(b).div_spec(c) == a.div_spec(c).add_spec(b.div_spec(c)),
        a.mul_spec(b).div_spec(c) == a.div_spec(c).mul_spec(b),
{
    reveal(division_by_constants);
}

pub proof fn lemma_div_self<N: Add<Output = N> + Mul<Output = N> + Div<Output = N> + From<u32>>(
    k: u32,
)
    requires
        division_by_constants::<N>(),
        k >= 1,
    ensures
        <N as FromSpec<u32>>::from_spec(k).div_spec(<N as FromSpec<u32>>::from_spec(k))
            == <N as FromSpec<u32>>::from_spec(1u32),
{
    reveal(division_by_constants);
}

pub proof fn lemma_div_product<N: Div<Output = N> + From<u32>>(a: N, j: u32, k: u32)
    requires
        division_by_products::<N>(),
        j >= 1,
        k >= 1,
        j * k <= u32::MAX,
    ensures
        a.div_spec(<N as FromSpec<u32>>::from_spec(j)).div_spec(<N as FromSpec<u32>>::from_spec(k))
            == a.div_spec(<N as FromSpec<u32>>::from_spec((j * k) as u32)),
{
    reveal(division_by_products);
}

/// The conversion from `u32` adds: `from(a + b) == from(a) + from(b)`.
pub proof fn lemma_constant_add<N: Add<Output = N> + Mul<Output = N> + From<u32>>(a: u32, b: u32)
    requires
        integer_constants::<N>(),
        commutative_ring_ops::<N>(),
        a + b <= u32::MAX,
    ensures
        <N as FromSpec<u32>>::from_spec((a + b) as u32) == <N as FromSpec<u32>>::from_spec(a).add_spec(
            <N as FromSpec<u32>>::from_spec(b),
        ),
    decreases b,
{
    let fa = <N as FromSpec<u32>>::from_spec(a);
    if b == 0 {
        lemma_constants::<N>(fa);
    } else {
        let b1 = (b - 1) as u32;
        lemma_constant_add::<N>(a, b1);
        lemma_constant_succ::<N>((a + b1) as u32);
        lemma_constant_succ::<N>(b1);
        lemma_add_assoc(
            fa,
            <N as FromSpec<u32>>::from_spec(b1),
            <N as FromSpec<u32>>::from_spec(1u32),
        );
    }
}

pub proof fn lemma_constants<N: Add<Output = N> + Mul<Output = N> + From<u32>>(a: N)
    requires
        integer_constants::<N>(),
    ensures
        a.add_spec(<N as FromSpec<u32>>::from_spec(0u32)) == a,
        <N as FromSpec<u32>>::from_spec(0u32).mul_spec(a) == <N as FromSpec<u32>>::from_spec(0u32),
        <N as FromSpec<u32>>::from_spec(1u32).mul_spec(a) == a,
{
    reveal(integer_constants);
}

pub proof fn lemma_constant_succ<N: Add<Output = N> + Mul<Output = N> + From<u32>>(j: u32)
    requires
        integer_constants::<N>(),
        j < u32::MAX,
    ensures
        <N as FromSpec<u32>>::from_spec((j + 1) as u32) == <N as FromSpec<u32>>::from_spec(j).add_spec(
            <N as FromSpec<u32>>::from_spec(1u32),
        ),
{
    reveal(integer_constants);
}

} // verus!
