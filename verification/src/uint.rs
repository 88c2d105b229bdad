//! 256-bit unsigned integers held as four 64-bit limbs, least significant
//! first. The arithmetic itself is done by `alloy_primitives::U256`.

use stylus_sdk::alloy_primitives::U256;
use vstd::prelude::*;

verus! {

/// The weight of the second limb: 2^64.
pub open spec fn limb_base() -> nat {
    0x1_0000_0000_0000_0000
}

/// The number of values a `Uint256` can take: 2^256.
pub open spec fn modulus() -> nat {
    limb_base() * limb_base() * limb_base() * limb_base()
}

/// The largest value a `Uint256` can take: 2^256 - 1.
pub open spec fn max_value() -> nat {
    (modulus() - 1) as nat
}

/// An unsigned 256-bit integer. `w0` is the least significant limb.
#[derive(Clone, Copy, Debug, PartialEq, Eq, Structural)]
pub struct Uint256 {
    pub w0: u64,
    pub w1: u64,
    pub w2: u64,
    pub w3: u64,
}

impl View for Uint256 {
    type V = nat;

    open spec fn view(&self) -> nat {
        (self.w0 as nat) + (self.w1 as nat) * limb_base() + (self.w2 as nat) * (limb_base()
            * limb_base()) + (self.w3 as nat) * (limb_base() * limb_base() * limb_base())
    }
}

impl Uint256 {
    /// The value zero.
    pub fn zero() -> (r: Uint256)
        ensures
            r@ == 0,
    {
        Uint256 { w0: 0, w1: 0, w2: 0, w3: 0 }
    }

    /// The value of a 64-bit integer.
    pub fn from_u64(x: u64) -> (r: Uint256)
        ensures
            r@ == x,
    {
        Uint256 { w0: x, w1: 0, w2: 0, w3: 0 }
    }
}

/// Every `Uint256` is at most `max_value()`.
pub proof fn lemma_view_bounds(a: Uint256)
    ensures
        a@ <= max_value(),
{
    let b = limb_base();
    assert(b * b * b * b == b + (b - 1) * b + (b - 1) * (b * b) + (b - 1) * (b * b * b))
        by (nonlinear_arith);
    assert((a.w1 as nat) * b <= (b - 1) * b) by (nonlinear_arith)
        requires
            a.w1 as nat <= b - 1,
            b > 0,
    ;
    assert((a.w2 as nat) * (b * b) <= (b - 1) * (b * b)) by (nonlinear_arith)
        requires
            a.w2 as nat <= b - 1,
            b > 0,
    ;
    assert((a.w3 as nat) * (b * b * b) <= (b - 1) * (b * b * b)) by (nonlinear_arith)
        requires
            a.w3 as nat <= b - 1,
            b > 0,
    ;
}

/// Two `Uint256` that stand for the same number have the same limbs.
pub proof fn lemma_view_injective(a: Uint256, b: Uint256)
    requires
        a@ == b@,
    ensures
        a == b,
{
    let m = limb_base();
    let hi_a = (a.w1 as nat) + (a.w2 as nat) * m + (a.w3 as nat) * (m * m);
    let hi_b = (b.w1 as nat) + (b.w2 as nat) * m + (b.w3 as nat) * (m * m);
    assert(a@ == (a.w0 as nat) + hi_a * m) by (nonlinear_arith)
        requires
            a@ == (a.w0 as nat) + (a.w1 as nat) * m + (a.w2 as nat) * (m * m) + (a.w3 as nat) * (m
                * m * m),
            hi_a == (a.w1 as nat) + (a.w2 as nat) * m + (a.w3 as nat) * (m * m),
    ;
    assert(b@ == (b.w0 as nat) + hi_b * m) by (nonlinear_arith)
        requires
            b@ == (b.w0 as nat) + (b.w1 as nat) * m + (b.w2 as nat) * (m * m) + (b.w3 as nat) * (m
                * m * m),
            hi_b == (b.w1 as nat) + (b.w2 as nat) * m + (b.w3 as nat) * (m * m),
    ;
    lemma_split(a.w0 as nat, hi_a, b.w0 as nat, hi_b);
    let top_a = (a.w2 as nat) + (a.w3 as nat) * m;
    let top_b = (b.w2 as nat) + (b.w3 as nat) * m;
    assert(hi_a == (a.w1 as nat) + top_a * m) by (nonlinear_arith)
        requires
            hi_a == (a.w1 as nat) + (a.w2 as nat) * m + (a.w3 as nat) * (m * m),
            top_a == (a.w2 as nat) + (a.w3 as nat) * m,
    ;
    assert(hi_b == (b.w1 as nat) + top_b * m) by (nonlinear_arith)
        requires
            hi_b == (b.w1 as nat) + (b.w2 as nat) * m + (b.w3 as nat) * (m * m),
            top_b == (b.w2 as nat) + (b.w3 as nat) * m,
    ;
    lemma_split(a.w1 as nat, top_a, b.w1 as nat, top_b);
    lemma_split(a.w2 as nat, a.w3 as nat, b.w2 as nat, b.w3 as nat);
}

/// A number has one low limb and one rest above it.
proof fn lemma_split(lo_a: nat, hi_a: nat, lo_b: nat, hi_b: nat)
    requires
        lo_a < limb_base(),
        lo_b < limb_base(),
        lo_a + hi_a * limb_base() == lo_b + hi_b * limb_base(),
    ensures
        lo_a == lo_b,
        hi_a == hi_b,
{
    let m = limb_base();
    if hi_a < hi_b {
        assert(hi_b * m >= hi_a * m + m) by (nonlinear_arith)
            requires
                hi_a < hi_b,
                m > 0,
        ;
    } else if hi_b < hi_a {
        assert(hi_a * m >= hi_b * m + m) by (nonlinear_arith)
            requires
                hi_b < hi_a,
                m > 0,
        ;
    }
}

/// `U256::checked_add`: the sum where it is below 2^256, `None` where it is
/// not.
#[verifier::external_body]
pub(crate) fn checked_add(a: Uint256, b: Uint256) -> (r: Option<Uint256>)
    ensures
        r is Some <==> a@ + b@ <= max_value(),
        r is Some ==> r->0@ == a@ + b@,
{
    let x = U256::from_limbs([a.w0, a.w1, a.w2, a.w3]);
    let y = U256::from_limbs([b.w0, b.w1, b.w2, b.w3]);
    x.checked_add(y).map(|v| {
        let l = v.into_limbs();
        Uint256 { w0: l[0], w1: l[1], w2: l[2], w3: l[3] }
    })
}

/// `U256::wrapping_add`: the sum reduced modulo 2^256.
#[verifier::external_body]
pub(crate) fn wrapping_add(a: Uint256, b: Uint256) -> (r: Uint256)
    ensures
        r@ == (a@ + b@) % modulus(),
{
    let x = U256::from_limbs([a.w0, a.w1, a.w2, a.w3]);
    let y = U256::from_limbs([b.w0, b.w1, b.w2, b.w3]);
    let l = x.wrapping_add(y).into_limbs();
    Uint256 { w0: l[0], w1: l[1], w2: l[2], w3: l[3] }
}

/// `U256::checked_sub`: the difference where the first operand is at least
/// the second, `None` where it is smaller.
#[verifier::external_body]
pub(crate) fn checked_sub(a: Uint256, b: Uint256) -> (r: Option<Uint256>)
    ensures
        r is Some <==> a@ >= b@,
        r is Some ==> r->0@ == a@ - b@,
{
    let x = U256::from_limbs([a.w0, a.w1, a.w2, a.w3]);
    let y = U256::from_limbs([b.w0, b.w1, b.w2, b.w3]);
    x.checked_sub(y).map(|v| {
        let l = v.into_limbs();
        Uint256 { w0: l[0], w1: l[1], w2: l[2], w3: l[3] }
    })
}

/// `U256::checked_mul`: the product where it is below 2^256, `None` where it
/// is not.
#[verifier::external_body]
pub(crate) fn checked_mul(a: Uint256, b: Uint256) -> (r: Option<Uint256>)
    ensures
        r is Some <==> a@ * b@ <= max_value(),
        r is Some ==> r->0@ == a@ * b@,
{
    let x = U256::from_limbs([a.w0, a.w1, a.w2, a.w3]);
    let y = U256::from_limbs([b.w0, b.w1, b.w2, b.w3]);
    x.checked_mul(y).map(|v| {
        let l = v.into_limbs();
        Uint256 { w0: l[0], w1: l[1], w2: l[2], w3: l[3] }
    })
}

/// `U256::checked_div`: the quotient rounded down, `None` where the divisor
/// is zero.
#[verifier::external_body]
pub(crate) fn checked_div(a: Uint256, b: Uint256) -> (r: Option<Uint256>)
    ensures
        r is Some <==> b@ != 0,
        r is Some ==> r->0@ == a@ / b@,
{
    let x = U256::from_limbs([a.w0, a.w1, a.w2, a.w3]);
    let y = U256::from_limbs([b.w0, b.w1, b.w2, b.w3]);
    x.checked_div(y).map(|v| {
        let l = v.into_limbs();
        Uint256 { w0: l[0], w1: l[1], w2: l[2], w3: l[3] }
    })
}

/// The `<` of `U256`: whether the first operand is the smaller number.
#[verifier::external_body]
pub(crate) fn less_than(a: Uint256, b: Uint256) -> (r: bool)
    ensures
        r == (a@ < b@),
{
    let x = U256::from_limbs([a.w0, a.w1, a.w2, a.w3]);
    let y = U256::from_limbs([b.w0, b.w1, b.w2, b.w3]);
    x < y
}

} // verus!
