//! Compound growth over a whole number of periods, in 256-bit integers.

use crate::uint::{
    checked_add, checked_div, checked_mul, checked_sub, lemma_view_bounds, less_than, max_value,
    Uint256,
};
use vstd::prelude::*;

verus! {

/// The product of two numbers where it fits in 256 bits, zero where it does
/// not.
pub open spec fn product_or_zero(a: nat, b: nat) -> nat {
    if a * b <= max_value() {
        a * b
    } else {
        0
    }
}

/// `base` multiplied into 1 once per period, each product replaced by zero
/// where it does not fit in 256 bits.
pub open spec fn growth(base: nat, periods: nat) -> nat
    decreases periods,
{
    if periods == 0 {
        1
    } else {
        product_or_zero(growth(base, (periods - 1) as nat), base)
    }
}

/// The principal times the growth at `1 + rate / 100`, the division rounded
/// down: a rate below 100 adds nothing to the base.
pub open spec fn compound_value(principal: nat, rate: nat, periods: nat) -> nat {
    product_or_zero(principal, growth(1 + rate / 100, periods))
}

/// With no period the principal comes back unchanged.
pub proof fn lemma_no_periods(principal: nat, rate: nat)
    requires
        principal <= max_value(),
    ensures
        compound_value(principal, rate, 0) == principal,
{
    assert(principal * 1 == principal) by (nonlinear_arith);
}

/// A base of 1 never grows.
pub proof fn lemma_unit_growth(periods: nat)
    ensures
        growth(1, periods) == 1,
    decreases periods,
{
    if periods > 0 {
        lemma_unit_growth((periods - 1) as nat);
        assert(1 * 1 == 1) by (nonlinear_arith);
        lemma_view_bounds(Uint256 { w0: 1, w1: 0, w2: 0, w3: 0 });
    }
}

/// A rate below 100 is rounded down to no growth at all: the principal comes
/// back unchanged after any number of periods.
pub proof fn lemma_rate_below_hundred(principal: nat, rate: nat, periods: nat)
    requires
        principal <= max_value(),
        rate < 100,
    ensures
        compound_value(principal, rate, periods) == principal,
{
    lemma_unit_growth(periods);
    assert(rate / 100 == 0);
    assert(principal * 1 == principal) by (nonlinear_arith);
}

/// The principal compounded over `periods` periods at `rate`, with one
/// multiplication per period.
pub fn compound(principal: Uint256, rate: Uint256, periods: Uint256) -> (r: Uint256)
    ensures
        r@ == compound_value(principal@, rate@, periods@),
{
    let rate_factor = match checked_div(rate, Uint256::from_u64(100)) {
        Some(q) => q,
        None => Uint256::zero(),
    };
    proof {
        lemma_view_bounds(rate);
        lemma_view_bounds(Uint256 { w0: 1, w1: 0, w2: 0, w3: 0 });
    }
    let base = match checked_add(Uint256::from_u64(1), rate_factor) {
        Some(b) => b,
        None => Uint256::zero(),
    };
    assert(base@ == 1 + rate@ / 100);
    let mut factor = Uint256::from_u64(1);
    let mut remaining = periods;
    while less_than(Uint256::zero(), remaining)
        invariant
            remaining@ <= periods@,
            factor@ == growth(base@, (periods@ - remaining@) as nat),
        decreases remaining@,
    {
        factor = match checked_mul(factor, base) {
            Some(p) => p,
            None => Uint256::zero(),
        };
        remaining = match checked_sub(remaining, Uint256::from_u64(1)) {
            Some(d) => d,
            None => Uint256::zero(),
        };
    }
    match checked_mul(principal, factor) {
        Some(p) => p,
        None => Uint256::zero(),
    }
}

} // verus!
