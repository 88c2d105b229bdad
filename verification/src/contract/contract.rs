//! A contract with an owner and a balance that counts upwards.

use crate::address::Address;
use crate::uint::{modulus, wrapping_add, Uint256};
use vstd::prelude::*;

verus! {

/// An owner and a balance that starts at zero.
pub struct Contract {
    owner: Address,
    balance: Uint256,
}

impl Contract {
    /// The account that the contract was made for.
    pub closed spec fn owner(&self) -> Address {
        self.owner
    }

    /// The balance as it stands.
    pub closed spec fn balance(&self) -> Uint256 {
        self.balance
    }

    /// A contract of `owner` with balance zero.
    pub fn new(owner: Address) -> (r: Contract)
        ensures
            r.owner() == owner,
            r.balance()@ == 0,
    {
        Contract { owner, balance: Uint256::zero() }
    }

    /// Adds one to the balance; from the largest value it goes round to
    /// zero.
    pub fn increment_balance(&mut self)
        ensures
            final(self).owner() == old(self).owner(),
            final(self).balance()@ == (old(self).balance()@ + 1) % modulus(),
    {
        let current_balance = self.balance;
        self.balance = wrapping_add(current_balance, Uint256::from_u64(1));
    }

    /// The balance.
    pub fn get_balance(&self) -> (r: Uint256)
        ensures
            r == self.balance(),
    {
        self.balance
    }
}

} // verus!
