//! A store of one value and a growing list of addresses.

use crate::address::Address;
use crate::uint::Uint256;
use vstd::prelude::*;

verus! {

/// One stored value and the addresses added so far, oldest first.
pub struct StorageExample {
    pub some_value: Uint256,
    pub addresses: Vec<Address>,
}

impl StorageExample {
    /// Replaces the stored value.
    pub fn add_value(&mut self, value: Uint256)
        ensures
            final(self).some_value == value,
            final(self).addresses == old(self).addresses,
    {
        self.some_value = value;
    }

    /// Adds an address at the end of the list.
    pub fn add_address(&mut self, address: Address)
        ensures
            final(self).some_value == old(self).some_value,
            final(self).addresses@ == old(self).addresses@.push(address),
    {
        self.addresses.push(address);
    }
}

} // verus!
