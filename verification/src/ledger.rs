//! Per-account balances over the key-value store. An account that was never
//! credited has balance zero.

use crate::address::Address;
use crate::error::LedgerError;
use crate::store::KeyValueStore;
use crate::uint::{checked_add, checked_sub, max_value, Uint256};
use vstd::prelude::*;

verus! {

/// The mapping from accounts to balances.
pub struct BalanceLedger {
    store: KeyValueStore,
}

impl View for BalanceLedger {
    type V = Seq<(Seq<u8>, nat)>;

    /// The store's pairs of account and balance.
    closed spec fn view(&self) -> Seq<(Seq<u8>, nat)> {
        self.store@
    }
}

impl BalanceLedger {
    /// The ledger's invariant: that of its store.
    pub closed spec fn wf(&self) -> bool {
        self.store.wf()
    }

    /// The balance of the account `k`.
    pub closed spec fn balance(&self, k: Seq<u8>) -> nat {
        self.store.value_at(k)
    }

    /// The sum of all balances.
    pub closed spec fn total(&self) -> nat {
        self.store.total()
    }

    /// Every account has the balance that it has in `other`, and the sums of
    /// all balances agree.
    pub open spec fn same_as(&self, other: &BalanceLedger) -> bool {
        &&& forall|k: Seq<u8>| #[trigger] self.balance(k) == other.balance(k)
        &&& self.total() == other.total()
    }

    /// Every balance is a value of 256 bits.
    pub proof fn lemma_balance_bound(&self, k: Seq<u8>)
        ensures
            self.balance(k) <= max_value(),
    {
        self.store.lemma_value_bound(k);
    }

    /// An empty ledger: every balance is zero.
    pub fn new() -> (r: BalanceLedger)
        ensures
            r.wf(),
            forall|k: Seq<u8>| #[trigger] r.balance(k) == 0,
            r.total() == 0,
    {
        BalanceLedger { store: KeyValueStore::new() }
    }

    /// The balance of an account, zero for one that is unknown.
    pub fn balance_of(&self, account: &Address) -> (r: Uint256)
        requires
            self.wf(),
        ensures
            r@ == self.balance(account@),
    {
        self.store.get(account)
    }

    /// Adds `amount` to the account's balance. Refused with `Overflow`, and
    /// nothing written, where the new balance would not fit in 256 bits.
    pub fn credit(&mut self, account: Address, amount: Uint256) -> (r: Result<(), LedgerError>)
        requires
            old(self).wf(),
        ensures
            final(self).wf(),
            r is Ok <==> old(self).balance(account@) + amount@ <= max_value(),
            r is Err ==> r == Err::<(), LedgerError>(LedgerError::Overflow),
            r is Err ==> final(self)@ == old(self)@ && final(self).same_as(old(self)),
            r is Ok ==> final(self).total() == old(self).total() + amount@,
            r is Ok ==> forall|k: Seq<u8>|
                #[trigger] final(self).balance(k) == if k == account@ {
                    old(self).balance(k) + amount@
                } else {
                    old(self).balance(k)
                },
    {
        let current = self.store.get(&account);
        match checked_add(current, amount) {
            Some(next) => {
                self.store.set(account, next);
                Ok(())
            },
            None => Err(LedgerError::Overflow),
        }
    }

    /// Takes `amount` from the account's balance. Refused with
    /// `InsufficientBalance`, and nothing written, where the balance is
    /// smaller than `amount`.
    pub fn debit(&mut self, account: Address, amount: Uint256) -> (r: Result<(), LedgerError>)
        requires
            old(self).wf(),
        ensures
            final(self).wf(),
            r is Ok <==> old(self).balance(account@) >= amount@,
            r is Err ==> r == Err::<(), LedgerError>(LedgerError::InsufficientBalance),
            r is Err ==> final(self)@ == old(self)@ && final(self).same_as(old(self)),
            r is Ok ==> final(self).total() == old(self).total() - amount@,
            r is Ok ==> forall|k: Seq<u8>|
                #[trigger] final(self).balance(k) == if k == account@ {
                    old(self).balance(k) - amount@
                } else {
                    old(self).balance(k) as int
                },
    {
        let current = self.store.get(&account);
        match checked_sub(current, amount) {
            Some(next) => {
                self.store.set(account, next);
                Ok(())
            },
            None => Err(LedgerError::InsufficientBalance),
        }
    }
}

} // verus!
