//! The ledger's operations: deposits, withdrawals, single and batch
//! transfers, the numeric log and the interest calculator behind one
//! contract state. Every operation is all-or-nothing: one that is refused
//! leaves every balance as it was, and a withdrawal whose payment fails is
//! given back by `settle`.

use crate::address::Address;
use crate::error::LedgerError;
use crate::interest::{compound, compound_value};
use crate::ledger::BalanceLedger;
use crate::log::{entry_at, NumericLog};
use crate::uint::{checked_add, lemma_view_bounds, less_than, max_value, Uint256};
use vstd::prelude::*;

verus! {

/// The sum of a list of amounts.
pub open spec fn sum_amounts(amounts: Seq<Uint256>) -> nat
    decreases amounts.len(),
{
    if amounts.len() == 0 {
        0
    } else {
        sum_amounts(amounts.drop_last()) + amounts.last()@
    }
}

/// What the pairs of recipient and amount credit to the account `k` in all:
/// a recipient that stands in several pairs is credited once for each.
pub open spec fn credited(recipients: Seq<Address>, amounts: Seq<Uint256>, k: Seq<u8>) -> nat
    decreases recipients.len(),
{
    if recipients.len() == 0 || amounts.len() == 0 {
        0
    } else {
        credited(recipients.drop_last(), amounts.drop_last(), k) + if recipients.last()@ == k {
            amounts.last()@
        } else {
            0
        }
    }
}

/// The balance of the account `k`, which held `before`, once the sender has
/// been debited by the sum of all amounts and the first `n` pairs have been
/// credited in order.
pub open spec fn batch_balance(
    before: nat,
    sender: Seq<u8>,
    recipients: Seq<Address>,
    amounts: Seq<Uint256>,
    n: int,
    k: Seq<u8>,
) -> int {
    before - (if k == sender {
        sum_amounts(amounts)
    } else {
        0
    }) + credited(recipients.take(n), amounts.take(n), k)
}

/// The balance that held `before` after a transfer of `amount`: the sender
/// is debited, the recipient credited, and an account that is both ends
/// where it began.
pub open spec fn balance_after_transfer(
    before: nat,
    is_sender: bool,
    is_recipient: bool,
    amount: nat,
) -> int {
    before - (if is_sender {
        amount as int
    } else {
        0
    }) + (if is_recipient {
        amount as int
    } else {
        0
    })
}

/// How a transfer of `amount` ends, from the balances of its two accounts.
pub open spec fn transfer_outcome(
    sender_balance: nat,
    recipient_balance: nat,
    same_account: bool,
    amount: nat,
) -> Result<(), LedgerError> {
    if sender_balance < amount {
        Err(LedgerError::InsufficientBalance)
    } else if !same_account && recipient_balance + amount > max_value() {
        Err(LedgerError::Overflow)
    } else {
        Ok(())
    }
}

/// Whether a withdrawal of `amount` from a balance is allowed.
pub open spec fn withdraw_allowed(balance: nat, amount: nat) -> bool {
    balance >= amount
}

/// A withdrawal sees the balance that an earlier withdrawal left: after one
/// of `first`, a second one of `second` is allowed only if both together fit
/// in the balance from which the first was taken.
pub proof fn lemma_nested_withdraw(balance: nat, first: nat, second: nat)
    requires
        withdraw_allowed(balance, first),
    ensures
        withdraw_allowed((balance - first) as nat, second) <==> first + second <= balance,
{
}

/// A withdrawal whose payment fails changes nothing: where the withdrawal is
/// ended as failed in the state that it left, every balance and the sum of
/// all balances are what they were before it.
pub proof fn lemma_failed_payment_restores(
    before: &Contract,
    debited: &Contract,
    after: &Contract,
    payout: Payout,
)
    requires
        withdraw_allowed(before.balance(payout.to@), payout.amount@),
        before.withdrawn(debited, payout.to@, payout.amount@),
        debited.settled(after, payout, false),
    ensures
        after.number == before.number,
        after.numbers == before.numbers,
        after.total_supply() == before.total_supply(),
        forall|k: Seq<u8>| #[trigger] after.balance(k) == before.balance(k),
{
    before.lemma_balance_bound(payout.to@);
    assert(debited.balance(payout.to@) + payout.amount@ == before.balance(payout.to@));
    assert forall|k: Seq<u8>| #[trigger] after.balance(k) == before.balance(k) by {
        assert(after.balance(k) == if k == payout.to@ {
            debited.balance(k) + payout.amount@
        } else {
            debited.balance(k)
        });
    }
}

/// The sum of a prefix grows by the next amount.
pub proof fn lemma_sum_step(amounts: Seq<Uint256>, i: int)
    requires
        0 <= i < amounts.len(),
    ensures
        sum_amounts(amounts.take(i + 1)) == sum_amounts(amounts.take(i)) + amounts[i]@,
{
    assert(amounts.take(i + 1).drop_last() =~= amounts.take(i));
}

/// No prefix sums to more than the whole list.
pub proof fn lemma_sum_prefix(amounts: Seq<Uint256>, i: int)
    requires
        0 <= i <= amounts.len(),
    ensures
        sum_amounts(amounts.take(i)) <= sum_amounts(amounts),
    decreases amounts.len(),
{
    if i == amounts.len() {
        assert(amounts.take(i) =~= amounts);
    } else {
        assert(amounts.take(i) =~= amounts.drop_last().take(i));
        lemma_sum_prefix(amounts.drop_last(), i);
    }
}

/// What a prefix credits to an account grows by the next amount where the
/// next recipient is that account, and not at all where it is another.
pub proof fn lemma_credited_step(recipients: Seq<Address>, amounts: Seq<Uint256>, i: int)
    requires
        recipients.len() == amounts.len(),
        0 <= i < recipients.len(),
    ensures
        forall|k: Seq<u8>|
            credited(recipients.take(i + 1), amounts.take(i + 1), k) == #[trigger] credited(
                recipients.take(i),
                amounts.take(i),
                k,
            ) + if recipients[i]@ == k {
                amounts[i]@
            } else {
                0
            },
{
    assert(recipients.take(i + 1).drop_last() =~= recipients.take(i));
    assert(amounts.take(i + 1).drop_last() =~= amounts.take(i));
}

/// A recipient that stands in two places of a batch is credited with both
/// amounts, and an account that is no recipient with nothing.
pub proof fn lemma_duplicate_recipient(b: Address, first: Uint256, second: Uint256, k: Seq<u8>)
    ensures
        credited(seq![b, b], seq![first, second], b@) == first@ + second@,
        k != b@ ==> credited(seq![b, b], seq![first, second], k) == 0,
{
    let rs = seq![b, b];
    let am = seq![first, second];
    assert(rs.drop_last().drop_last().len() == 0);
    assert(am.drop_last().drop_last().len() == 0);
    reveal_with_fuel(credited, 3);
}

/// The instruction that a withdrawal leaves for the host: move `amount` of
/// native value to `to`. The balance has been debited when it is handed out;
/// `Contract::settle` ends the withdrawal with what the host reports.
#[derive(Clone, Copy, Debug)]
pub struct Payout {
    pub to: Address,
    pub amount: Uint256,
}

/// The contract's state: one stored number, the balances and the log.
pub struct Contract {
    pub number: Uint256,
    pub balances: BalanceLedger,
    pub numbers: NumericLog,
}

impl Contract {
    /// The state's invariant: that of its balances.
    pub open spec fn wf(&self) -> bool {
        self.balances.wf()
    }

    /// The balance of the account `k`.
    pub open spec fn balance(&self, k: Seq<u8>) -> nat {
        self.balances.balance(k)
    }

    /// The sum of all balances.
    pub open spec fn total_supply(&self) -> nat {
        self.balances.total()
    }

    /// Every balance is a value of 256 bits.
    pub proof fn lemma_balance_bound(&self, k: Seq<u8>)
        ensures
            self.balance(k) <= max_value(),
    {
        self.balances.lemma_balance_bound(k);
    }

    /// `after` has every balance of this state, the same sum of all
    /// balances, the same number and the same log.
    pub open spec fn unchanged(&self, after: &Contract) -> bool {
        &&& after.number == self.number
        &&& after.numbers == self.numbers
        &&& after.balances.same_as(&self.balances)
        &&& forall|k: Seq<u8>| #[trigger] after.balance(k) == self.balance(k)
    }

    /// `after` is this state with `amount` taken from `caller`, and nothing
    /// else touched.
    pub open spec fn withdrawn(&self, after: &Contract, caller: Seq<u8>, amount: nat) -> bool {
        &&& after.number == self.number
        &&& after.numbers == self.numbers
        &&& after.total_supply() == self.total_supply() - amount
        &&& forall|k: Seq<u8>|
            #[trigger] after.balance(k) == if k == caller {
                self.balance(k) - amount
            } else {
                self.balance(k) as int
            }
    }

    /// `after` is this state with `amount` added to `account`, and nothing
    /// else touched.
    pub open spec fn credited_with(&self, after: &Contract, account: Seq<u8>, amount: nat) -> bool {
        &&& after.number == self.number
        &&& after.numbers == self.numbers
        &&& after.total_supply() == self.total_supply() + amount
        &&& forall|k: Seq<u8>|
            #[trigger] after.balance(k) == if k == account {
                self.balance(k) + amount
            } else {
                self.balance(k)
            }
    }

    /// `after` is what ending a withdrawal makes of this state. A payment
    /// that was made leaves it as it is. One that failed puts the amount
    /// back on the account; only where the account has meanwhile grown so
    /// far that the amount no longer fits is it left as it is.
    pub open spec fn settled(&self, after: &Contract, payout: Payout, sent: bool) -> bool {
        if !sent && self.balance(payout.to@) + payout.amount@ <= max_value() {
            self.credited_with(after, payout.to@, payout.amount@)
        } else {
            self.unchanged(after)
        }
    }

    /// `after` is this state with `amount` moved from `sender` to `to`: each
    /// balance as `balance_after_transfer` gives it, the sum of all balances
    /// as it was, and nothing else touched.
    pub open spec fn transferred(
        &self,
        after: &Contract,
        sender: Seq<u8>,
        to: Seq<u8>,
        amount: nat,
    ) -> bool {
        &&& after.number == self.number
        &&& after.numbers == self.numbers
        &&& after.total_supply() == self.total_supply()
        &&& forall|k: Seq<u8>|
            #[trigger] after.balance(k) == balance_after_transfer(
                self.balance(k),
                k == sender,
                k == to,
                amount,
            )
    }

    /// `after` is this state with the whole batch applied: each balance as
    /// `batch_balance` gives it after all credits, the sum of all balances
    /// as it was, and nothing else touched.
    pub open spec fn batch_transferred(
        &self,
        after: &Contract,
        sender: Seq<u8>,
        recipients: Seq<Address>,
        amounts: Seq<Uint256>,
    ) -> bool {
        &&& after.number == self.number
        &&& after.numbers == self.numbers
        &&& after.total_supply() == self.total_supply()
        &&& forall|k: Seq<u8>|
            #[trigger] after.balance(k) == batch_balance(
                self.balance(k),
                sender,
                recipients,
                amounts,
                recipients.len() as int,
                k,
            )
    }

    /// Whether the credit of the pair at `i` would take its recipient's
    /// balance past 256 bits, the sender debited and the pairs before it
    /// credited.
    pub open spec fn credit_overflows_at(
        &self,
        sender: Seq<u8>,
        recipients: Seq<Address>,
        amounts: Seq<Uint256>,
        i: int,
    ) -> bool {
        batch_balance(
            self.balance(recipients[i]@),
            sender,
            recipients,
            amounts,
            i + 1,
            recipients[i]@,
        ) > max_value()
    }

    /// How a batch transfer ends on this state. The checks come in this
    /// order: the lengths, the sum of the amounts, the sender's balance, then
    /// each credit.
    pub open spec fn batch_outcome(
        &self,
        sender: Seq<u8>,
        recipients: Seq<Address>,
        amounts: Seq<Uint256>,
    ) -> Result<(), LedgerError> {
        if recipients.len() != amounts.len() {
            Err(LedgerError::LengthMismatch)
        } else if sum_amounts(amounts) > max_value() {
            Err(LedgerError::Overflow)
        } else if self.balance(sender) < sum_amounts(amounts) {
            Err(LedgerError::InsufficientBalance)
        } else if exists|i: int|
            0 <= i < recipients.len() && #[trigger] self.credit_overflows_at(
                sender,
                recipients,
                amounts,
                i,
            ) {
            Err(LedgerError::Overflow)
        } else {
            Ok(())
        }
    }

    /// The state at deployment: the number zero, no balance, an empty log.
    pub fn constructor() -> (r: Contract)
        ensures
            r.wf(),
            r.number@ == 0,
            forall|k: Seq<u8>| #[trigger] r.balance(k) == 0,
            r.total_supply() == 0,
            r.numbers@ == Seq::<Uint256>::empty(),
    {
        Contract {
            number: Uint256::zero(),
            balances: BalanceLedger::new(),
            numbers: NumericLog::new(),
        }
    }

    /// The stored number.
    pub fn get_number(&self) -> (r: Uint256)
        ensures
            r == self.number,
    {
        self.number
    }

    /// Replaces the stored number.
    pub fn set_number(&mut self, new_number: Uint256)
        ensures
            final(self).number == new_number,
            final(self).balances == old(self).balances,
            final(self).numbers == old(self).numbers,
    {
        self.number = new_number;
    }

    /// The balance of an account, zero for one that is unknown. Never fails.
    pub fn get_balance(&self, account: Address) -> (r: Result<Uint256, LedgerError>)
        requires
            self.wf(),
        ensures
            r is Ok,
            r->Ok_0@ == self.balance(account@),
    {
        Ok(self.balances.balance_of(&account))
    }

    /// The log entry at `index`, counted from zero; `IndexOutOfRange` at or
    /// past the log's length.
    pub fn get_number_at(&self, index: u32) -> (r: Result<Uint256, LedgerError>)
        ensures
            r == entry_at(self.numbers@, index as int),
    {
        self.numbers.get(index as usize)
    }

    /// Credits the caller with the value that came with the call. Refused
    /// with `Overflow` where the new balance would not fit in 256 bits.
    pub fn deposit(&mut self, caller: Address, value: Uint256) -> (r: Result<(), LedgerError>)
        requires
            old(self).wf(),
        ensures
            final(self).wf(),
            r is Ok <==> old(self).balance(caller@) + value@ <= max_value(),
            r is Err ==> r == Err::<(), LedgerError>(LedgerError::Overflow),
            r is Err ==> old(self).unchanged(final(self)),
            r is Ok ==> old(self).credited_with(final(self), caller@, value@),
    {
        self.balances.credit(caller, value)
    }

    /// Debits the caller by `amount` and hands out the instruction to pay
    /// that amount to the caller. The debit is applied when this returns, so
    /// whatever the payment sets off sees the reduced balance. Refused with
    /// `InsufficientBalance` where the caller holds less than `amount`.
    pub fn withdraw(&mut self, caller: Address, amount: Uint256) -> (r: Result<
        Payout,
        LedgerError,
    >)
        requires
            old(self).wf(),
        ensures
            final(self).wf(),
            r is Ok <==> withdraw_allowed(old(self).balance(caller@), amount@),
            r is Err ==> r->Err_0 == LedgerError::InsufficientBalance,
            r is Err ==> old(self).unchanged(final(self)),
            r is Ok ==> r->Ok_0.to == caller && r->Ok_0.amount == amount,
            r is Ok ==> old(self).withdrawn(final(self), caller@, amount@),
    {
        let current = self.balances.balance_of(&caller);
        if less_than(current, amount) {
            return Err(LedgerError::InsufficientBalance);
        }
        match self.balances.debit(caller, amount) {
            Ok(()) => Ok(Payout { to: caller, amount }),
            Err(e) => Err(e),
        }
    }

    /// Ends a withdrawal with what the host reported of the payment. A
    /// payment that was made changes nothing. One that failed is
    /// `ExternalTransferFailed`, and the amount goes back to the account, so
    /// that the withdrawal as a whole has changed nothing.
    pub fn settle(&mut self, payout: Payout, sent: bool) -> (r: Result<(), LedgerError>)
        requires
            old(self).wf(),
        ensures
            final(self).wf(),
            r == if sent {
                Ok::<(), LedgerError>(())
            } else {
                Err::<(), LedgerError>(LedgerError::ExternalTransferFailed)
            },
            old(self).settled(final(self), payout, sent),
    {
        if sent {
            return Ok(());
        }
        match self.balances.credit(payout.to, payout.amount) {
            Ok(()) => {},
            Err(_) => {},
        }
        Err(LedgerError::ExternalTransferFailed)
    }

    /// Moves `amount` from `sender` to `to`: a debit, then a credit, also
    /// where both are the same account, which then ends where it began.
    /// Refused with `InsufficientBalance` where the sender holds less than
    /// `amount`, and with `Overflow` where the recipient's balance would not
    /// fit in 256 bits; the sender's debit is then taken back.
    pub fn transfer(&mut self, sender: Address, to: Address, amount: Uint256) -> (r: Result<
        (),
        LedgerError,
    >)
        requires
            old(self).wf(),
        ensures
            final(self).wf(),
            r == transfer_outcome(
                old(self).balance(sender@),
                old(self).balance(to@),
                sender@ == to@,
                amount@,
            ),
            r is Err ==> old(self).unchanged(final(self)),
            r is Ok ==> old(self).transferred(final(self), sender@, to@, amount@),
    {
        let from_balance = self.balances.balance_of(&sender);
        proof {
            lemma_view_bounds(from_balance);
        }
        if less_than(from_balance, amount) {
            return Err(LedgerError::InsufficientBalance);
        }
        match self.balances.debit(sender, amount) {
            Ok(()) => {},
            Err(e) => {
                return Err(e);
            },
        }
        match self.balances.credit(to, amount) {
            Ok(()) => Ok(()),
            Err(e) => {
                match self.balances.credit(sender, amount) {
                    Ok(()) => {},
                    Err(_) => {},
                }
                Err(e)
            },
        }
    }

    /// Adds `number` at the end of the log. Never fails.
    pub fn add_number(&mut self, number: Uint256) -> (r: Result<(), LedgerError>)
        ensures
            r is Ok,
            final(self).numbers@ == old(self).numbers@.push(number),
            final(self).number == old(self).number,
            final(self).balances == old(self).balances,
    {
        self.numbers.append(number);
        Ok(())
    }

    /// The principal compounded over `time` periods at `rate`. Never fails,
    /// and changes nothing.
    pub fn calculate_compound_interest(
        &mut self,
        principal: Uint256,
        rate: Uint256,
        time: Uint256,
    ) -> (r: Result<Uint256, LedgerError>)
        ensures
            r is Ok,
            r->Ok_0@ == compound_value(principal@, rate@, time@),
            *final(self) == *old(self),
    {
        Ok(compound(principal, rate, time))
    }

    /// A copy of the whole log, in the order in which it was written.
    pub fn get_all_numbers(&self) -> (r: Result<Vec<Uint256>, LedgerError>)
        ensures
            r is Ok,
            r->Ok_0@ == self.numbers@,
    {
        Ok(self.numbers.to_sequence())
    }

    /// The balances of the given accounts, in their order. Never fails.
    pub fn get_multiple_balances(&self, accounts: &[Address]) -> (r: Result<
        Vec<Uint256>,
        LedgerError,
    >)
        requires
            self.wf(),
        ensures
            r is Ok,
            r->Ok_0@.len() == accounts@.len(),
            forall|i: int|
                0 <= i < accounts@.len() ==> (#[trigger] r->Ok_0@[i])@ == self.balance(
                    accounts@[i]@,
                ),
    {
        let mut balances: Vec<Uint256> = Vec::with_capacity(accounts.len());
        let mut i: usize = 0;
        while i < accounts.len()
            invariant
                self.wf(),
                i <= accounts@.len(),
                balances@.len() == i,
                forall|j: int|
                    0 <= j < i ==> (#[trigger] balances@[j])@ == self.balance(accounts@[j]@),
            decreases accounts@.len() - i,
        {
            balances.push(self.balances.balance_of(&accounts[i]));
            i += 1;
        }
        Ok(balances)
    }

    /// Moves `amounts[i]` from `sender` to `recipients[i]` for every `i`:
    /// one debit of the sum, then the credits in the order of the lists. A
    /// recipient that stands there several times, or the sender among the
    /// recipients, is credited once for each place. Refused as
    /// `batch_outcome` says; where a credit is refused, the credits made
    /// before it and the debit are taken back, so that every balance is as it
    /// was.
    pub fn batch_transfer(
        &mut self,
        sender: Address,
        recipients: &[Address],
        amounts: &[Uint256],
    ) -> (r: Result<(), LedgerError>)
        requires
            old(self).wf(),
        ensures
            final(self).wf(),
            r == old(self).batch_outcome(sender@, recipients@, amounts@),
            r is Err ==> old(self).unchanged(final(self)),
            r is Ok ==> old(self).batch_transferred(final(self), sender@, recipients@, amounts@),
    {
        let ghost before = *self;
        if recipients.len() != amounts.len() {
            return Err(LedgerError::LengthMismatch);
        }
        let n = amounts.len();
        let mut total = Uint256::zero();
        let mut i: usize = 0;
        while i < n
            invariant
                n == amounts@.len(),
                n == recipients@.len(),
                i <= n,
                *self == before,
                before == *old(self),
                before.wf(),
                total@ == sum_amounts(amounts@.take(i as int)),
            decreases n - i,
        {
            proof {
                lemma_sum_step(amounts@, i as int);
                lemma_sum_prefix(amounts@, i + 1);
            }
            match checked_add(total, amounts[i]) {
                Some(next) => {
                    total = next;
                },
                None => {
                    return Err(LedgerError::Overflow);
                },
            }
            i += 1;
        }
        assert(amounts@.take(n as int) =~= amounts@);
        proof {
            lemma_view_bounds(total);
        }
        let balance = self.balances.balance_of(&sender);
        if less_than(balance, total) {
            return Err(LedgerError::InsufficientBalance);
        }
        proof {
            lemma_view_bounds(balance);
        }
        match self.balances.debit(sender, total) {
            Ok(()) => {},
            Err(e) => {
                return Err(e);
            },
        }
        let mut j: usize = 0;
        while j < n
            invariant
                n == amounts@.len(),
                n == recipients@.len(),
                j <= n,
                total@ == sum_amounts(amounts@),
                total@ <= max_value(),
                before == *old(self),
                total@ <= before.balance(sender@) <= max_value(),
                before.wf(),
                self.balances.wf(),
                self.number == before.number,
                self.numbers == before.numbers,
                self.balances.total() == before.total_supply() - total@ + sum_amounts(
                    amounts@.take(j as int),
                ),
                forall|k: Seq<u8>|
                    #[trigger] self.balances.balance(k) == batch_balance(
                        before.balance(k),
                        sender@,
                        recipients@,
                        amounts@,
                        j as int,
                        k,
                    ),
                forall|m: int|
                    0 <= m < j ==> !#[trigger] before.credit_overflows_at(
                        sender@,
                        recipients@,
                        amounts@,
                        m,
                    ),
            decreases n - j,
        {
            proof {
                lemma_sum_step(amounts@, j as int);
                lemma_credited_step(recipients@, amounts@, j as int);
                assert(self.balances.balance(recipients@[j as int]@) == batch_balance(
                    before.balance(recipients@[j as int]@),
                    sender@,
                    recipients@,
                    amounts@,
                    j as int,
                    recipients@[j as int]@,
                ));
            }
            match self.balances.credit(recipients[j], amounts[j]) {
                Ok(()) => {
                    assert(!before.credit_overflows_at(sender@, recipients@, amounts@, j as int));
                },
                Err(e) => {
                    assert(before.credit_overflows_at(sender@, recipients@, amounts@, j as int));
                    // Take back the credits made so far, last first, then
                    // the debit.
                    let mut m: usize = j;
                    while m > 0
                        invariant
                            n == amounts@.len(),
                            n == recipients@.len(),
                            m <= j < n,
                            total@ == sum_amounts(amounts@),
                            total@ <= before.balance(sender@) <= max_value(),
                            before == *old(self),
                            self.balances.wf(),
                            self.number == before.number,
                            self.numbers == before.numbers,
                            self.balances.total() == before.total_supply() - total@ + sum_amounts(
                                amounts@.take(m as int),
                            ),
                            forall|k: Seq<u8>|
                                #[trigger] self.balances.balance(k) == batch_balance(
                                    before.balance(k),
                                    sender@,
                                    recipients@,
                                    amounts@,
                                    m as int,
                                    k,
                                ),
                        decreases m,
                    {
                        m -= 1;
                        proof {
                            lemma_sum_step(amounts@, m as int);
                            lemma_credited_step(recipients@, amounts@, m as int);
                            assert(self.balances.balance(recipients@[m as int]@) == batch_balance(
                                before.balance(recipients@[m as int]@),
                                sender@,
                                recipients@,
                                amounts@,
                                m + 1,
                                recipients@[m as int]@,
                            ));
                        }
                        match self.balances.debit(recipients[m], amounts[m]) {
                            Ok(()) => {},
                            Err(_) => {},
                        }
                    }
                    assert(self.balances.balance(sender@) == batch_balance(
                        before.balance(sender@),
                        sender@,
                        recipients@,
                        amounts@,
                        0,
                        sender@,
                    ));
                    match self.balances.credit(sender, total) {
                        Ok(()) => {},
                        Err(_) => {},
                    }
                    return Err(e);
                },
            }
            j += 1;
        }
        assert(amounts@.take(n as int) =~= amounts@);
        assert(recipients@.take(n as int) =~= recipients@);
        Ok(())
    }
}

} // verus!
