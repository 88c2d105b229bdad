//! Conservation of value: over the whole ledger through any run of
//! transfers, and over the accounts that one transfer touches.

use crate::address::Address;
use crate::engine::{balance_after_transfer, credited, sum_amounts, Contract};
use crate::uint::Uint256;
use vstd::prelude::*;

verus! {

/// The sum of the balances that the listed accounts hold in `c`.
pub open spec fn sum_of_balances(c: &Contract, accounts: Seq<Seq<u8>>) -> nat
    decreases accounts.len(),
{
    if accounts.len() == 0 {
        0
    } else {
        sum_of_balances(c, accounts.drop_last()) + c.balance(accounts.last())
    }
}

/// What a batch credits to the listed accounts together.
pub open spec fn credited_to_all(
    accounts: Seq<Seq<u8>>,
    recipients: Seq<Address>,
    amounts: Seq<Uint256>,
) -> nat
    decreases accounts.len(),
{
    if accounts.len() == 0 {
        0
    } else {
        credited_to_all(accounts.drop_last(), recipients, amounts) + credited(
            recipients,
            amounts,
            accounts.last(),
        )
    }
}

/// A list without duplicates stays one without its last account, and that
/// account stands nowhere else in it.
proof fn lemma_drop_last_distinct(accounts: Seq<Seq<u8>>)
    requires
        accounts.no_duplicates(),
        accounts.len() > 0,
    ensures
        accounts.drop_last().no_duplicates(),
        !accounts.drop_last().contains(accounts.last()),
        forall|k: Seq<u8>|
            accounts.contains(k) <==> (accounts.drop_last().contains(k) || k == accounts.last()),
{
    let rest = accounts.drop_last();
    let n = accounts.len() - 1;
    assert forall|i: int, j: int| 0 <= i < rest.len() && 0 <= j < rest.len() && i != j implies rest[i]
        != rest[j] by {
        assert(rest[i] == accounts[i] && rest[j] == accounts[j]);
    }
    if rest.contains(accounts.last()) {
        let j = choose|j: int| 0 <= j < rest.len() && rest[j] == accounts.last();
        assert(accounts[j] == accounts[n]);
    }
    assert forall|k: Seq<u8>|
        accounts.contains(k) <==> (rest.contains(k) || k == accounts.last()) by {
        if accounts.contains(k) {
            let j = choose|j: int| 0 <= j < accounts.len() && accounts[j] == k;
            if j < n {
                assert(rest[j] == k);
            }
        }
        if rest.contains(k) {
            let j = choose|j: int| 0 <= j < rest.len() && rest[j] == k;
            assert(accounts[j] == k);
        }
        if k == accounts.last() {
            assert(accounts[n] == k);
        }
    }
}

/// The last pair of a batch adds its amount to what the listed accounts are
/// credited with, if its recipient is listed, and nothing if not.
proof fn lemma_last_pair(
    accounts: Seq<Seq<u8>>,
    recipients: Seq<Address>,
    amounts: Seq<Uint256>,
)
    requires
        accounts.no_duplicates(),
        recipients.len() == amounts.len(),
        recipients.len() > 0,
    ensures
        credited_to_all(accounts, recipients, amounts) == credited_to_all(
            accounts,
            recipients.drop_last(),
            amounts.drop_last(),
        ) + if accounts.contains(recipients.last()@) {
            amounts.last()@
        } else {
            0
        },
    decreases accounts.len(),
{
    if accounts.len() > 0 {
        lemma_drop_last_distinct(accounts);
        lemma_last_pair(accounts.drop_last(), recipients, amounts);
    }
}

/// An empty batch credits nothing.
proof fn lemma_nothing_credited(
    accounts: Seq<Seq<u8>>,
    recipients: Seq<Address>,
    amounts: Seq<Uint256>,
)
    requires
        recipients.len() == 0,
    ensures
        credited_to_all(accounts, recipients, amounts) == 0,
    decreases accounts.len(),
{
    if accounts.len() > 0 {
        lemma_nothing_credited(accounts.drop_last(), recipients, amounts);
    }
}

/// Where every recipient is listed, the listed accounts are credited with
/// the sum of all amounts.
pub proof fn lemma_credits_reach_listed(
    accounts: Seq<Seq<u8>>,
    recipients: Seq<Address>,
    amounts: Seq<Uint256>,
)
    requires
        accounts.no_duplicates(),
        recipients.len() == amounts.len(),
        forall|i: int| 0 <= i < recipients.len() ==> accounts.contains(#[trigger] recipients[i]@),
    ensures
        credited_to_all(accounts, recipients, amounts) == sum_amounts(amounts),
    decreases recipients.len(),
{
    if recipients.len() == 0 {
        lemma_nothing_credited(accounts, recipients, amounts);
    } else {
        let rest = recipients.drop_last();
        assert forall|i: int| 0 <= i < rest.len() implies accounts.contains(
            #[trigger] rest[i]@,
        ) by {
            assert(rest[i] == recipients[i]);
        }
        lemma_credits_reach_listed(accounts, rest, amounts.drop_last());
        lemma_last_pair(accounts, recipients, amounts);
        assert(recipients.last() == recipients[recipients.len() - 1]);
    }
}

/// After a batch the listed accounts hold what they held, less the sum of
/// the amounts if the sender is listed, plus what the batch credits to them.
proof fn lemma_listed_after_batch(
    before: &Contract,
    after: &Contract,
    sender: Seq<u8>,
    recipients: Seq<Address>,
    amounts: Seq<Uint256>,
    accounts: Seq<Seq<u8>>,
)
    requires
        recipients.len() == amounts.len(),
        before.batch_transferred(after, sender, recipients, amounts),
        accounts.no_duplicates(),
    ensures
        sum_of_balances(after, accounts) == sum_of_balances(before, accounts) - (if accounts.contains(
            sender,
        ) {
            sum_amounts(amounts)
        } else {
            0
        }) + credited_to_all(accounts, recipients, amounts),
    decreases accounts.len(),
{
    if accounts.len() > 0 {
        lemma_drop_last_distinct(accounts);
        lemma_listed_after_batch(
            before,
            after,
            sender,
            recipients,
            amounts,
            accounts.drop_last(),
        );
        assert(recipients.take(recipients.len() as int) =~= recipients);
        assert(amounts.take(recipients.len() as int) =~= amounts);
    }
}

/// Conservation over the touched accounts: a successful batch transfer
/// leaves the sum of the balances of the sender and all recipients, each
/// account counted once, as it was.
pub proof fn lemma_batch_conserves_touched(
    before: &Contract,
    after: &Contract,
    sender: Seq<u8>,
    recipients: Seq<Address>,
    amounts: Seq<Uint256>,
    accounts: Seq<Seq<u8>>,
)
    requires
        recipients.len() == amounts.len(),
        before.batch_transferred(after, sender, recipients, amounts),
        accounts.no_duplicates(),
        accounts.contains(sender),
        forall|i: int| 0 <= i < recipients.len() ==> accounts.contains(#[trigger] recipients[i]@),
    ensures
        sum_of_balances(after, accounts) == sum_of_balances(before, accounts),
{
    lemma_credits_reach_listed(accounts, recipients, amounts);
    lemma_listed_after_batch(before, after, sender, recipients, amounts, accounts);
}

/// `after` is what some successful transfer or batch transfer makes of
/// `before`.
pub open spec fn moved(before: &Contract, after: &Contract) -> bool {
    ||| exists|sender: Seq<u8>, to: Seq<u8>, amount: nat| #[trigger]
        before.transferred(after, sender, to, amount)
    ||| exists|sender: Seq<u8>, recipients: Seq<Address>, amounts: Seq<Uint256>| #[trigger]
        before.batch_transferred(after, sender, recipients, amounts)
}

/// The state at `i + 1` comes from the state at `i` by a successful transfer
/// or batch transfer.
pub open spec fn moved_at(states: Seq<Contract>, i: int) -> bool {
    moved(&states[i], &states[i + 1])
}

/// Conservation: through any run of successful transfers and batch
/// transfers the sum of all balances stays what it was at the start.
pub proof fn lemma_conservation(states: Seq<Contract>)
    requires
        states.len() > 0,
        forall|i: int| 0 <= i < states.len() - 1 ==> #[trigger] moved_at(states, i),
    ensures
        states.last().total_supply() == states[0].total_supply(),
    decreases states.len(),
{
    if states.len() > 1 {
        let shorter = states.drop_last();
        assert forall|i: int| 0 <= i < shorter.len() - 1 implies #[trigger] moved_at(
            shorter,
            i,
        ) by {
            assert(moved_at(states, i));
        }
        lemma_conservation(shorter);
        assert(moved_at(states, states.len() - 2));
    }
}

/// A transfer between two different accounts leaves the sum of their two
/// balances as it was; one from an account to itself leaves its balance.
pub proof fn lemma_transfer_conserves_pair(sender_balance: nat, recipient_balance: nat, amount: nat)
    ensures
        balance_after_transfer(sender_balance, true, false, amount) + balance_after_transfer(
            recipient_balance,
            false,
            true,
            amount,
        ) == sender_balance + recipient_balance,
        balance_after_transfer(sender_balance, true, true, amount) == sender_balance,
{
}

} // verus!
