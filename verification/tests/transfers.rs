use stylus_ledger::address::Address;
use stylus_ledger::engine::Contract;
use stylus_ledger::error::LedgerError;
use stylus_ledger::uint::Uint256;

fn acct(b: u8) -> Address {
    Address::new([b; 20])
}

fn n(x: u64) -> Uint256 {
    Uint256::from_u64(x)
}

fn max() -> Uint256 {
    Uint256 { w0: u64::MAX, w1: u64::MAX, w2: u64::MAX, w3: u64::MAX }
}

fn bal(c: &Contract, a: Address) -> Uint256 {
    c.get_balance(a).unwrap()
}

#[test]
fn unknown_account_reads_zero() {
    let c = Contract::constructor();
    assert_eq!(bal(&c, acct(9)), n(0));
    assert_eq!(c.get_number(), n(0));
}

#[test]
fn deposit_adds_to_balance() {
    let mut c = Contract::constructor();
    assert_eq!(c.deposit(acct(1), n(5)), Ok(()));
    assert_eq!(c.deposit(acct(1), n(7)), Ok(()));
    assert_eq!(bal(&c, acct(1)), n(12));
    assert_eq!(bal(&c, acct(2)), n(0));
}

#[test]
fn deposit_carries_across_limbs() {
    let mut c = Contract::constructor();
    assert_eq!(c.deposit(acct(1), n(u64::MAX)), Ok(()));
    assert_eq!(c.deposit(acct(1), n(1)), Ok(()));
    assert_eq!(bal(&c, acct(1)), Uint256 { w0: 0, w1: 1, w2: 0, w3: 0 });
}

#[test]
fn deposit_overflow_is_refused() {
    let mut c = Contract::constructor();
    assert_eq!(c.deposit(acct(1), max()), Ok(()));
    assert_eq!(c.deposit(acct(1), n(1)), Err(LedgerError::Overflow));
    assert_eq!(bal(&c, acct(1)), max());
}

#[test]
fn transfer_moves_value_and_conserves_the_sum() {
    let mut c = Contract::constructor();
    c.deposit(acct(1), n(100)).unwrap();
    c.deposit(acct(2), n(20)).unwrap();
    assert_eq!(c.transfer(acct(1), acct(2), n(30)), Ok(()));
    assert_eq!(bal(&c, acct(1)), n(70));
    assert_eq!(bal(&c, acct(2)), n(50));
    assert_eq!(c.transfer(acct(2), acct(3), n(50)), Ok(()));
    assert_eq!(bal(&c, acct(1)), n(70));
    assert_eq!(bal(&c, acct(2)), n(0));
    assert_eq!(bal(&c, acct(3)), n(50));
}

#[test]
fn transfer_of_whole_balance_is_allowed() {
    let mut c = Contract::constructor();
    c.deposit(acct(1), n(100)).unwrap();
    assert_eq!(c.transfer(acct(1), acct(2), n(100)), Ok(()));
    assert_eq!(bal(&c, acct(1)), n(0));
    assert_eq!(bal(&c, acct(2)), n(100));
}

#[test]
fn transfer_beyond_balance_changes_nothing() {
    let mut c = Contract::constructor();
    c.deposit(acct(1), n(10)).unwrap();
    c.deposit(acct(2), n(4)).unwrap();
    assert_eq!(c.transfer(acct(1), acct(2), n(11)), Err(LedgerError::InsufficientBalance));
    assert_eq!(bal(&c, acct(1)), n(10));
    assert_eq!(bal(&c, acct(2)), n(4));
}

#[test]
fn transfer_that_overflows_recipient_is_taken_back() {
    let mut c = Contract::constructor();
    c.deposit(acct(1), n(10)).unwrap();
    c.deposit(acct(2), max()).unwrap();
    assert_eq!(c.transfer(acct(1), acct(2), n(1)), Err(LedgerError::Overflow));
    assert_eq!(bal(&c, acct(1)), n(10));
    assert_eq!(bal(&c, acct(2)), max());
}

#[test]
fn self_transfer_leaves_balance() {
    let mut c = Contract::constructor();
    c.deposit(acct(1), max()).unwrap();
    assert_eq!(c.transfer(acct(1), acct(1), n(7)), Ok(()));
    assert_eq!(bal(&c, acct(1)), max());
    assert_eq!(c.transfer(acct(2), acct(2), n(1)), Err(LedgerError::InsufficientBalance));
}

#[test]
fn batch_with_mismatched_lengths_changes_nothing() {
    let mut c = Contract::constructor();
    c.deposit(acct(1), n(100)).unwrap();
    let r = c.batch_transfer(acct(1), &[acct(2), acct(3)], &[n(5)]);
    assert_eq!(r, Err(LedgerError::LengthMismatch));
    assert_eq!(bal(&c, acct(1)), n(100));
    assert_eq!(bal(&c, acct(2)), n(0));
    assert_eq!(bal(&c, acct(3)), n(0));
}

#[test]
fn batch_beyond_balance_changes_nothing() {
    let mut c = Contract::constructor();
    c.deposit(acct(1), n(14)).unwrap();
    let r = c.batch_transfer(acct(1), &[acct(2), acct(3)], &[n(10), n(5)]);
    assert_eq!(r, Err(LedgerError::InsufficientBalance));
    assert_eq!(bal(&c, acct(1)), n(14));
    assert_eq!(bal(&c, acct(2)), n(0));
    assert_eq!(bal(&c, acct(3)), n(0));
}

#[test]
fn batch_whose_sum_overflows_is_refused_first() {
    let mut c = Contract::constructor();
    c.deposit(acct(1), n(14)).unwrap();
    let r = c.batch_transfer(acct(1), &[acct(2), acct(3)], &[max(), n(1)]);
    assert_eq!(r, Err(LedgerError::Overflow));
    assert_eq!(bal(&c, acct(1)), n(14));
    assert_eq!(bal(&c, acct(2)), n(0));
}

#[test]
fn batch_credits_in_order() {
    let mut c = Contract::constructor();
    c.deposit(acct(1), n(100)).unwrap();
    let r = c.batch_transfer(acct(1), &[acct(2), acct(3), acct(4)], &[n(10), n(20), n(30)]);
    assert_eq!(r, Ok(()));
    assert_eq!(bal(&c, acct(1)), n(40));
    assert_eq!(bal(&c, acct(2)), n(10));
    assert_eq!(bal(&c, acct(3)), n(20));
    assert_eq!(bal(&c, acct(4)), n(30));
}

#[test]
fn batch_with_duplicate_recipient_credits_each_place() {
    let mut c = Contract::constructor();
    c.deposit(acct(1), n(15)).unwrap();
    c.deposit(acct(2), n(3)).unwrap();
    let r = c.batch_transfer(acct(1), &[acct(2), acct(2)], &[n(10), n(5)]);
    assert_eq!(r, Ok(()));
    assert_eq!(bal(&c, acct(1)), n(0));
    assert_eq!(bal(&c, acct(2)), n(18));
}

#[test]
fn batch_with_sender_among_recipients() {
    let mut c = Contract::constructor();
    c.deposit(acct(1), n(50)).unwrap();
    let r = c.batch_transfer(acct(1), &[acct(1), acct(2)], &[n(20), n(30)]);
    assert_eq!(r, Ok(()));
    assert_eq!(bal(&c, acct(1)), n(20));
    assert_eq!(bal(&c, acct(2)), n(30));
}

#[test]
fn batch_whose_credit_overflows_restores_every_balance() {
    let mut c = Contract::constructor();
    c.deposit(acct(1), n(50)).unwrap();
    c.deposit(acct(3), max()).unwrap();
    let r = c.batch_transfer(acct(1), &[acct(2), acct(3)], &[n(20), n(1)]);
    assert_eq!(r, Err(LedgerError::Overflow));
    assert_eq!(bal(&c, acct(1)), n(50));
    assert_eq!(bal(&c, acct(2)), n(0));
    assert_eq!(bal(&c, acct(3)), max());
}

#[test]
fn batch_whose_later_credit_overflows_takes_back_repeated_credits() {
    let mut c = Contract::constructor();
    c.deposit(acct(1), n(50)).unwrap();
    c.deposit(acct(2), n(7)).unwrap();
    c.deposit(acct(3), max()).unwrap();
    let r = c.batch_transfer(
        acct(1),
        &[acct(2), acct(1), acct(2), acct(3)],
        &[n(20), n(5), n(4), n(1)],
    );
    assert_eq!(r, Err(LedgerError::Overflow));
    assert_eq!(bal(&c, acct(1)), n(50));
    assert_eq!(bal(&c, acct(2)), n(7));
    assert_eq!(bal(&c, acct(3)), max());
}

#[test]
fn run_of_transfers_conserves_the_sum() {
    let mut c = Contract::constructor();
    c.deposit(acct(1), n(60)).unwrap();
    c.deposit(acct(2), n(30)).unwrap();
    c.deposit(acct(3), n(10)).unwrap();
    c.transfer(acct(1), acct(2), n(25)).unwrap();
    c.batch_transfer(acct(2), &[acct(3), acct(1), acct(3)], &[n(5), n(10), n(15)]).unwrap();
    c.transfer(acct(3), acct(3), n(30)).unwrap();
    c.transfer(acct(3), acct(4), n(30)).unwrap();
    let balances = [bal(&c, acct(1)), bal(&c, acct(2)), bal(&c, acct(3)), bal(&c, acct(4))];
    assert_eq!(balances, [n(45), n(25), n(0), n(30)]);
    let sum: u64 = balances.iter().map(|b| b.w0).sum();
    assert_eq!(sum, 100);
}

#[test]
fn empty_batch_succeeds() {
    let mut c = Contract::constructor();
    assert_eq!(c.batch_transfer(acct(1), &[], &[]), Ok(()));
    assert_eq!(bal(&c, acct(1)), n(0));
}

#[test]
fn withdraw_debits_before_paying() {
    let mut c = Contract::constructor();
    c.deposit(acct(1), n(10)).unwrap();
    let payout = c.withdraw(acct(1), n(6)).unwrap();
    assert!(payout.to.same(&acct(1)));
    assert_eq!(payout.amount, n(6));
    assert_eq!(bal(&c, acct(1)), n(4));
    assert_eq!(c.settle(payout, true), Ok(()));
    assert_eq!(bal(&c, acct(1)), n(4));
}

#[test]
fn nested_withdraw_sees_debited_balance() {
    let mut c = Contract::constructor();
    c.deposit(acct(1), n(10)).unwrap();
    let outer = c.withdraw(acct(1), n(6)).unwrap();
    // What the payment sets off runs before the outer call is settled.
    assert_eq!(c.withdraw(acct(1), n(6)).map(|p| p.amount), Err(LedgerError::InsufficientBalance));
    let inner = c.withdraw(acct(1), n(4)).unwrap();
    assert_eq!(inner.amount, n(4));
    assert_eq!(bal(&c, acct(1)), n(0));
    assert_eq!(c.settle(inner, true), Ok(()));
    assert_eq!(c.settle(outer, true), Ok(()));
    assert_eq!(bal(&c, acct(1)), n(0));
}

#[test]
fn withdraw_beyond_balance_is_refused() {
    let mut c = Contract::constructor();
    c.deposit(acct(1), n(10)).unwrap();
    assert_eq!(c.withdraw(acct(1), n(11)).map(|p| p.amount), Err(LedgerError::InsufficientBalance));
    assert_eq!(bal(&c, acct(1)), n(10));
}

#[test]
fn failed_payment_is_an_error() {
    let mut c = Contract::constructor();
    c.deposit(acct(1), n(10)).unwrap();
    c.deposit(acct(2), n(3)).unwrap();
    let payout = c.withdraw(acct(1), n(4)).unwrap();
    assert_eq!(bal(&c, acct(1)), n(6));
    assert_eq!(c.settle(payout, false), Err(LedgerError::ExternalTransferFailed));
    assert_eq!(bal(&c, acct(1)), n(10));
    assert_eq!(bal(&c, acct(2)), n(3));
}

#[test]
fn failed_payment_of_whole_balance_gives_it_back() {
    let mut c = Contract::constructor();
    c.deposit(acct(1), max()).unwrap();
    let payout = c.withdraw(acct(1), max()).unwrap();
    assert_eq!(bal(&c, acct(1)), n(0));
    assert_eq!(c.settle(payout, false), Err(LedgerError::ExternalTransferFailed));
    assert_eq!(bal(&c, acct(1)), max());
}

#[test]
fn failed_nested_payment_gives_back_only_its_own_amount() {
    let mut c = Contract::constructor();
    c.deposit(acct(1), n(10)).unwrap();
    let outer = c.withdraw(acct(1), n(6)).unwrap();
    let inner = c.withdraw(acct(1), n(3)).unwrap();
    assert_eq!(c.settle(inner, false), Err(LedgerError::ExternalTransferFailed));
    assert_eq!(bal(&c, acct(1)), n(4));
    assert_eq!(c.settle(outer, true), Ok(()));
    assert_eq!(bal(&c, acct(1)), n(4));
}

#[test]
fn failed_payment_that_no_longer_fits_leaves_the_balance() {
    let mut c = Contract::constructor();
    c.deposit(acct(1), n(10)).unwrap();
    let payout = c.withdraw(acct(1), n(10)).unwrap();
    c.deposit(acct(1), max()).unwrap();
    assert_eq!(c.settle(payout, false), Err(LedgerError::ExternalTransferFailed));
    assert_eq!(bal(&c, acct(1)), max());
}

#[test]
fn multiple_balances_come_in_order() {
    let mut c = Contract::constructor();
    c.deposit(acct(1), n(1)).unwrap();
    c.deposit(acct(2), n(2)).unwrap();
    let got = c.get_multiple_balances(&[acct(2), acct(7), acct(1), acct(2)]).unwrap();
    assert_eq!(got, vec![n(2), n(0), n(1), n(2)]);
}

#[test]
fn stored_number_is_replaced() {
    let mut c = Contract::constructor();
    c.set_number(n(41));
    c.set_number(n(42));
    assert_eq!(c.get_number(), n(42));
}
