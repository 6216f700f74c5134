use crowdfunding::operations::payout_amount;
use crowdfunding::{refund_deposit, LedgerError};

#[test]
fn excess_deposit_is_returned() {
    assert_eq!(refund_deposit(100, 3, 1000), Ok(700));
    assert_eq!(refund_deposit(100, 10, 1000), Ok(0));
    assert_eq!(refund_deposit(0, 10, 1000), Ok(1000));
    assert_eq!(refund_deposit(0, u128::MAX, 0), Ok(0));
    assert_eq!(
        refund_deposit(600, 10_000_000_000_000_000_000, 60_000_000_000_000_000_000_000),
        Ok(54_000_000_000_000_000_000_000)
    );
}

#[test]
fn short_deposit_is_refused() {
    assert_eq!(refund_deposit(100, 10, 999), Err(LedgerError::InsufficientPayment));
    assert_eq!(refund_deposit(1, 1, 0), Err(LedgerError::InsufficientPayment));
    // A price beyond 128 bits is more than any deposit.
    assert_eq!(refund_deposit(2, u128::MAX, u128::MAX), Err(LedgerError::InsufficientPayment));
    assert_eq!(refund_deposit(u64::MAX, u128::MAX, u128::MAX), Err(LedgerError::InsufficientPayment));
    assert_eq!(refund_deposit(1, u128::MAX, u128::MAX), Ok(0));
}

#[test]
fn payout_is_ninety_five_percent_rounded_down() {
    assert_eq!(payout_amount(0), 0);
    assert_eq!(payout_amount(1), 0);
    assert_eq!(payout_amount(2), 1);
    assert_eq!(payout_amount(20), 19);
    assert_eq!(payout_amount(21), 19);
    assert_eq!(payout_amount(99), 94);
    assert_eq!(payout_amount(100), 95);
    assert_eq!(payout_amount(110), 104);
    assert_eq!(payout_amount(10_000_000_000_000_000_000_000_000), 9_500_000_000_000_000_000_000_000);
    // Where 95 times the total no longer fits 128 bits.
    assert_eq!(payout_amount(u128::MAX), 323268248574891540290205877060179800882);
}
