use crate::error::LedgerError;
use crate::Balance;
use vstd::prelude::*;

verus! {

/// The price of `storage_used` bytes at `byte_cost` each.
pub open spec fn storage_price(storage_used: u64, byte_cost: u128) -> int {
    byte_cost as int * storage_used as int
}

/// Settles the deposit attached to a registration against the storage it took.
///
/// `storage_used` is the growth in persisted bytes that the host's meter
/// reports for the registration, `byte_cost` the host's price of a byte. The
/// result is the excess to return to the caller. A deposit that does not
/// cover the price is refused with `InsufficientPayment`: the host then has to
/// drop the registration.
pub fn refund_deposit(storage_used: u64, byte_cost: Balance, attached_deposit: Balance) -> (r:
    Result<Balance, LedgerError>)
    ensures
        match r {
            Ok(refund) => {
                &&& storage_price(storage_used, byte_cost) <= attached_deposit
                &&& refund == attached_deposit - storage_price(storage_used, byte_cost)
            },
            Err(e) => {
                &&& e == LedgerError::InsufficientPayment
                &&& storage_price(storage_used, byte_cost) > attached_deposit
            },
        },
{
    match byte_cost.checked_mul(storage_used as u128) {
        Some(required_cost) => {
            if required_cost <= attached_deposit {
                Ok(attached_deposit - required_cost)
            } else {
                Err(LedgerError::InsufficientPayment)
            }
        },
        None => Err(LedgerError::InsufficientPayment),
    }
}

} // verus!
