use vstd::prelude::*;

verus! {

/// Why an operation was refused. A refused operation leaves the ledger as it was.
#[derive(Clone, Copy, Debug, PartialEq, Eq, Structural)]
pub enum LedgerError {
    /// A project with this identifier is already registered.
    AlreadyExists,
    /// No project with this identifier is registered.
    NotFound,
    /// The pledge is smaller than the project's minimum pledge.
    BelowMinimumPledge,
    /// The project has reached its target and takes no more pledges.
    TargetAlreadyReached,
    /// The attached deposit does not cover the growth in storage.
    InsufficientPayment,
    /// The funded total would no longer fit its 128 bits.
    IntegrityOverflow,
}

} // verus!
