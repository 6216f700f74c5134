//! A crowdfunding ledger: it registers fundraising projects, accepts pledges
//! toward a target, asks for the payout once the target is met, and keeps the
//! owner, supporter and voter indices.
//!
//! The ledger is an explicit state object. Whatever an operation needs from
//! the host (the clock, the caller's account, the attached payment) is a
//! parameter, and whatever the host has to do afterwards (emit a notification,
//! transfer funds) is part of the result. An operation either succeeds or
//! returns a [`LedgerError`] and leaves no trace: a refused registration,
//! pledge or vote leaves the ledger as it was, and a registration whose
//! deposit falls short of its storage is undone when the deposit is settled.
//!
//! The contracts are stated over [`model::ContractView`], the mathematical
//! value of the ledger, and [`laws`] holds what follows from them for series
//! of operations.

pub mod billing;
pub mod contract;
pub mod enumeration;
pub mod error;
pub mod events;
pub mod index;
pub mod laws;
pub mod metadata;
pub mod model;
pub mod operations;
pub mod records;

pub use crate::billing::refund_deposit;
pub use crate::contract::Contract;
pub use crate::error::LedgerError;
pub use crate::events::{EventLog, EventLogVariant, ProjectCreateLog};
pub use crate::metadata::{JsonProject, Project, ProjectMetadata};
pub use crate::operations::Transfer;
pub use crate::records::ProjectRecord;

use vstd::prelude::*;

verus! {

/// Identifier of a project, chosen by whoever registers it.
pub type ProjectId = String;

/// Identifier of an account.
pub type AccountId = String;

/// An amount of the native currency, in its smallest unit.
pub type Balance = u128;

/// A point in time, in nanoseconds.
pub type Timestamp = u64;

} // verus!
