//! The bank's balances, operations and transfers.

pub mod balance;
pub mod operations;
pub mod storage;
pub mod transfer;

pub use balance::{Balance, BalanceError};
pub use operations::{BalanceOp, BalanceSize, Operation, OperationError, OperationStatus, OperationType};

use vstd::prelude::*;

verus! {

/// A user's name.
pub type Name = String;

} // verus!
