//! A transfer of money between two accounts.

use crate::bank::operations::BalanceOp;
use vstd::prelude::*;

verus! {

/// A transfer of `amount` from the account `from` to the account `to`.
#[derive(Debug, Clone)]
pub struct Transfer {
    pub from: String,
    pub to: String,
    pub amount: u64,
}

impl Transfer {
    /// The transfer of `amount` from `from` to `to`.
    pub fn new(from: String, to: String, amount: u64) -> (r: Self)
        ensures
            r.from == from,
            r.to == to,
            r.amount == amount,
    {
        Self { from, to, amount }
    }
}

impl vstd::std_specs::convert::FromSpecImpl<Transfer> for BalanceOp {
    open spec fn obeys_from_spec() -> bool {
        true
    }

    open spec fn from_spec(v: Transfer) -> BalanceOp {
        BalanceOp::Transfer(v.from, v.amount, false)
    }
}

impl From<Transfer> for BalanceOp {
    /// The outgoing transfer operation: it names the sending account.
    fn from(value: Transfer) -> (r: BalanceOp) {
        BalanceOp::Transfer(value.from, value.amount, false)
    }
}

} // verus!
